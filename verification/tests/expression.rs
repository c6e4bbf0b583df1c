use propositional_logic_calculator::expression::{not, var, Expression};
use propositional_logic_calculator::parser::{Parser, SyntaxError};

#[test]
fn every_single_letter_parses_to_its_variable() {
    for c in 'A'..='Z' {
        let text = c.to_string();
        let mut parser = Parser::new(&text);
        assert_eq!(parser.parse().unwrap(), Expression::Var(text.clone()));
    }
}

#[test]
fn whitespace_and_grouping_do_not_matter() {
    let expected = var("A").and(&var("B"));
    for text in ["A&B", "A & B", "(A & B)", "  (  A  &  B  )  "] {
        let mut parser = Parser::new(text);
        assert_eq!(parser.parse().unwrap(), *expected);
    }
}

#[test]
fn implies_parses() {
    let mut parser = Parser::new("A>B");
    assert_eq!(parser.parse().unwrap(), *var("A").implies(&var("B")));
}

#[test]
fn precedence_orders_implies_or_and_not() {
    // NOT binds before AND, AND before OR, OR before IMPLIES.
    let mut parser = Parser::new("-A&B|C>D");
    let expected = not(&var("A"))
        .and(&var("B"))
        .or(&var("C"))
        .implies(&var("D"));
    assert_eq!(parser.parse().unwrap(), *expected);
}

#[test]
fn binary_operators_are_left_associative() {
    let mut parser = Parser::new("A&B&C");
    assert_eq!(
        parser.parse().unwrap(),
        *var("A").and(&var("B")).and(&var("C"))
    );
    let mut parser = Parser::new("A>B>C");
    assert_eq!(
        parser.parse().unwrap(),
        *var("A").implies(&var("B")).implies(&var("C"))
    );
}

#[test]
fn deep_redundant_nesting_is_transparent() {
    let mut parser = Parser::new("((((((((A))))))))");
    assert_eq!(parser.parse().unwrap(), Expression::Var("A".to_string()));
}

#[test]
fn each_error_has_an_input_that_yields_it() {
    assert_eq!(Parser::new("").parse(), Err(SyntaxError::EmptyInput));
    assert_eq!(
        Parser::new("A$B").parse(),
        Err(SyntaxError::InvalidCharacter('$'))
    );
    assert_eq!(Parser::new("&|>").parse(), Err(SyntaxError::UnexpectedToken));
    assert_eq!(Parser::new("A&").parse(), Err(SyntaxError::UnexpectedEnd));
    assert_eq!(
        Parser::new("(A&B").parse(),
        Err(SyntaxError::UnmatchedParenthesis)
    );
    assert_eq!(
        Parser::new("(A&B))|(C").parse(),
        Err(SyntaxError::TrailingInput)
    );
}

#[test]
fn render_spells_every_operator_canonically() {
    assert_eq!(var("A").and(&var("B")).render(), "(A & B)");
    assert_eq!(var("A").or(&var("B")).render(), "(A v B)");
    assert_eq!(var("A").implies(&var("B")).render(), "(A -> B)");
    assert_eq!(not(&var("A")).render(), "~A");
    assert_eq!(not(&var("A").and(&var("B"))).render(), "~(A & B)");
    assert_eq!(var("A").render(), "A");
}

#[test]
fn rendering_then_parsing_preserves_and_or_trees() {
    let trees = [
        var("A").and(&var("B")),
        var("A").or(&var("B")),
        var("A").and(&var("B")).or(&var("C").and(&var("D"))),
        Expression::Var("Q".to_string()).wrap(),
    ];
    for tree in &trees {
        let text = tree.render();
        let mut parser = Parser::new(&text);
        assert_eq!(parser.parse().unwrap(), **tree);
    }
}

#[test]
fn list_expressions_returns_five_entries_for_the_example() {
    let expr = Expression::And(
        Expression::Var("A".to_string()).wrap(),
        Expression::Or(
            Expression::Var("B".to_string()).wrap(),
            Expression::Var("C".to_string()).wrap(),
        )
        .wrap(),
    );
    let expressions = expr.list_expressions();
    assert_eq!(expressions.len(), 5);
    assert_eq!(expressions[0], expr);
    assert_eq!(expressions[1], Expression::Var("A".to_string()));
    assert_eq!(
        expressions[2],
        *var("B").or(&var("C"))
    );
    assert_eq!(expressions[3], Expression::Var("B".to_string()));
    assert_eq!(expressions[4], Expression::Var("C".to_string()));
}

#[test]
fn list_expressions_collapses_only_adjacent_duplicates() {
    // Pre-order of And(A, A) is [And(A, A), A, A]: the two adjacent
    // copies of A collapse to one.
    let doubled = var("A").and(&var("A"));
    let listed = doubled.list_expressions();
    assert_eq!(listed.len(), 2);
    assert_eq!(listed[0], *doubled);
    assert_eq!(listed[1], Expression::Var("A".to_string()));

    // Pre-order of And(A, Or(A, B)) is [And(..), A, Or(A, B), A, B]: the
    // two copies of A are separated, so both stay.
    let spread = var("A").and(&var("A").or(&var("B")));
    assert_eq!(spread.list_expressions().len(), 5);
}

#[test]
fn structural_equality_ignores_sharing() {
    let shared = var("A");
    let with_sharing = shared.and(&shared);
    let without_sharing = var("A").and(&var("A"));
    assert_eq!(*with_sharing, *without_sharing);
}
