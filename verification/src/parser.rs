//! The recursive-descent parser: turns the text of a formula into an
//! `Expression` tree or reports a syntax error.
//!
//! The grammar, lowest precedence first, with binary operators
//! left-associative:
//!
//! ```text
//! implies := or ( '>' or )*
//! or      := and ( ('|' | 'v') and )*
//! and     := not ( '&' not )*
//! not     := '-' not | primary
//! primary := VARIABLE | '(' implies ')'
//! ```
//!
//! A variable is a single uppercase ASCII letter; lowercase `v` is the OR
//! operator and never part of a name. Whitespace is ignored everywhere;
//! any other character is an error. The whole input must be consumed.

use std::rc::Rc;
use vstd::prelude::*;

use crate::expression::Expression;
use crate::expression::SpecExpr;

verus! {

/// One lexical token of the formula language.
#[derive(Debug, Clone, Copy)]
pub enum Token {
    /// The AND operator, `&`.
    And,
    /// The OR operator, `|` or lowercase `v`.
    Or,
    /// The IMPLIES operator, `>`.
    Implies,
    /// The prefix NOT operator, `-`.
    Not,
    /// An opening parenthesis.
    OpenParen,
    /// A closing parenthesis.
    CloseParen,
    /// A variable: a single uppercase ASCII letter.
    Variable(char),
}

/// The error reported when the input is not a well-formed formula.
#[derive(Debug, Clone, Copy, PartialEq, Eq)]
pub enum SyntaxError {
    /// The input holds no token at all.
    EmptyInput,
    /// A character that no token can start with.
    InvalidCharacter(char),
    /// A token that no operand can start with, where an operand is owed.
    UnexpectedToken,
    /// The input ends where an operand or a closing parenthesis is owed.
    UnexpectedEnd,
    /// An opened group is never closed.
    UnmatchedParenthesis,
    /// Tokens remain after a complete formula has been read.
    TrailingInput,
}

/// Whether `c` is ignored between tokens.
pub open spec fn is_whitespace_char(c: char) -> bool {
    c == ' ' || c == '\t' || c == '\n' || c == '\r'
}

/// Whether `c` names a variable: a single uppercase ASCII letter.
pub open spec fn is_variable_char(c: char) -> bool {
    'A' as u32 <= c as u32 && c as u32 <= 'Z' as u32
}

/// The token that the single character `c` stands for, if any.
/// Whitespace is not classified here; it is dropped by `spec_tokenize`.
pub open spec fn spec_classify(c: char) -> Option<Token> {
    if is_variable_char(c) {
        Some(Token::Variable(c))
    } else if c == '&' {
        Some(Token::And)
    } else if c == '|' || c == 'v' {
        Some(Token::Or)
    } else if c == '-' {
        Some(Token::Not)
    } else if c == '>' {
        Some(Token::Implies)
    } else if c == '(' {
        Some(Token::OpenParen)
    } else if c == ')' {
        Some(Token::CloseParen)
    } else {
        None
    }
}

/// The token sequence of a text: every character classified in order,
/// whitespace dropped, or nothing if some character is invalid.
pub open spec fn spec_tokenize(s: Seq<char>) -> Option<Seq<Token>>
    decreases s.len(),
{
    if s.len() == 0 {
        Some(Seq::empty())
    } else if is_whitespace_char(s[0]) {
        spec_tokenize(s.drop_first())
    } else {
        match spec_classify(s[0]) {
            None => None,
            Some(t) => match spec_tokenize(s.drop_first()) {
                None => None,
                Some(rest) => Some(seq![t] + rest),
            },
        }
    }
}

/// How many tokens stand at or after `pos`: the measure that shrinks as
/// the parser advances.
pub open spec fn tokens_left(toks: Seq<Token>, pos: nat) -> nat {
    if pos <= toks.len() {
        (toks.len() - pos) as nat
    } else {
        0
    }
}

/// `p`, but never below `lo`. The parsing functions consume at least one
/// token, so wherever this guards a recursive call it leaves the position
/// unchanged; it only makes the decrease of `tokens_left` plain.
pub open spec fn at_least(lo: nat, p: nat) -> nat {
    if p >= lo {
        p
    } else {
        lo
    }
}

/// Parses a primary at `pos`: a variable, or a parenthesized formula.
/// Yields the tree and the position after it.
pub open spec fn spec_primary(toks: Seq<Token>, pos: nat) -> Option<(SpecExpr, nat)>
    decreases tokens_left(toks, pos), 0int,
{
    if pos >= toks.len() {
        None
    } else {
        match toks[pos as int] {
            Token::Variable(c) => Some((SpecExpr::Var(seq![c]), pos + 1)),
            Token::OpenParen => match spec_implies(toks, pos + 1) {
                None => None,
                Some((e, q)) => if q < toks.len() && toks[q as int] is CloseParen {
                    Some((e, q + 1))
                } else {
                    None
                },
            },
            _ => None,
        }
    }
}

/// Parses a negation at `pos`: any run of `-` before a primary.
pub open spec fn spec_not(toks: Seq<Token>, pos: nat) -> Option<(SpecExpr, nat)>
    decreases tokens_left(toks, pos), 1int,
{
    if pos < toks.len() && toks[pos as int] is Not {
        match spec_not(toks, pos + 1) {
            None => None,
            Some((e, q)) => Some((SpecExpr::Not(Box::new(e)), q)),
        }
    } else {
        spec_primary(toks, pos)
    }
}

/// Extends `acc` with every further `& not` at `pos`, left-associatively.
pub open spec fn spec_and_rest(toks: Seq<Token>, pos: nat, acc: SpecExpr) -> Option<
    (SpecExpr, nat),
>
    decreases tokens_left(toks, pos), 2int,
{
    if pos < toks.len() && toks[pos as int] is And {
        match spec_not(toks, pos + 1) {
            None => None,
            Some((r, q)) => spec_and_rest(
                toks,
                at_least(pos + 2, q),
                SpecExpr::And(Box::new(acc), Box::new(r)),
            ),
        }
    } else {
        Some((acc, pos))
    }
}

/// Parses a conjunction at `pos`: `not ( '&' not )*`.
pub open spec fn spec_and(toks: Seq<Token>, pos: nat) -> Option<(SpecExpr, nat)>
    decreases tokens_left(toks, pos), 3int,
{
    match spec_not(toks, pos) {
        None => None,
        Some((l, q)) => spec_and_rest(toks, at_least(pos + 1, q), l),
    }
}

/// Extends `acc` with every further `('|'|'v') and` at `pos`.
pub open spec fn spec_or_rest(toks: Seq<Token>, pos: nat, acc: SpecExpr) -> Option<
    (SpecExpr, nat),
>
    decreases tokens_left(toks, pos), 4int,
{
    if pos < toks.len() && toks[pos as int] is Or {
        match spec_and(toks, pos + 1) {
            None => None,
            Some((r, q)) => spec_or_rest(
                toks,
                at_least(pos + 2, q),
                SpecExpr::Or(Box::new(acc), Box::new(r)),
            ),
        }
    } else {
        Some((acc, pos))
    }
}

/// Parses a disjunction at `pos`: `and ( ('|'|'v') and )*`.
pub open spec fn spec_or(toks: Seq<Token>, pos: nat) -> Option<(SpecExpr, nat)>
    decreases tokens_left(toks, pos), 5int,
{
    match spec_and(toks, pos) {
        None => None,
        Some((l, q)) => spec_or_rest(toks, at_least(pos + 1, q), l),
    }
}

/// Extends `acc` with every further `'>' or` at `pos`.
pub open spec fn spec_implies_rest(toks: Seq<Token>, pos: nat, acc: SpecExpr) -> Option<
    (SpecExpr, nat),
>
    decreases tokens_left(toks, pos), 6int,
{
    if pos < toks.len() && toks[pos as int] is Implies {
        match spec_or(toks, pos + 1) {
            None => None,
            Some((r, q)) => spec_implies_rest(
                toks,
                at_least(pos + 2, q),
                SpecExpr::Implies(Box::new(acc), Box::new(r)),
            ),
        }
    } else {
        Some((acc, pos))
    }
}

/// Parses a whole formula at `pos`: `or ( '>' or )*`, the lowest
/// precedence level.
pub open spec fn spec_implies(toks: Seq<Token>, pos: nat) -> Option<(SpecExpr, nat)>
    decreases tokens_left(toks, pos), 7int,
{
    match spec_or(toks, pos) {
        None => None,
        Some((l, q)) => spec_implies_rest(toks, at_least(pos + 1, q), l),
    }
}

/// What parsing a text yields: the tree of its formula, or nothing when
/// the text is not a single well-formed formula consumed in full.
pub open spec fn spec_parse(s: Seq<char>) -> Option<SpecExpr> {
    match spec_tokenize(s) {
        None => None,
        Some(toks) => match spec_implies(toks, 0) {
            None => None,
            Some((e, q)) => if q == toks.len() {
                Some(e)
            } else {
                None
            },
        },
    }
}

/// Relies on char::to_string: the text of a single character holds that
/// character and nothing else.
#[verifier::external_body]
fn char_to_string(c: char) -> (s: String)
    ensures
        s@ == seq![c],
{
    c.to_string()
}

/// Classifies one character, as `spec_classify` says.
fn classify(c: char) -> (r: Option<Token>)
    ensures
        r == spec_classify(c),
{
    if (c as u32) >= ('A' as u32) && (c as u32) <= ('Z' as u32) {
        Some(Token::Variable(c))
    } else if c == '&' {
        Some(Token::And)
    } else if c == '|' || c == 'v' {
        Some(Token::Or)
    } else if c == '-' {
        Some(Token::Not)
    } else if c == '>' {
        Some(Token::Implies)
    } else if c == '(' {
        Some(Token::OpenParen)
    } else if c == ')' {
        Some(Token::CloseParen)
    } else {
        None
    }
}

/// Whether `c` is ignored between tokens.
fn is_whitespace(c: char) -> (r: bool)
    ensures
        r == is_whitespace_char(c),
{
    c == ' ' || c == '\t' || c == '\n' || c == '\r'
}

/// `rest` with `pre` put before its tokens, if it holds any.
pub open spec fn with_tokens_before(pre: Seq<Token>, rest: Option<Seq<Token>>) -> Option<
    Seq<Token>,
> {
    match rest {
        None => None,
        Some(ts) => Some(pre + ts),
    }
}

/// Turns the input text into its token sequence, or reports the first
/// invalid character.
fn tokenize(input: &str) -> (r: Result<Vec<Token>, SyntaxError>)
    ensures
        match r {
            Ok(toks) => spec_tokenize(input@) == Some(toks@),
            Err(_) => spec_tokenize(input@) is None,
        },
{
    let len = input.unicode_len();
    let mut toks: Vec<Token> = Vec::new();
    let mut i: usize = 0;
    proof {
        assert(input@.skip(0) =~= input@);
        match spec_tokenize(input@) {
            None => {},
            Some(ts) => {
                assert(Seq::<Token>::empty() + ts =~= ts);
            },
        }
    }
    while i < len
        invariant
            len == input@.len(),
            i <= len,
            spec_tokenize(input@) == with_tokens_before(
                toks@,
                spec_tokenize(input@.skip(i as int)),
            ),
        decreases len - i,
    {
        let c = input.get_char(i);
        proof {
            assert(input@.skip(i as int)[0] == c);
            assert(input@.skip(i as int).drop_first() =~= input@.skip(i + 1));
        }
        if is_whitespace(c) {
            // dropped; the token sequence of the rest is unchanged
        } else {
            match classify(c) {
                None => {
                    proof {
                        assert(spec_tokenize(input@.skip(i as int)) is None);
                    }
                    return Err(SyntaxError::InvalidCharacter(c));
                },
                Some(t) => {
                    let ghost before = toks@;
                    toks.push(t);
                    proof {
                        match spec_tokenize(input@.skip(i + 1)) {
                            None => {},
                            Some(ts) => {
                                assert(spec_tokenize(input@.skip(i as int)) == Some(seq![t] + ts));
                                assert(before + (seq![t] + ts) =~= toks@ + ts);
                            },
                        }
                    }
                },
            }
        }
        i = i + 1;
    }
    proof {
        assert(input@.skip(len as int) =~= Seq::<char>::empty());
        assert(spec_tokenize(input@.skip(len as int)) == Some(Seq::<Token>::empty()));
        assert(toks@ + Seq::<Token>::empty() =~= toks@);
    }
    Ok(toks)
}

/// Parses a primary at `pos`, as `spec_primary` says.
fn parse_primary(toks: &Vec<Token>, pos: usize) -> (r: Result<(Expression, usize), SyntaxError>)
    requires
        pos <= toks@.len(),
    ensures
        match r {
            Ok((e, q)) => spec_primary(toks@, pos as nat) == Some((e@, q as nat)) && pos < q
                <= toks@.len(),
            Err(_) => spec_primary(toks@, pos as nat) is None,
        },
    decreases toks@.len() - pos, 0int,
{
    if pos >= toks.len() {
        return Err(SyntaxError::UnexpectedEnd);
    }
    match toks[pos] {
        Token::Variable(c) => {
            let name = char_to_string(c);
            Ok((Expression::Var(name), pos + 1))
        },
        Token::OpenParen => {
            match parse_implies(toks, pos + 1) {
                Err(e) => Err(e),
                Ok((e, q)) => {
                    if q < toks.len() {
                        match toks[q] {
                            Token::CloseParen => Ok((e, q + 1)),
                            _ => Err(SyntaxError::UnmatchedParenthesis),
                        }
                    } else {
                        Err(SyntaxError::UnmatchedParenthesis)
                    }
                },
            }
        },
        _ => Err(SyntaxError::UnexpectedToken),
    }
}

/// Parses a negation at `pos`, as `spec_not` says.
fn parse_not(toks: &Vec<Token>, pos: usize) -> (r: Result<(Expression, usize), SyntaxError>)
    requires
        pos <= toks@.len(),
    ensures
        match r {
            Ok((e, q)) => spec_not(toks@, pos as nat) == Some((e@, q as nat)) && pos < q
                <= toks@.len(),
            Err(_) => spec_not(toks@, pos as nat) is None,
        },
    decreases toks@.len() - pos, 1int,
{
    let negated = pos < toks.len() && match toks[pos] {
        Token::Not => true,
        _ => false,
    };
    if negated {
        match parse_not(toks, pos + 1) {
            Err(e) => Err(e),
            Ok((e, q)) => Ok((Expression::Not(Rc::new(e)), q)),
        }
    } else {
        parse_primary(toks, pos)
    }
}

/// Parses a conjunction at `pos`, as `spec_and` says.
fn parse_and(toks: &Vec<Token>, pos: usize) -> (r: Result<(Expression, usize), SyntaxError>)
    requires
        pos <= toks@.len(),
    ensures
        match r {
            Ok((e, q)) => spec_and(toks@, pos as nat) == Some((e@, q as nat)) && pos < q
                <= toks@.len(),
            Err(_) => spec_and(toks@, pos as nat) is None,
        },
    decreases toks@.len() - pos, 3int,
{
    let (l, q) = match parse_not(toks, pos) {
        Err(e) => {
            return Err(e);
        },
        Ok(x) => x,
    };
    let mut acc = l;
    let mut p = q;
    loop
        invariant
            pos < p <= toks@.len(),
            spec_and(toks@, pos as nat) == spec_and_rest(toks@, p as nat, acc@),
        ensures
            pos < p <= toks@.len(),
            spec_and(toks@, pos as nat) == spec_and_rest(toks@, p as nat, acc@),
            !(p < toks@.len() && toks@[p as int] is And),
        decreases toks@.len() - p,
    {
        if p >= toks.len() {
            break;
        }
        let continues = match toks[p] {
            Token::And => true,
            _ => false,
        };
        if !continues {
            break;
        }
        match parse_not(toks, p + 1) {
            Err(e) => {
                return Err(e);
            },
            Ok((r2, q2)) => {
                proof {
                    assert(at_least(p as nat + 2, q2 as nat) == q2 as nat);
                }
                acc = Expression::And(Rc::new(acc), Rc::new(r2));
                p = q2;
            },
        }
    }
    Ok((acc, p))
}

/// Parses a disjunction at `pos`, as `spec_or` says.
fn parse_or(toks: &Vec<Token>, pos: usize) -> (r: Result<(Expression, usize), SyntaxError>)
    requires
        pos <= toks@.len(),
    ensures
        match r {
            Ok((e, q)) => spec_or(toks@, pos as nat) == Some((e@, q as nat)) && pos < q
                <= toks@.len(),
            Err(_) => spec_or(toks@, pos as nat) is None,
        },
    decreases toks@.len() - pos, 5int,
{
    let (l, q) = match parse_and(toks, pos) {
        Err(e) => {
            return Err(e);
        },
        Ok(x) => x,
    };
    let mut acc = l;
    let mut p = q;
    loop
        invariant
            pos < p <= toks@.len(),
            spec_or(toks@, pos as nat) == spec_or_rest(toks@, p as nat, acc@),
        ensures
            pos < p <= toks@.len(),
            spec_or(toks@, pos as nat) == spec_or_rest(toks@, p as nat, acc@),
            !(p < toks@.len() && toks@[p as int] is Or),
        decreases toks@.len() - p,
    {
        if p >= toks.len() {
            break;
        }
        let continues = match toks[p] {
            Token::Or => true,
            _ => false,
        };
        if !continues {
            break;
        }
        match parse_and(toks, p + 1) {
            Err(e) => {
                return Err(e);
            },
            Ok((r2, q2)) => {
                proof {
                    assert(at_least(p as nat + 2, q2 as nat) == q2 as nat);
                }
                acc = Expression::Or(Rc::new(acc), Rc::new(r2));
                p = q2;
            },
        }
    }
    Ok((acc, p))
}

/// Parses a whole formula at `pos`, as `spec_implies` says.
fn parse_implies(toks: &Vec<Token>, pos: usize) -> (r: Result<(Expression, usize), SyntaxError>)
    requires
        pos <= toks@.len(),
    ensures
        match r {
            Ok((e, q)) => spec_implies(toks@, pos as nat) == Some((e@, q as nat)) && pos < q
                <= toks@.len(),
            Err(_) => spec_implies(toks@, pos as nat) is None,
        },
    decreases toks@.len() - pos, 7int,
{
    let (l, q) = match parse_or(toks, pos) {
        Err(e) => {
            return Err(e);
        },
        Ok(x) => x,
    };
    let mut acc = l;
    let mut p = q;
    loop
        invariant
            pos < p <= toks@.len(),
            spec_implies(toks@, pos as nat) == spec_implies_rest(toks@, p as nat, acc@),
        ensures
            pos < p <= toks@.len(),
            spec_implies(toks@, pos as nat) == spec_implies_rest(toks@, p as nat, acc@),
            !(p < toks@.len() && toks@[p as int] is Implies),
        decreases toks@.len() - p,
    {
        if p >= toks.len() {
            break;
        }
        let continues = match toks[p] {
            Token::Implies => true,
            _ => false,
        };
        if !continues {
            break;
        }
        match parse_or(toks, p + 1) {
            Err(e) => {
                return Err(e);
            },
            Ok((r2, q2)) => {
                proof {
                    assert(at_least(p as nat + 2, q2 as nat) == q2 as nat);
                }
                acc = Expression::Implies(Rc::new(acc), Rc::new(r2));
                p = q2;
            },
        }
    }
    Ok((acc, p))
}

/// Parses one formula out of one input text. A parser holds only the text
/// it was given; each call of `parse` reads it afresh.
pub struct Parser {
    input: String,
}

impl View for Parser {
    type V = Seq<char>;

    closed spec fn view(&self) -> Seq<char> {
        self.input@
    }
}

impl Parser {
    /// Makes a parser for the given text.
    pub fn new(input: &str) -> (p: Parser)
        ensures
            p@ == input@,
    {
        Parser { input: input.to_owned() }
    }

    /// Parses the whole input text: the tree of its formula exactly when
    /// `spec_parse` yields one, and a syntax error on every other text.
    pub fn parse(&mut self) -> (r: Result<Expression, SyntaxError>)
        ensures
            final(self)@ == old(self)@,
            match r {
                Ok(e) => spec_parse(old(self)@) == Some(e@),
                Err(_) => spec_parse(old(self)@) is None,
            },
    {
        let toks = match tokenize(self.input.as_str()) {
            Err(e) => {
                return Err(e);
            },
            Ok(t) => t,
        };
        if toks.len() == 0 {
            return Err(SyntaxError::EmptyInput);
        }
        match parse_implies(&toks, 0) {
            Err(e) => Err(e),
            Ok((e, q)) => {
                if q == toks.len() {
                    Ok(e)
                } else {
                    Err(SyntaxError::TrailingInput)
                }
            },
        }
    }
}

} // verus!
