//! Laws of the parser, stated and proved over its specification: what a
//! single letter parses to, that whitespace and redundant grouping never
//! change the result, and that the canonical text of a formula built of
//! AND, OR and single-letter variables parses back to that formula.

use vstd::prelude::*;

use crate::expression::spec_render;
use crate::expression::SpecExpr;
use crate::parser::at_least;
use crate::parser::is_variable_char;
use crate::parser::is_whitespace_char;
use crate::parser::spec_and;
use crate::parser::spec_and_rest;
use crate::parser::spec_classify;
use crate::parser::spec_implies;
use crate::parser::spec_implies_rest;
use crate::parser::spec_not;
use crate::parser::spec_or;
use crate::parser::spec_or_rest;
use crate::parser::spec_parse;
use crate::parser::spec_primary;
use crate::parser::spec_tokenize;
use crate::parser::tokens_left;
use crate::parser::with_tokens_before;
use crate::parser::Token;

verus! {

/// Law: the text of one variable letter parses to that variable's node.
pub proof fn single_letter_parses_to_var(c: char)
    requires
        is_variable_char(c),
    ensures
        spec_parse(seq![c]) == Some(SpecExpr::Var(seq![c])),
{
    let s = seq![c];
    assert(s.drop_first() =~= Seq::<char>::empty());
    assert(spec_tokenize(s.drop_first()) == Some(Seq::<Token>::empty()));
    let toks = seq![Token::Variable(c)];
    assert(seq![Token::Variable(c)] + Seq::<Token>::empty() =~= toks);
    assert(spec_tokenize(s) == Some(toks));
}

/// Law: whitespace is never significant. Inserting a whitespace character
/// anywhere in a text leaves the parse of the whole text unchanged.
pub proof fn whitespace_is_insignificant(before: Seq<char>, w: char, after: Seq<char>)
    requires
        is_whitespace_char(w),
    ensures
        spec_parse(before + seq![w] + after) == spec_parse(before + after),
{
    lemma_tokenize_drops_whitespace(before, w, after);
}

/// The token sequence of a text is unchanged by an inserted whitespace
/// character.
proof fn lemma_tokenize_drops_whitespace(before: Seq<char>, w: char, after: Seq<char>)
    requires
        is_whitespace_char(w),
    ensures
        spec_tokenize(before + seq![w] + after) == spec_tokenize(before + after),
    decreases before.len(),
{
    if before.len() == 0 {
        assert(before + seq![w] + after =~= seq![w] + after);
        assert(before + after =~= after);
        assert((seq![w] + after).drop_first() =~= after);
    } else {
        let with_ws = before + seq![w] + after;
        let without = before + after;
        assert(with_ws[0] == before[0]);
        assert(without[0] == before[0]);
        assert(with_ws.drop_first() =~= before.drop_first() + seq![w] + after);
        assert(without.drop_first() =~= before.drop_first() + after);
        lemma_tokenize_drops_whitespace(before.drop_first(), w, after);
    }
}

/// Splitting a text splits its token sequence: `a + b` tokenizes to the
/// tokens of `a` followed by the tokens of `b`, and fails exactly when
/// one of the parts fails.
proof fn lemma_tokenize_concat(a: Seq<char>, b: Seq<char>)
    ensures
        spec_tokenize(a + b) == (match spec_tokenize(a) {
            None => None::<Seq<Token>>,
            Some(ta) => with_tokens_before(ta, spec_tokenize(b)),
        }),
    decreases a.len(),
{
    if a.len() == 0 {
        assert(a + b =~= b);
        match spec_tokenize(b) {
            None => {},
            Some(tb) => {
                assert(Seq::<Token>::empty() + tb =~= tb);
            },
        }
    } else {
        assert((a + b)[0] == a[0]);
        assert((a + b).drop_first() =~= a.drop_first() + b);
        lemma_tokenize_concat(a.drop_first(), b);
        if !is_whitespace_char(a[0]) {
            match spec_classify(a[0]) {
                None => {},
                Some(t) => {
                    match spec_tokenize(a.drop_first()) {
                        None => {},
                        Some(ta1) => {
                            match spec_tokenize(b) {
                                None => {},
                                Some(tb) => {
                                    assert(seq![t] + (ta1 + tb) =~= (seq![t] + ta1) + tb);
                                },
                            }
                        },
                    }
                },
            }
        }
    }
}

/// Whether the canonical text of `e` is itself parseable: only AND, OR
/// and single-letter variables. Rendered NOT and IMPLIES are spelled `~`
/// and `->`, which the grammar does not read back.
pub open spec fn renders_parseably(e: SpecExpr) -> bool
    decreases e,
{
    match e {
        SpecExpr::And(l, r) => renders_parseably(*l) && renders_parseably(*r),
        SpecExpr::Or(l, r) => renders_parseably(*l) && renders_parseably(*r),
        SpecExpr::Implies(_, _) => false,
        SpecExpr::Not(_) => false,
        SpecExpr::Var(name) => name.len() == 1 && is_variable_char(name[0]),
    }
}

/// How many tokens the canonical text of `e` has.
spec fn canonical_len(e: SpecExpr) -> nat
    decreases e,
{
    match e {
        SpecExpr::And(l, r) => canonical_len(*l) + canonical_len(*r) + 3,
        SpecExpr::Or(l, r) => canonical_len(*l) + canonical_len(*r) + 3,
        SpecExpr::Var(_) => 1,
        _ => 0,
    }
}

/// Whether the canonical tokens of `e` stand in `toks` beginning at `p`:
/// a variable as its one token; a conjunction or disjunction as
/// `( left op right )`, with each child's canonical tokens in place.
spec fn canonical_at(toks: Seq<Token>, p: nat, e: SpecExpr) -> bool
    decreases e,
{
    match e {
        SpecExpr::And(l, r) => {
            &&& p + canonical_len(e) <= toks.len()
            &&& toks[p as int] is OpenParen
            &&& canonical_at(toks, p + 1, *l)
            &&& toks[p as int + 1 + canonical_len(*l)] == Token::And
            &&& canonical_at(toks, p + 2 + canonical_len(*l), *r)
            &&& toks[p as int + 2 + canonical_len(*l) + canonical_len(*r)] is CloseParen
        },
        SpecExpr::Or(l, r) => {
            &&& p + canonical_len(e) <= toks.len()
            &&& toks[p as int] is OpenParen
            &&& canonical_at(toks, p + 1, *l)
            &&& toks[p as int + 1 + canonical_len(*l)] == Token::Or
            &&& canonical_at(toks, p + 2 + canonical_len(*l), *r)
            &&& toks[p as int + 2 + canonical_len(*l) + canonical_len(*r)] is CloseParen
        },
        SpecExpr::Var(name) => {
            &&& p + 1 <= toks.len()
            &&& toks[p as int] == Token::Variable(name[0])
        },
        _ => false,
    }
}

/// Canonical tokens read the same wherever they stand: if they stand in
/// `src` at `sp` and `dst` repeats them at `dp`, they stand in `dst` too.
proof fn lemma_canonical_at_shift(src: Seq<Token>, sp: nat, dst: Seq<Token>, dp: nat, e: SpecExpr)
    requires
        canonical_at(src, sp, e),
        dp + canonical_len(e) <= dst.len(),
        forall|j: int| dp <= j < dp + canonical_len(e) ==> dst[j] == src[j - dp + sp],
    ensures
        canonical_at(dst, dp, e),
    decreases e,
{
    match e {
        SpecExpr::And(l, r) => {
            let nl = canonical_len(*l);
            let nr = canonical_len(*r);
            assert(dst[dp as int] == src[sp as int]);
            assert forall|j: int| dp + 1 <= j < dp + 1 + nl implies dst[j] == src[
                j - (dp + 1) + (sp + 1)
            ] by {
                assert(dst[j] == src[j - dp + sp]);
            }
            lemma_canonical_at_shift(src, sp + 1, dst, dp + 1, *l);
            assert(dst[dp as int + 1 + nl] == src[sp as int + 1 + nl]);
            assert forall|j: int| dp + 2 + nl <= j < dp + 2 + nl + nr implies dst[j] == src[
                j - (dp + 2 + nl) + (sp + 2 + nl)
            ] by {
                assert(dst[j] == src[j - dp + sp]);
            }
            lemma_canonical_at_shift(src, sp + 2 + nl, dst, dp + 2 + nl, *r);
            assert(dst[dp as int + 2 + nl + nr] == src[sp as int + 2 + nl + nr]);
        },
        SpecExpr::Or(l, r) => {
            let nl = canonical_len(*l);
            let nr = canonical_len(*r);
            assert(dst[dp as int] == src[sp as int]);
            assert forall|j: int| dp + 1 <= j < dp + 1 + nl implies dst[j] == src[
                j - (dp + 1) + (sp + 1)
            ] by {
                assert(dst[j] == src[j - dp + sp]);
            }
            lemma_canonical_at_shift(src, sp + 1, dst, dp + 1, *l);
            assert(dst[dp as int + 1 + nl] == src[sp as int + 1 + nl]);
            assert forall|j: int| dp + 2 + nl <= j < dp + 2 + nl + nr implies dst[j] == src[
                j - (dp + 2 + nl) + (sp + 2 + nl)
            ] by {
                assert(dst[j] == src[j - dp + sp]);
            }
            lemma_canonical_at_shift(src, sp + 2 + nl, dst, dp + 2 + nl, *r);
            assert(dst[dp as int + 2 + nl + nr] == src[sp as int + 2 + nl + nr]);
        },
        SpecExpr::Var(_) => {
            assert(dst[dp as int] == src[sp as int]);
        },
        _ => {},
    }
}

/// A single operator character, with one space on each side, tokenizes to
/// its one token.
proof fn lemma_tokenize_spaced(c: char)
    requires
        !is_whitespace_char(c),
        spec_classify(c) is Some,
    ensures
        spec_tokenize(seq![' ', c, ' ']) == Some(seq![spec_classify(c).unwrap()]),
{
    reveal_with_fuel(spec_tokenize, 4);
    let t = spec_classify(c).unwrap();
    assert(seq![' ', c, ' '].drop_first() =~= seq![c, ' ']);
    assert(seq![c, ' '].drop_first() =~= seq![' ']);
    assert(seq![' '].drop_first() =~= Seq::<char>::empty());
    assert(spec_tokenize(seq![' ']) == Some(Seq::<Token>::empty()));
    assert(spec_tokenize(seq![c, ' ']) == Some(seq![t] + Seq::<Token>::empty()));
    assert(seq![t] + Seq::<Token>::empty() =~= seq![t]);
}

/// A single non-whitespace character tokenizes to its one token.
proof fn lemma_tokenize_single(c: char)
    requires
        !is_whitespace_char(c),
        spec_classify(c) is Some,
    ensures
        spec_tokenize(seq![c]) == Some(seq![spec_classify(c).unwrap()]),
{
    reveal_with_fuel(spec_tokenize, 2);
    let t = spec_classify(c).unwrap();
    assert(seq![c].drop_first() =~= Seq::<char>::empty());
    assert(seq![t] + Seq::<Token>::empty() =~= seq![t]);
}

/// The canonical text of a parseable expression tokenizes, to exactly
/// `canonical_len(e)` tokens, and they are its canonical tokens.
proof fn lemma_tokenize_canonical(e: SpecExpr)
    requires
        renders_parseably(e),
    ensures
        spec_tokenize(spec_render(e)) is Some,
        spec_tokenize(spec_render(e)).unwrap().len() == canonical_len(e),
        canonical_at(spec_tokenize(spec_render(e)).unwrap(), 0, e),
    decreases e,
{
    match e {
        SpecExpr::And(l, r) => {
            lemma_tokenize_canonical(*l);
            lemma_tokenize_canonical(*r);
            lemma_tokenize_single('(');
            lemma_tokenize_single(')');
            lemma_tokenize_spaced('&');
            lemma_tokenize_concat(seq!['('], spec_render(*l));
            lemma_tokenize_concat(seq!['('] + spec_render(*l), seq![' ', '&', ' ']);
            lemma_tokenize_concat(
                seq!['('] + spec_render(*l) + seq![' ', '&', ' '],
                spec_render(*r),
            );
            lemma_tokenize_concat(
                seq!['('] + spec_render(*l) + seq![' ', '&', ' '] + spec_render(*r),
                seq![')'],
            );
            let tl = spec_tokenize(spec_render(*l)).unwrap();
            let tr = spec_tokenize(spec_render(*r)).unwrap();
            let nl = canonical_len(*l);
            let nr = canonical_len(*r);
            let s1 = seq![Token::OpenParen] + tl;
            let s2 = s1 + seq![Token::And];
            let s3 = s2 + tr;
            let full = s3 + seq![Token::CloseParen];
            assert(spec_tokenize(spec_render(e)) == Some(full));
            assert(full.len() == canonical_len(e));
            assert(full[0] == Token::OpenParen) by {
                assert(s1[0] == Token::OpenParen);
                assert(s2[0] == s1[0]);
                assert(s3[0] == s2[0]);
                assert(full[0] == s3[0]);
            }
            assert forall|j: int| 1 <= j < 1 + nl implies full[j] == tl[j - 1 + 0] by {
                assert(s1[j] == tl[j - 1]);
                assert(s2[j] == s1[j]);
                assert(s3[j] == s2[j]);
                assert(full[j] == s3[j]);
            }
            lemma_canonical_at_shift(tl, 0, full, 1, *l);
            assert(full[1 + nl as int] == Token::And) by {
                assert(s2[s1.len() as int] == Token::And);
                assert(s3[s1.len() as int] == s2[s1.len() as int]);
                assert(full[s1.len() as int] == s3[s1.len() as int]);
            }
            assert forall|j: int| 2 + nl <= j < 2 + nl + nr implies full[j] == tr[
                j - (2 + nl) + 0
            ] by {
                assert(s3[j] == tr[j - s2.len()]);
                assert(full[j] == s3[j]);
            }
            lemma_canonical_at_shift(tr, 0, full, 2 + nl, *r);
            assert(full[2 + nl as int + nr as int] == Token::CloseParen) by {
                assert(full[s3.len() as int] == Token::CloseParen);
            }
            assert(canonical_at(full, 0, e));
        },
        SpecExpr::Or(l, r) => {
            lemma_tokenize_canonical(*l);
            lemma_tokenize_canonical(*r);
            lemma_tokenize_single('(');
            lemma_tokenize_single(')');
            lemma_tokenize_spaced('v');
            lemma_tokenize_concat(seq!['('], spec_render(*l));
            lemma_tokenize_concat(seq!['('] + spec_render(*l), seq![' ', 'v', ' ']);
            lemma_tokenize_concat(
                seq!['('] + spec_render(*l) + seq![' ', 'v', ' '],
                spec_render(*r),
            );
            lemma_tokenize_concat(
                seq!['('] + spec_render(*l) + seq![' ', 'v', ' '] + spec_render(*r),
                seq![')'],
            );
            let tl = spec_tokenize(spec_render(*l)).unwrap();
            let tr = spec_tokenize(spec_render(*r)).unwrap();
            let nl = canonical_len(*l);
            let nr = canonical_len(*r);
            let s1 = seq![Token::OpenParen] + tl;
            let s2 = s1 + seq![Token::Or];
            let s3 = s2 + tr;
            let full = s3 + seq![Token::CloseParen];
            assert(spec_tokenize(spec_render(e)) == Some(full));
            assert(full.len() == canonical_len(e));
            assert(full[0] == Token::OpenParen) by {
                assert(s1[0] == Token::OpenParen);
                assert(s2[0] == s1[0]);
                assert(s3[0] == s2[0]);
                assert(full[0] == s3[0]);
            }
            assert forall|j: int| 1 <= j < 1 + nl implies full[j] == tl[j - 1 + 0] by {
                assert(s1[j] == tl[j - 1]);
                assert(s2[j] == s1[j]);
                assert(s3[j] == s2[j]);
                assert(full[j] == s3[j]);
            }
            lemma_canonical_at_shift(tl, 0, full, 1, *l);
            assert(full[1 + nl as int] == Token::Or) by {
                assert(s2[s1.len() as int] == Token::Or);
                assert(s3[s1.len() as int] == s2[s1.len() as int]);
                assert(full[s1.len() as int] == s3[s1.len() as int]);
            }
            assert forall|j: int| 2 + nl <= j < 2 + nl + nr implies full[j] == tr[
                j - (2 + nl) + 0
            ] by {
                assert(s3[j] == tr[j - s2.len()]);
                assert(full[j] == s3[j]);
            }
            lemma_canonical_at_shift(tr, 0, full, 2 + nl, *r);
            assert(full[2 + nl as int + nr as int] == Token::CloseParen) by {
                assert(full[s3.len() as int] == Token::CloseParen);
            }
            assert(canonical_at(full, 0, e));
        },
        SpecExpr::Var(name) => {
            lemma_tokenize_single(name[0]);
            assert(spec_render(e) =~= seq![name[0]]);
            assert(spec_tokenize(spec_render(e)) == Some(seq![Token::Variable(name[0])]));
        },
        _ => {},
    }
}

/// At `q` the token sequence either ends or closes a group: nothing
/// there can extend a chain of binary operators.
spec fn group_closes_at(toks: Seq<Token>, q: nat) -> bool {
    q == toks.len() || (q < toks.len() && toks[q as int] is CloseParen)
}

/// How many tokens stand between the outer parentheses of the canonical
/// text of a conjunction or disjunction; one for a variable.
spec fn body_len(e: SpecExpr) -> nat {
    match e {
        SpecExpr::And(l, r) => canonical_len(*l) + canonical_len(*r) + 1,
        SpecExpr::Or(l, r) => canonical_len(*l) + canonical_len(*r) + 1,
        SpecExpr::Var(_) => 1,
        _ => 0,
    }
}

/// Whether the tokens between the outer parentheses of the canonical text
/// of `e` stand in `toks` beginning at `b`.
spec fn body_at(toks: Seq<Token>, b: nat, e: SpecExpr) -> bool {
    match e {
        SpecExpr::And(l, r) => {
            &&& b + body_len(e) <= toks.len()
            &&& canonical_at(toks, b, *l)
            &&& toks[b as int + canonical_len(*l)] == Token::And
            &&& canonical_at(toks, b + 1 + canonical_len(*l), *r)
        },
        SpecExpr::Or(l, r) => {
            &&& b + body_len(e) <= toks.len()
            &&& canonical_at(toks, b, *l)
            &&& toks[b as int + canonical_len(*l)] == Token::Or
            &&& canonical_at(toks, b + 1 + canonical_len(*l), *r)
        },
        SpecExpr::Var(_) => canonical_at(toks, b, e),
        _ => false,
    }
}

/// Canonical tokens start with a variable or an opening parenthesis, and
/// are never empty.
proof fn lemma_canonical_first_token(toks: Seq<Token>, p: nat, e: SpecExpr)
    requires
        renders_parseably(e),
        canonical_at(toks, p, e),
    ensures
        canonical_len(e) >= 1,
        p < toks.len(),
        toks[p as int] is Variable || toks[p as int] is OpenParen,
{
    match e {
        SpecExpr::And(_, _) => {},
        SpecExpr::Or(_, _) => {},
        SpecExpr::Var(_) => {},
        _ => {},
    }
}

/// Parsing a primary at the start of the canonical tokens of `e`
/// consumes exactly them and yields exactly `e`.
proof fn lemma_primary_parses_canonical(toks: Seq<Token>, p: nat, e: SpecExpr)
    requires
        renders_parseably(e),
        canonical_at(toks, p, e),
    ensures
        spec_primary(toks, p) == Some((e, (p + canonical_len(e)) as nat)),
    decreases e, 1int,
{
    match e {
        SpecExpr::Var(name) => {
            assert(seq![name[0]] =~= name);
        },
        SpecExpr::And(l, r) => {
            assert(body_at(toks, p + 1, e));
            assert(group_closes_at(toks, (p + 1 + body_len(e)) as nat));
            lemma_chain_parses_body(toks, (p + 1) as nat, e);
            let q = (p + 1 + body_len(e)) as nat;
            assert(toks[q as int] is CloseParen);
            assert(spec_primary(toks, p) == Some((e, (q + 1) as nat)));
        },
        SpecExpr::Or(l, r) => {
            assert(body_at(toks, p + 1, e));
            assert(group_closes_at(toks, (p + 1 + body_len(e)) as nat));
            lemma_chain_parses_body(toks, (p + 1) as nat, e);
            let q = (p + 1 + body_len(e)) as nat;
            assert(toks[q as int] is CloseParen);
            assert(spec_primary(toks, p) == Some((e, (q + 1) as nat)));
        },
        _ => {},
    }
}

/// Parsing at the start of a canonical body whose end closes a group (or
/// ends the input) consumes exactly that body and yields exactly that
/// expression, through every precedence level.
proof fn lemma_chain_parses_body(toks: Seq<Token>, b: nat, e: SpecExpr)
    requires
        renders_parseably(e),
        body_at(toks, b, e),
        group_closes_at(toks, (b + body_len(e)) as nat),
    ensures
        spec_implies(toks, b) == Some((e, (b + body_len(e)) as nat)),
    decreases e, 0int,
{
    let q = (b + body_len(e)) as nat;
    match e {
        SpecExpr::Var(name) => {
            assert(seq![name[0]] =~= name);
            assert(spec_primary(toks, b) == Some((e, q)));
            assert(spec_not(toks, b) == Some((e, q)));
            assert(at_least(b + 1, q) == q);
            assert(spec_and_rest(toks, q, e) == Some((e, q)));
            assert(spec_and(toks, b) == Some((e, q)));
            assert(spec_or_rest(toks, q, e) == Some((e, q)));
            assert(spec_or(toks, b) == Some((e, q)));
            assert(spec_implies_rest(toks, q, e) == Some((e, q)));
            assert(spec_implies(toks, b) == Some((e, q)));
        },
        SpecExpr::And(l, r) => {
            let nl = canonical_len(*l);
            let pl = (b + nl) as nat;
            lemma_canonical_first_token(toks, b, *l);
            lemma_primary_parses_canonical(toks, b, *l);
            assert(spec_not(toks, b) == Some((*l, pl)));
            assert(toks[pl as int] == Token::And);
            lemma_canonical_first_token(toks, (pl + 1) as nat, *r);
            lemma_primary_parses_canonical(toks, (pl + 1) as nat, *r);
            assert(spec_not(toks, (pl + 1) as nat) == Some((*r, q)));
            let both = SpecExpr::And(Box::new(*l), Box::new(*r));
            assert(both == e);
            assert(at_least(pl + 2, q) == q);
            assert(spec_and_rest(toks, q, both) == Some((both, q)));
            assert(spec_and_rest(toks, pl, *l) == Some((e, q)));
            assert(at_least(b + 1, pl) == pl);
            assert(spec_and(toks, b) == Some((e, q)));
            assert(at_least(b + 1, q) == q);
            assert(spec_or_rest(toks, q, e) == Some((e, q)));
            assert(spec_or(toks, b) == Some((e, q)));
            assert(spec_implies_rest(toks, q, e) == Some((e, q)));
            assert(spec_implies(toks, b) == Some((e, q)));
        },
        SpecExpr::Or(l, r) => {
            let nl = canonical_len(*l);
            let pl = (b + nl) as nat;
            lemma_canonical_first_token(toks, b, *l);
            lemma_primary_parses_canonical(toks, b, *l);
            assert(spec_not(toks, b) == Some((*l, pl)));
            assert(toks[pl as int] == Token::Or);
            lemma_canonical_first_token(toks, (pl + 1) as nat, *r);
            lemma_primary_parses_canonical(toks, (pl + 1) as nat, *r);
            assert(spec_not(toks, (pl + 1) as nat) == Some((*r, q)));
            // the and-level passes `l` through: the token at `pl` is OR
            assert(spec_and_rest(toks, pl, *l) == Some((*l, pl)));
            assert(at_least(b + 1, pl) == pl);
            assert(spec_and(toks, b) == Some((*l, pl)));
            // the right operand, parsed at the and-level, stops at `q`
            assert(at_least(pl + 2, q) == q);
            assert(spec_and_rest(toks, q, *r) == Some((*r, q)));
            assert(spec_and(toks, (pl + 1) as nat) == Some((*r, q)));
            let both = SpecExpr::Or(Box::new(*l), Box::new(*r));
            assert(both == e);
            assert(spec_or_rest(toks, q, both) == Some((both, q)));
            assert(spec_or_rest(toks, pl, *l) == Some((e, q)));
            assert(spec_or(toks, b) == Some((e, q)));
            assert(at_least(b + 1, q) == q);
            assert(spec_implies_rest(toks, q, e) == Some((e, q)));
            assert(spec_implies(toks, b) == Some((e, q)));
        },
        _ => {},
    }
}

/// Law: round trip. The canonical text of a formula built of AND, OR and
/// single-letter variables parses back to that very formula. This is as
/// wide as the round trip goes: canonical NOT and IMPLIES are spelled `~`
/// and `->`, which the grammar does not read back, so the canonical text
/// of `Not(Var A)`, namely `~A`, does not parse at all.
pub proof fn rendering_then_parsing_is_identity(e: SpecExpr)
    requires
        renders_parseably(e),
    ensures
        spec_parse(spec_render(e)) == Some(e),
{
    lemma_tokenize_canonical(e);
    let toks = spec_tokenize(spec_render(e)).unwrap();
    let n = toks.len() as nat;
    lemma_canonical_first_token(toks, 0, e);
    lemma_primary_parses_canonical(toks, 0, e);
    assert(spec_not(toks, 0) == Some((e, n)));
    assert(at_least(1, n) == n);
    assert(spec_and_rest(toks, n, e) == Some((e, n)));
    assert(spec_and(toks, 0) == Some((e, n)));
    assert(spec_or_rest(toks, n, e) == Some((e, n)));
    assert(spec_or(toks, 0) == Some((e, n)));
    assert(spec_implies_rest(toks, n, e) == Some((e, n)));
    assert(spec_implies(toks, 0) == Some((e, n)));
}

/// The hypotheses under which a parse carries over from `toks` to a
/// longer sequence `toks2` that repeats it at offset `d`: every token of
/// `toks` reappears, and where `toks` ends, `toks2` closes a group or
/// ends, so no chain of binary operators reaches further.
spec fn carries_over(toks: Seq<Token>, toks2: Seq<Token>, d: nat) -> bool {
    &&& d + toks.len() <= toks2.len()
    &&& (forall|j: int| 0 <= j < toks.len() ==> toks2[d + j] == #[trigger] toks[j])
    &&& group_closes_at(toks2, (d + toks.len()) as nat)
}

/// A successful primary parse carries over, shifted by `d`.
proof fn shift_primary(toks: Seq<Token>, toks2: Seq<Token>, d: nat, pos: nat)
    requires
        pos <= toks.len(),
        spec_primary(toks, pos) is Some,
        carries_over(toks, toks2, d),
    ensures
        ({
            let (v, q) = spec_primary(toks, pos).unwrap();
            &&& pos < q <= toks.len()
            &&& spec_primary(toks2, (d + pos) as nat) == Some((v, (d + q) as nat))
        }),
    decreases tokens_left(toks, pos), 0int,
{
    assert(toks2[d as int + pos] == toks[pos as int]);
    match toks[pos as int] {
        Token::Variable(c) => {},
        Token::OpenParen => {
            shift_implies(toks, toks2, d, (pos + 1) as nat);
            let (e, q) = spec_implies(toks, (pos + 1) as nat).unwrap();
            assert(toks2[d as int + q] == toks[q as int]);
        },
        _ => {},
    }
}

/// A successful negation parse carries over, shifted by `d`.
proof fn shift_not(toks: Seq<Token>, toks2: Seq<Token>, d: nat, pos: nat)
    requires
        pos <= toks.len(),
        spec_not(toks, pos) is Some,
        carries_over(toks, toks2, d),
    ensures
        ({
            let (v, q) = spec_not(toks, pos).unwrap();
            &&& pos < q <= toks.len()
            &&& spec_not(toks2, (d + pos) as nat) == Some((v, (d + q) as nat))
        }),
    decreases tokens_left(toks, pos), 1int,
{
    if pos < toks.len() && toks[pos as int] is Not {
        assert(toks2[d as int + pos] == toks[pos as int]);
        shift_not(toks, toks2, d, (pos + 1) as nat);
    } else {
        if pos < toks.len() {
            assert(toks2[d as int + pos] == toks[pos as int]);
        }
        shift_primary(toks, toks2, d, pos);
    }
}

/// A successful conjunction-tail parse carries over, shifted by `d`.
proof fn shift_and_rest(toks: Seq<Token>, toks2: Seq<Token>, d: nat, pos: nat, acc: SpecExpr)
    requires
        pos <= toks.len(),
        spec_and_rest(toks, pos, acc) is Some,
        carries_over(toks, toks2, d),
    ensures
        ({
            let (v, q) = spec_and_rest(toks, pos, acc).unwrap();
            &&& pos <= q <= toks.len()
            &&& spec_and_rest(toks2, (d + pos) as nat, acc) == Some((v, (d + q) as nat))
        }),
    decreases tokens_left(toks, pos), 2int,
{
    if pos < toks.len() && toks[pos as int] is And {
        assert(toks2[d as int + pos] == toks[pos as int]);
        shift_not(toks, toks2, d, (pos + 1) as nat);
        let (r, q2) = spec_not(toks, (pos + 1) as nat).unwrap();
        assert(at_least(pos + 2, q2) == q2);
        assert(at_least(d + pos + 2, (d + q2) as nat) == d + q2);
        shift_and_rest(toks, toks2, d, q2, SpecExpr::And(Box::new(acc), Box::new(r)));
    } else {
        if pos < toks.len() {
            assert(toks2[d as int + pos] == toks[pos as int]);
        }
    }
}

/// A successful conjunction parse carries over, shifted by `d`.
proof fn shift_and(toks: Seq<Token>, toks2: Seq<Token>, d: nat, pos: nat)
    requires
        pos <= toks.len(),
        spec_and(toks, pos) is Some,
        carries_over(toks, toks2, d),
    ensures
        ({
            let (v, q) = spec_and(toks, pos).unwrap();
            &&& pos < q <= toks.len()
            &&& spec_and(toks2, (d + pos) as nat) == Some((v, (d + q) as nat))
        }),
    decreases tokens_left(toks, pos), 3int,
{
    shift_not(toks, toks2, d, pos);
    let (l, q) = spec_not(toks, pos).unwrap();
    assert(at_least(pos + 1, q) == q);
    assert(at_least(d + pos + 1, (d + q) as nat) == d + q);
    shift_and_rest(toks, toks2, d, q, l);
}

/// A successful disjunction-tail parse carries over, shifted by `d`.
proof fn shift_or_rest(toks: Seq<Token>, toks2: Seq<Token>, d: nat, pos: nat, acc: SpecExpr)
    requires
        pos <= toks.len(),
        spec_or_rest(toks, pos, acc) is Some,
        carries_over(toks, toks2, d),
    ensures
        ({
            let (v, q) = spec_or_rest(toks, pos, acc).unwrap();
            &&& pos <= q <= toks.len()
            &&& spec_or_rest(toks2, (d + pos) as nat, acc) == Some((v, (d + q) as nat))
        }),
    decreases tokens_left(toks, pos), 4int,
{
    if pos < toks.len() && toks[pos as int] is Or {
        assert(toks2[d as int + pos] == toks[pos as int]);
        shift_and(toks, toks2, d, (pos + 1) as nat);
        let (r, q2) = spec_and(toks, (pos + 1) as nat).unwrap();
        assert(at_least(pos + 2, q2) == q2);
        assert(at_least(d + pos + 2, (d + q2) as nat) == d + q2);
        shift_or_rest(toks, toks2, d, q2, SpecExpr::Or(Box::new(acc), Box::new(r)));
    } else {
        if pos < toks.len() {
            assert(toks2[d as int + pos] == toks[pos as int]);
        }
    }
}

/// A successful disjunction parse carries over, shifted by `d`.
proof fn shift_or(toks: Seq<Token>, toks2: Seq<Token>, d: nat, pos: nat)
    requires
        pos <= toks.len(),
        spec_or(toks, pos) is Some,
        carries_over(toks, toks2, d),
    ensures
        ({
            let (v, q) = spec_or(toks, pos).unwrap();
            &&& pos < q <= toks.len()
            &&& spec_or(toks2, (d + pos) as nat) == Some((v, (d + q) as nat))
        }),
    decreases tokens_left(toks, pos), 5int,
{
    shift_and(toks, toks2, d, pos);
    let (l, q) = spec_and(toks, pos).unwrap();
    assert(at_least(pos + 1, q) == q);
    assert(at_least(d + pos + 1, (d + q) as nat) == d + q);
    shift_or_rest(toks, toks2, d, q, l);
}

/// A successful implication-tail parse carries over, shifted by `d`.
proof fn shift_implies_rest(toks: Seq<Token>, toks2: Seq<Token>, d: nat, pos: nat, acc: SpecExpr)
    requires
        pos <= toks.len(),
        spec_implies_rest(toks, pos, acc) is Some,
        carries_over(toks, toks2, d),
    ensures
        ({
            let (v, q) = spec_implies_rest(toks, pos, acc).unwrap();
            &&& pos <= q <= toks.len()
            &&& spec_implies_rest(toks2, (d + pos) as nat, acc) == Some((v, (d + q) as nat))
        }),
    decreases tokens_left(toks, pos), 6int,
{
    if pos < toks.len() && toks[pos as int] is Implies {
        assert(toks2[d as int + pos] == toks[pos as int]);
        shift_or(toks, toks2, d, (pos + 1) as nat);
        let (r, q2) = spec_or(toks, (pos + 1) as nat).unwrap();
        assert(at_least(pos + 2, q2) == q2);
        assert(at_least(d + pos + 2, (d + q2) as nat) == d + q2);
        shift_implies_rest(toks, toks2, d, q2, SpecExpr::Implies(Box::new(acc), Box::new(r)));
    } else {
        if pos < toks.len() {
            assert(toks2[d as int + pos] == toks[pos as int]);
        }
    }
}

/// A successful whole-formula parse carries over, shifted by `d`.
proof fn shift_implies(toks: Seq<Token>, toks2: Seq<Token>, d: nat, pos: nat)
    requires
        pos <= toks.len(),
        spec_implies(toks, pos) is Some,
        carries_over(toks, toks2, d),
    ensures
        ({
            let (v, q) = spec_implies(toks, pos).unwrap();
            &&& pos < q <= toks.len()
            &&& spec_implies(toks2, (d + pos) as nat) == Some((v, (d + q) as nat))
        }),
    decreases tokens_left(toks, pos), 7int,
{
    shift_or(toks, toks2, d, pos);
    let (l, q) = spec_or(toks, pos).unwrap();
    assert(at_least(pos + 1, q) == q);
    assert(at_least(d + pos + 1, (d + q) as nat) == d + q);
    shift_implies_rest(toks, toks2, d, q, l);
}

/// Law: redundant grouping is never significant. Wrapping a text that
/// parses in one more pair of parentheses leaves its parse unchanged;
/// applied repeatedly, nesting of any depth is transparent.
pub proof fn redundant_grouping_is_insignificant(s: Seq<char>, e: SpecExpr)
    requires
        spec_parse(s) == Some(e),
    ensures
        spec_parse(seq!['('] + s + seq![')']) == Some(e),
{
    lemma_tokenize_single('(');
    lemma_tokenize_single(')');
    lemma_tokenize_concat(seq!['('], s);
    lemma_tokenize_concat(seq!['('] + s, seq![')']);
    let ts = spec_tokenize(s).unwrap();
    let s1 = seq![Token::OpenParen] + ts;
    let toks2 = s1 + seq![Token::CloseParen];
    assert(spec_tokenize(seq!['('] + s + seq![')']) == Some(toks2));
    let n = ts.len() as nat;
    assert(spec_implies(ts, 0) is Some);
    let (v, q) = spec_implies(ts, 0).unwrap();
    assert(v == e && q == n);
    assert forall|j: int| 0 <= j < n implies toks2[1 + j] == ts[j] by {
        assert(s1[1 + j] == ts[j]);
        assert(toks2[1 + j] == s1[1 + j]);
    }
    assert(toks2[1 + n as int] == Token::CloseParen) by {
        assert(toks2[s1.len() as int] == Token::CloseParen);
    }
    assert(carries_over(ts, toks2, 1));
    shift_implies(ts, toks2, 1, 0);
    assert(spec_implies(toks2, 1) == Some((e, (1 + n) as nat)));
    // the whole wrapped text parses through one primary
    assert(toks2[0] == Token::OpenParen) by {
        assert(s1[0] == Token::OpenParen);
        assert(toks2[0] == s1[0]);
    }
    assert(spec_primary(toks2, 0) == Some((e, (n + 2) as nat)));
    assert(spec_not(toks2, 0) == Some((e, (n + 2) as nat)));
    let m = (n + 2) as nat;
    assert(at_least(1, m) == m);
    assert(spec_and_rest(toks2, m, e) == Some((e, m)));
    assert(spec_and(toks2, 0) == Some((e, m)));
    assert(spec_or_rest(toks2, m, e) == Some((e, m)));
    assert(spec_or(toks2, 0) == Some((e, m)));
    assert(spec_implies_rest(toks2, m, e) == Some((e, m)));
    assert(spec_implies(toks2, 0) == Some((e, m)));
    assert(m == toks2.len());
}

} // verus!
