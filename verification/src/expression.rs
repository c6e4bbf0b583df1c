//! The abstract syntax tree of a propositional-logic formula, its
//! mathematical model, and the operations on it: construction helpers,
//! canonical rendering, and sub-expression enumeration.

use std::rc::Rc;
use vstd::prelude::*;

verus! {

/// The mathematical model of a formula: a pure recursive tree.
/// Two expressions are the same formula exactly when their models are
/// equal, regardless of how their nodes are shared in memory.
#[verifier::ext_equal]
pub enum SpecExpr {
    And(Box<SpecExpr>, Box<SpecExpr>),
    Or(Box<SpecExpr>, Box<SpecExpr>),
    Implies(Box<SpecExpr>, Box<SpecExpr>),
    Not(Box<SpecExpr>),
    Var(Seq<char>),
}

/// A propositional-logic formula in abstract syntax tree form.
/// Sub-trees are reference-counted so that common sub-expressions can be
/// shared cheaply; sharing is an ownership optimization only, and every
/// contract speaks of the structural model (`@`), never of identity.
#[derive(Debug, PartialEq, Clone)]
pub enum Expression {
    /// Logical AND of two child expressions.
    And(Rc<Expression>, Rc<Expression>),
    /// Logical OR of two child expressions.
    Or(Rc<Expression>, Rc<Expression>),
    /// Logical IMPLIES; the left child is the antecedent.
    Implies(Rc<Expression>, Rc<Expression>),
    /// Logical NOT of a single child expression.
    Not(Rc<Expression>),
    /// A variable, named by its text.
    Var(String),
}

/// The model of an expression: the pure tree it stands for, with all
/// reference-counting forgotten.
pub open spec fn expr_model(e: Expression) -> SpecExpr
    decreases e,
{
    match e {
        Expression::And(l, r) => SpecExpr::And(Box::new(expr_model(*l)), Box::new(expr_model(*r))),
        Expression::Or(l, r) => SpecExpr::Or(Box::new(expr_model(*l)), Box::new(expr_model(*r))),
        Expression::Implies(l, r) => SpecExpr::Implies(
            Box::new(expr_model(*l)),
            Box::new(expr_model(*r)),
        ),
        Expression::Not(e) => SpecExpr::Not(Box::new(expr_model(*e))),
        Expression::Var(name) => SpecExpr::Var(name@),
    }
}

impl View for Expression {
    type V = SpecExpr;

    open spec fn view(&self) -> SpecExpr {
        expr_model(*self)
    }
}

/// Shorthand for a variable node.
pub fn var(name: &str) -> (r: Rc<Expression>)
    ensures
        r@ == SpecExpr::Var(name@),
{
    Rc::new(Expression::Var(name.to_owned()))
}

/// Shorthand for the negation of an existing expression.
pub fn not(expr: &Rc<Expression>) -> (r: Rc<Expression>)
    ensures
        r@ == SpecExpr::Not(Box::new(expr@)),
{
    Rc::new(Expression::Not(expr.clone()))
}

impl Expression {
    /// Moves this node behind a reference-counted pointer.
    pub fn wrap(self) -> (r: Rc<Expression>)
        ensures
            r@ == self@,
    {
        Rc::new(self)
    }

    /// Shorthand for the conjunction of two existing expressions.
    pub fn and(self: &Rc<Self>, other: &Rc<Self>) -> (r: Rc<Self>)
        ensures
            r@ == SpecExpr::And(Box::new(self@), Box::new(other@)),
    {
        Rc::new(Self::And(self.clone(), other.clone()))
    }

    /// Shorthand for the disjunction of two existing expressions.
    pub fn or(self: &Rc<Self>, other: &Rc<Self>) -> (r: Rc<Self>)
        ensures
            r@ == SpecExpr::Or(Box::new(self@), Box::new(other@)),
    {
        Rc::new(Self::Or(self.clone(), other.clone()))
    }

    /// Shorthand for the implication of two existing expressions.
    pub fn implies(self: &Rc<Self>, other: &Rc<Self>) -> (r: Rc<Self>)
        ensures
            r@ == SpecExpr::Implies(Box::new(self@), Box::new(other@)),
    {
        Rc::new(Self::Implies(self.clone(), other.clone()))
    }
}

/// The canonical text of a formula: binary operators fully parenthesized
/// and spelled `&`, `v`, `->`; negation spelled `~` with no extra
/// parentheses; a variable rendered as its bare name.
pub open spec fn spec_render(e: SpecExpr) -> Seq<char>
    decreases e,
{
    match e {
        SpecExpr::And(l, r) => seq!['('] + spec_render(*l) + seq![' ', '&', ' '] + spec_render(*r)
            + seq![')'],
        SpecExpr::Or(l, r) => seq!['('] + spec_render(*l) + seq![' ', 'v', ' '] + spec_render(*r)
            + seq![')'],
        SpecExpr::Implies(l, r) => seq!['('] + spec_render(*l) + seq![' ', '-', '>', ' ']
            + spec_render(*r) + seq![')'],
        SpecExpr::Not(x) => seq!['~'] + spec_render(*x),
        SpecExpr::Var(name) => name,
    }
}

/// The pre-order enumeration of a formula's nodes: the node itself, then
/// every node of the left child's enumeration, then the right child's.
pub open spec fn spec_subexpressions(e: SpecExpr) -> Seq<SpecExpr>
    decreases e,
{
    match e {
        SpecExpr::And(l, r) => seq![e] + spec_subexpressions(*l) + spec_subexpressions(*r),
        SpecExpr::Or(l, r) => seq![e] + spec_subexpressions(*l) + spec_subexpressions(*r),
        SpecExpr::Implies(l, r) => seq![e] + spec_subexpressions(*l) + spec_subexpressions(*r),
        SpecExpr::Not(x) => seq![e] + spec_subexpressions(*x),
        SpecExpr::Var(_) => seq![e],
    }
}

/// Collapses each run of adjacent equal entries to its first entry.
/// Equal entries separated by a different entry are both kept.
pub open spec fn dedup_adjacent(s: Seq<SpecExpr>) -> Seq<SpecExpr>
    decreases s.len(),
{
    if s.len() <= 1 {
        s
    } else {
        let rest = dedup_adjacent(s.drop_last());
        if s[s.len() - 2] == s[s.len() - 1] {
            rest
        } else {
            rest + seq![s.last()]
        }
    }
}

/// The models of every expression of a sequence, in order.
pub open spec fn models_of(s: Seq<Expression>) -> Seq<SpecExpr> {
    s.map_values(|e: Expression| expr_model(e))
}

/// Structural equality on expressions: whether the two stand for the same
/// formula, whatever the sharing of their nodes.
pub fn eq_expr(a: &Expression, b: &Expression) -> (r: bool)
    ensures
        r == (a@ == b@),
    decreases *a,
{
    match a {
        Expression::And(al, ar) => match b {
            Expression::And(bl, br) => eq_expr(al, bl) && eq_expr(ar, br),
            _ => false,
        },
        Expression::Or(al, ar) => match b {
            Expression::Or(bl, br) => eq_expr(al, bl) && eq_expr(ar, br),
            _ => false,
        },
        Expression::Implies(al, ar) => match b {
            Expression::Implies(bl, br) => eq_expr(al, bl) && eq_expr(ar, br),
            _ => false,
        },
        Expression::Not(ax) => match b {
            Expression::Not(bx) => eq_expr(ax, bx),
            _ => false,
        },
        Expression::Var(an) => match b {
            Expression::Var(bn) => an.eq(bn),
            _ => false,
        },
    }
}

/// Copies a node, sharing its children; the copy stands for the same
/// formula as the original.
fn clone_expr(e: &Expression) -> (r: Expression)
    ensures
        r@ == e@,
{
    match e {
        Expression::And(l, r) => Expression::And(l.clone(), r.clone()),
        Expression::Or(l, r) => Expression::Or(l.clone(), r.clone()),
        Expression::Implies(l, r) => Expression::Implies(l.clone(), r.clone()),
        Expression::Not(x) => Expression::Not(x.clone()),
        Expression::Var(n) => Expression::Var(n.clone()),
    }
}

impl Expression {
    /// Renders this expression in its canonical text.
    pub fn render(&self) -> (r: String)
        ensures
            r@ == spec_render(self@),
        decreases self,
    {
        match self {
            Expression::And(l, r) => {
                let mut s = String::new();
                s.append("(");
                s.append(l.render().as_str());
                s.append(" & ");
                s.append(r.render().as_str());
                s.append(")");
                proof {
                    reveal_strlit("(");
                    reveal_strlit(" & ");
                    reveal_strlit(")");
                    assert(s@ =~= spec_render(self@));
                }
                s
            },
            Expression::Or(l, r) => {
                let mut s = String::new();
                s.append("(");
                s.append(l.render().as_str());
                s.append(" v ");
                s.append(r.render().as_str());
                s.append(")");
                proof {
                    reveal_strlit("(");
                    reveal_strlit(" v ");
                    reveal_strlit(")");
                    assert(s@ =~= spec_render(self@));
                }
                s
            },
            Expression::Implies(l, r) => {
                let mut s = String::new();
                s.append("(");
                s.append(l.render().as_str());
                s.append(" -> ");
                s.append(r.render().as_str());
                s.append(")");
                proof {
                    reveal_strlit("(");
                    reveal_strlit(" -> ");
                    reveal_strlit(")");
                    assert(s@ =~= spec_render(self@));
                }
                s
            },
            Expression::Not(x) => {
                let mut s = String::new();
                s.append("~");
                s.append(x.render().as_str());
                proof {
                    reveal_strlit("~");
                    assert(s@ =~= spec_render(self@));
                }
                s
            },
            Expression::Var(name) => name.clone(),
        }
    }

    /// Appends this expression's pre-order enumeration to `out`.
    fn collect_subexpressions(&self, out: &mut Vec<Expression>)
        ensures
            models_of(final(out)@) == models_of(old(out)@) + spec_subexpressions(self@),
        decreases self,
    {
        out.push(clone_expr(self));
        match self {
            Expression::And(l, r) => {
                l.collect_subexpressions(out);
                r.collect_subexpressions(out);
            },
            Expression::Or(l, r) => {
                l.collect_subexpressions(out);
                r.collect_subexpressions(out);
            },
            Expression::Implies(l, r) => {
                l.collect_subexpressions(out);
                r.collect_subexpressions(out);
            },
            Expression::Not(x) => {
                x.collect_subexpressions(out);
            },
            Expression::Var(_) => {},
        }
        proof {
            assert(models_of(out@) =~= models_of(old(out)@) + spec_subexpressions(self@));
        }
    }

    /// Lists this expression and every descendant in pre-order, with runs
    /// of adjacent structurally equal entries collapsed to one entry.
    /// Equal entries that do not stand next to each other are all kept.
    pub fn list_expressions(&self) -> (r: Vec<Expression>)
        ensures
            models_of(r@) == dedup_adjacent(spec_subexpressions(self@)),
    {
        let mut all: Vec<Expression> = Vec::new();
        self.collect_subexpressions(&mut all);
        let mut out: Vec<Expression> = Vec::new();
        let mut i: usize = 0;
        while i < all.len()
            invariant
                i <= all@.len(),
                models_of(out@) == dedup_adjacent(models_of(all@.take(i as int))),
            decreases all@.len() - i,
        {
            if i == 0 || !eq_expr(&all[i - 1], &all[i]) {
                out.push(clone_expr(&all[i]));
            }
            proof {
                assert(models_of(all@.take(i + 1)).drop_last() =~= models_of(
                    all@.take(i as int),
                ));
                assert(models_of(out@) =~= dedup_adjacent(models_of(all@.take(i + 1))));
            }
            i = i + 1;
        }
        proof {
            assert(all@.take(all@.len() as int) =~= all@);
        }
        out
    }
}

} // verus!
