//! The simplification and evaluation engine.
//!
//! A term tree is reduced by folding every constant subtree into a single
//! number: chains accumulate their numeric children into a running total
//! (starting from the operation's identity), powers, negations and inverses
//! of numbers collapse to numbers. With a binding context supplied, free
//! variables are substituted first; meeting an unbound one aborts the whole
//! reduction with "no value" — a normal state, not an error. Without a
//! context, unknowns are simply left in place.
//!
//! The whole discipline is the spec function `reduce_v`; the executable
//! engine is proved to return exactly what it describes.

use vstd::prelude::*;

use crate::dec::{add_of, div_of, mul_of, pow_of, Dec};
use crate::dec::{dec_add, dec_div, dec_mul, dec_pow};
use crate::term::{
    lemma_terms_view_index, lemma_wf_terms_index, term_view, terms_view, wf_term, wf_terms,
    Commutative, Equation, EquationV, Term, TermV,
};

verus! {

broadcast use crate::term::lemma_terms_view_push, crate::term::lemma_terms_view_concat,
    crate::term::lemma_terms_view_drop_last, crate::term::lemma_terms_view_index,
    crate::term::lemma_wf_terms_index;

/// Everything that can go wrong while reducing or evaluating.
#[derive(Clone, Copy, PartialEq, Eq, Structural, Debug)]
pub enum EvalError {
    /// The equation has no right side to work with.
    InvalidEquation,
    /// The equation of a binding is not of the form `name = expression`.
    InvalidUnknownEquation,
    /// A power node still lacks its base: a parser invariant was broken.
    PowerMissingBase,
    /// A multiplicative inverse of the number zero.
    DivisionByZero,
    /// A decimal operation overflowed the representable range.
    Overflow,
    /// A top-level evaluation met a variable with no binding.
    UnresolvedVariable,
}

/// A binding context: variable names mapped to the terms bound to them. A
/// later binding of the same name shadows the earlier one.
pub struct Bindings {
    entries: Vec<(Vec<char>, Term)>,
}

/// The map a sequence of binding entries denotes.
pub open spec fn bindings_map(es: Seq<(Vec<char>, Term)>) -> Map<Seq<char>, TermV>
    decreases es,
{
    if es.len() == 0 {
        Map::empty()
    } else {
        bindings_map(es.drop_last()).insert(es.last().0@, term_view(es.last().1))
    }
}

impl View for Bindings {
    type V = Map<Seq<char>, TermV>;

    closed spec fn view(&self) -> Map<Seq<char>, TermV> {
        bindings_map(self.entries@)
    }
}

/// Every bound term is well formed.
pub open spec fn wf_bindings(m: Map<Seq<char>, TermV>) -> bool {
    forall|k: Seq<char>| m.contains_key(k) ==> wf_term(#[trigger] m[k])
}

/// Whether two character vectors hold the same characters.
fn chars_eq(a: &Vec<char>, b: &Vec<char>) -> (r: bool)
    ensures
        r == (a@ == b@),
{
    if a.len() != b.len() {
        proof {
            assert(a@ != b@);
        }
        return false;
    }
    let mut i: usize = 0;
    while i < a.len()
        invariant
            i <= a.len(),
            a@.len() == b@.len(),
            forall|j: int| 0 <= j < i as int ==> a@[j] == b@[j],
        decreases a.len() - i,
    {
        if a[i] != b[i] {
            return false;
        }
        i = i + 1;
    }
    proof {
        assert(a@ =~= b@);
    }
    true
}

impl Bindings {
    /// An empty context.
    pub fn new() -> (r: Bindings)
        ensures
            r@ == Map::<Seq<char>, TermV>::empty(),
            wf_bindings(r@),
    {
        Bindings { entries: Vec::new() }
    }

    /// Binds a name to a term; an earlier binding of the same name is
    /// shadowed.
    pub fn insert(&mut self, name: Vec<char>, term: Term)
        requires
            wf_bindings(old(self)@),
            wf_term(term@),
        ensures
            final(self)@ == old(self)@.insert(name@, term@),
            wf_bindings(final(self)@),
    {
        let ghost m0 = self@;
        let ghost k = name@;
        let ghost v = term@;
        self.entries.push((name, term));
        proof {
            assert(self.entries@.drop_last() =~= old(self).entries@);
            assert(self@ == m0.insert(k, v));
            assert forall|key: Seq<char>| self@.contains_key(key) implies wf_term(
                #[trigger] self@[key],
            ) by {
                if key != k {
                    assert(m0.contains_key(key));
                }
            }
        }
    }

    /// Forgets every binding.
    pub fn clear(&mut self)
        ensures
            final(self)@ == Map::<Seq<char>, TermV>::empty(),
            wf_bindings(final(self)@),
    {
        self.entries = Vec::new();
    }

    /// The term bound to a name, if any.
    pub fn get(&self, name: &Vec<char>) -> (r: Option<&Term>)
        ensures
            self@.contains_key(name@) ==> (r matches Some(t) && t@ == self@[name@]),
            !self@.contains_key(name@) ==> r is None,
    {
        let mut i: usize = self.entries.len();
        proof {
            assert(self.entries@.subrange(0, self.entries@.len() as int) =~= self.entries@);
        }
        while i > 0
            invariant
                i <= self.entries@.len(),
                self@.contains_key(name@) == bindings_map(
                    self.entries@.subrange(0, i as int),
                ).contains_key(name@),
                self@.contains_key(name@) ==> self@[name@] == bindings_map(
                    self.entries@.subrange(0, i as int),
                )[name@],
            decreases i,
        {
            proof {
                assert(self.entries@.subrange(0, i as int).drop_last() =~= self.entries@.subrange(
                    0,
                    i as int - 1,
                ));
                assert(self.entries@.subrange(0, i as int).last() == self.entries@[i as int - 1]);
            }
            if chars_eq(&self.entries[i - 1].0, name) {
                return Some(&self.entries[i - 1].1);
            }
            i = i - 1;
        }
        proof {
            assert(self.entries@.subrange(0, 0) =~= Seq::<(Vec<char>, Term)>::empty());
        }
        None
    }
}

/// The identity element of a chain's operation: zero for addition, one for
/// multiplication.
pub open spec fn identity_of(com: Commutative) -> Dec {
    match com {
        Commutative::Add => Dec { mantissa: 0, scale: 0 },
        Commutative::Multiply => Dec { mantissa: 1, scale: 0 },
    }
}

/// The running total after folding one more number into it.
pub open spec fn combine_of(com: Commutative, acc: Dec, n: Dec) -> Option<Dec> {
    match com {
        Commutative::Add => add_of(
            acc.mantissa as int,
            acc.scale as int,
            n.mantissa as int,
            n.scale as int,
        ),
        Commutative::Multiply => mul_of(
            acc.mantissa as int,
            acc.scale as int,
            n.mantissa as int,
            n.scale as int,
        ),
    }
}

/// One bounded pass over a chain's reduced children: numbers fold into the
/// accumulator in order, the rest keep their relative order.
pub open spec fn drain_v(com: Commutative, ts: Seq<TermV>, acc: Dec) -> Result<
    (Seq<TermV>, Dec),
    EvalError,
>
    decreases ts.len(),
{
    if ts.len() == 0 {
        Ok((Seq::empty(), acc))
    } else {
        let first = ts.first();
        if first is Number {
            match combine_of(com, acc, first->Number_0) {
                None => Err(EvalError::Overflow),
                Some(a2) => drain_v(com, ts.drop_first(), a2),
            }
        } else {
            match drain_v(com, ts.drop_first(), acc) {
                Err(e) => Err(e),
                Ok((kept, a2)) => Ok((seq![first] + kept, a2)),
            }
        }
    }
}

/// What reducing a term yields: the reduced term, or "no value" after an
/// unbound variable under a context, or an error.
pub open spec fn reduce_v(t: TermV, ctx: Option<Map<Seq<char>, TermV>>) -> Result<
    Option<TermV>,
    EvalError,
>
    decreases t,
{
    match t {
        TermV::Number(_) => Ok(Some(t)),
        TermV::Chain(com, ts) => match reduce_seq_v(ts, ctx) {
            Err(e) => Err(e),
            Ok(None) => Ok(None),
            Ok(Some(ts2)) => match drain_v(com, ts2, identity_of(com)) {
                Err(e) => Err(e),
                Ok((kept, acc)) => {
                    if kept.len() == 0 {
                        Ok(Some(TermV::Number(acc)))
                    } else if acc.mantissa != 0 {
                        Ok(Some(TermV::Chain(com, kept.push(TermV::Number(acc)))))
                    } else {
                        Ok(Some(TermV::Chain(com, kept)))
                    }
                },
            },
        },
        TermV::Power(base, exp) => match base {
            None => Err(EvalError::PowerMissingBase),
            Some(b) => match reduce_v(*b, ctx) {
                Err(e) => Err(e),
                Ok(None) => Ok(None),
                Ok(Some(b2)) => match reduce_v(*exp, ctx) {
                    Err(e) => Err(e),
                    Ok(None) => Ok(None),
                    Ok(Some(e2)) => {
                        if b2 is Number && e2 is Number {
                            match pow_of(
                                b2->Number_0.mantissa as int,
                                b2->Number_0.scale as int,
                                e2->Number_0.mantissa as int,
                                e2->Number_0.scale as int,
                            ) {
                                None => Err(EvalError::Overflow),
                                Some(d) => Ok(Some(TermV::Number(d))),
                            }
                        } else {
                            Ok(Some(TermV::Power(Some(Box::new(b2)), Box::new(e2))))
                        }
                    },
                },
            },
        },
        TermV::Opposite(b) => match reduce_v(*b, ctx) {
            Err(e) => Err(e),
            Ok(None) => Ok(None),
            Ok(Some(b2)) => {
                if b2 is Number {
                    let d = b2->Number_0;
                    Ok(
                        Some(
                            TermV::Number(
                                Dec { mantissa: (-(d.mantissa as int)) as i128, scale: d.scale },
                            ),
                        ),
                    )
                } else {
                    Ok(Some(TermV::Opposite(Box::new(b2))))
                }
            },
        },
        TermV::MulInverse(b) => match reduce_v(*b, ctx) {
            Err(e) => Err(e),
            Ok(None) => Ok(None),
            Ok(Some(b2)) => {
                if b2 is Number {
                    let d = b2->Number_0;
                    if d.mantissa == 0 {
                        Err(EvalError::DivisionByZero)
                    } else {
                        match div_of(1, 0, d.mantissa as int, d.scale as int) {
                            None => Err(EvalError::Overflow),
                            Some(q) => Ok(Some(TermV::Number(q))),
                        }
                    }
                } else {
                    Ok(Some(TermV::MulInverse(Box::new(b2))))
                }
            },
        },
        TermV::Unknown(name) => match ctx {
            None => Ok(Some(t)),
            Some(m) => {
                if m.contains_key(name) {
                    Ok(Some(m[name]))
                } else {
                    Ok(None)
                }
            },
        },
    }
}

/// The children of a chain, each reduced in order.
pub open spec fn reduce_seq_v(ts: Seq<TermV>, ctx: Option<Map<Seq<char>, TermV>>) -> Result<
    Option<Seq<TermV>>,
    EvalError,
>
    decreases ts,
{
    if ts.len() == 0 {
        Ok(Some(Seq::empty()))
    } else {
        match reduce_v(ts.first(), ctx) {
            Err(e) => Err(e),
            Ok(None) => Ok(None),
            Ok(Some(t2)) => match reduce_seq_v(ts.drop_first(), ctx) {
                Err(e) => Err(e),
                Ok(None) => Ok(None),
                Ok(Some(rest)) => Ok(Some(seq![t2] + rest)),
            },
        }
    }
}

/// Without a context the reduction never aborts: it hands back a term or an
/// error, and an unknown stays in place.
pub proof fn lemma_fold_only_returns(t: TermV)
    ensures
        !(reduce_v(t, None) matches Ok(r) && r is None),
    decreases t,
{
    match t {
        TermV::Chain(com, ts) => {
            lemma_fold_only_seq_returns(ts);
        },
        TermV::Power(base, exp) => {
            match base {
                Some(b) => {
                    lemma_fold_only_returns(*b);
                    lemma_fold_only_returns(*exp);
                },
                None => {},
            }
        },
        TermV::Opposite(b) => {
            lemma_fold_only_returns(*b);
        },
        TermV::MulInverse(b) => {
            lemma_fold_only_returns(*b);
        },
        _ => {},
    }
}

/// The sequence form of `lemma_fold_only_returns`.
pub proof fn lemma_fold_only_seq_returns(ts: Seq<TermV>)
    ensures
        !(reduce_seq_v(ts, None) matches Ok(r) && r is None),
    decreases ts,
{
    if ts.len() > 0 {
        lemma_fold_only_returns(ts.first());
        lemma_fold_only_seq_returns(ts.drop_first());
    }
}

/// Fold-only reduction of an already fully reduced term — a pure number —
/// returns it unchanged.
pub proof fn lemma_fold_only_number_idempotent(t: TermV)
    requires
        t is Number,
    ensures
        reduce_v(t, None) == Ok::<Option<TermV>, EvalError>(Some(t)),
{
}

/// The binding context a reduction runs under, viewed as a map.
pub open spec fn ctx_view(ctx: Option<&Bindings>) -> Option<Map<Seq<char>, TermV>> {
    match ctx {
        Some(b) => Some(b@),
        None => None,
    }
}

/// Reduces a term: exactly `reduce_v` of its view.
#[verifier::loop_isolation(false)]
#[verifier::rlimit(100)]
pub fn reduce(t: &Term, ctx: Option<&Bindings>) -> (r: Result<Option<Term>, EvalError>)
    requires
        wf_term(t@),
        ctx matches Some(b) ==> wf_bindings(b@),
    ensures
        r matches Ok(Some(t2)) ==> (reduce_v(t@, ctx_view(ctx)) == Ok::<Option<TermV>, EvalError>(
            Some(t2@),
        ) && wf_term(t2@)),
        r matches Ok(None) ==> reduce_v(t@, ctx_view(ctx)) == Ok::<Option<TermV>, EvalError>(None),
        r matches Err(e) ==> reduce_v(t@, ctx_view(ctx)) == Err::<Option<TermV>, EvalError>(e),
    decreases t,
{
    let ghost cv = ctx_view(ctx);
    match t {
        Term::Number(_) => Ok(Some(t.duplicate())),
        Term::Unknown(name) => match ctx {
            None => Ok(Some(t.duplicate())),
            Some(b) => match b.get(name) {
                Some(bound) => Ok(Some(bound.duplicate())),
                None => Ok(None),
            },
        },
        Term::Opposite(b) => match reduce(b, ctx) {
            Err(e) => Err(e),
            Ok(None) => Ok(None),
            Ok(Some(b2)) => match b2 {
                Term::Number(d) => {
                    proof {
                        assert(wf_term(term_view(Term::Number(d))));
                    }
                    Ok(Some(Term::Number(d.neg())))
                },
                other => Ok(Some(Term::Opposite(Box::new(other)))),
            },
        },
        Term::MulInverse(b) => match reduce(b, ctx) {
            Err(e) => Err(e),
            Ok(None) => Ok(None),
            Ok(Some(b2)) => match b2 {
                Term::Number(d) => {
                    proof {
                        assert(wf_term(term_view(Term::Number(d))));
                    }
                    if d.is_zero() {
                        Err(EvalError::DivisionByZero)
                    } else {
                        match dec_div(Dec::one(), d) {
                            None => Err(EvalError::Overflow),
                            Some(q) => Ok(Some(Term::Number(q))),
                        }
                    }
                },
                other => Ok(Some(Term::MulInverse(Box::new(other)))),
            },
        },
        Term::Power(base, exp) => match base {
            None => Err(EvalError::PowerMissingBase),
            Some(b) => match reduce(b, ctx) {
                Err(e) => Err(e),
                Ok(None) => Ok(None),
                Ok(Some(b2)) => match reduce(exp, ctx) {
                    Err(e) => Err(e),
                    Ok(None) => Ok(None),
                    Ok(Some(e2)) => {
                        let numbers = matches!(b2, Term::Number(_)) && matches!(
                            e2,
                            Term::Number(_),
                        );
                        if numbers {
                            let x = match &b2 {
                                Term::Number(x) => *x,
                                _ => Dec::zero(),
                            };
                            let y = match &e2 {
                                Term::Number(y) => *y,
                                _ => Dec::zero(),
                            };
                            proof {
                                assert(wf_term(term_view(Term::Number(x))));
                                assert(wf_term(term_view(Term::Number(y))));
                            }
                            match dec_pow(x, y) {
                                None => Err(EvalError::Overflow),
                                Some(d) => Ok(Some(Term::Number(d))),
                            }
                        } else {
                            Ok(Some(Term::Power(Some(Box::new(b2)), Box::new(e2))))
                        }
                    },
                },
            },
        },
        Term::Chain(com, ts) => {
            let ghost tsv = terms_view(ts@);
            proof {
                assert(t@ == TermV::Chain(*com, tsv));
                assert(wf_terms(tsv));
            }
            let mut reduced: Vec<Term> = Vec::new();
            let mut i: usize = 0;
            proof {
                assert(tsv.subrange(0, tsv.len() as int) =~= tsv);
                assert(terms_view(reduced@) =~= Seq::<TermV>::empty());
                match reduce_seq_v(tsv, cv) {
                    Ok(Some(rest)) => {
                        assert(terms_view(reduced@) + rest =~= rest);
                    },
                    _ => {},
                }
            }
            while i < ts.len()
                invariant
                    i <= ts@.len(),
                    wf_terms(terms_view(reduced@)),
                    reduce_seq_v(tsv, cv) == (match reduce_seq_v(
                        tsv.subrange(i as int, tsv.len() as int),
                        cv,
                    ) {
                        Ok(Some(rest)) => Ok(Some(terms_view(reduced@) + rest)),
                        Ok(None) => Ok::<Option<Seq<TermV>>, EvalError>(None),
                        Err(e) => Err(e),
                    }),
                decreases ts@.len() - i,
            {
                proof {
                    assert(decreases_to!(ts@ => ts@[i as int]));
                    assert(tsv.subrange(i as int, tsv.len() as int).first() == tsv[i as int]);
                    assert(tsv.subrange(i as int, tsv.len() as int).drop_first() =~= tsv.subrange(
                        i as int + 1,
                        tsv.len() as int,
                    ));
                }
                match reduce(&ts[i], ctx) {
                    Err(e) => {
                        return Err(e);
                    },
                    Ok(None) => {
                        return Ok(None);
                    },
                    Ok(Some(t2)) => {
                        let ghost t2v = t2@;
                        let ghost red0 = terms_view(reduced@);
                        reduced.push(t2);
                        proof {
                            assert(terms_view(reduced@) == red0.push(t2v));
                            assert forall|rest: Seq<TermV>|
                                true implies (red0 + (seq![t2v] + rest)) == (red0.push(t2v)
                                + rest) by {
                                assert(red0 + (seq![t2v] + rest) =~= red0.push(t2v) + rest);
                            }
                        }
                    },
                }
                i = i + 1;
            }
            proof {
                assert(tsv.subrange(tsv.len() as int, tsv.len() as int) =~= Seq::<TermV>::empty());
                assert(reduce_seq_v(tsv, cv) == Ok::<Option<Seq<TermV>>, EvalError>(
                    Some(terms_view(reduced@) + Seq::<TermV>::empty()),
                ));
                assert(terms_view(reduced@) + Seq::<TermV>::empty() =~= terms_view(reduced@));
            }
            let ghost redv = terms_view(reduced@);
            let mut kept: Vec<Term> = Vec::new();
            let mut acc: Dec = match com {
                Commutative::Add => Dec::zero(),
                Commutative::Multiply => Dec::one(),
            };
            let ghost acc0 = identity_of(*com);
            proof {
                assert(acc == acc0);
                assert(acc.wf());
            }
            while reduced.len() > 0
                invariant
                    acc.wf(),
                    wf_terms(terms_view(reduced@)),
                    wf_terms(terms_view(kept@)),
                    drain_v(*com, redv, acc0) == (match drain_v(
                        *com,
                        terms_view(reduced@),
                        acc,
                    ) {
                        Ok((k, a)) => Ok((terms_view(kept@) + k, a)),
                        Err(e) => Err::<(Seq<TermV>, Dec), EvalError>(e),
                    }),
                decreases reduced@.len(),
            {
                let ghost cur = terms_view(reduced@);
                let ghost kept0 = terms_view(kept@);
                let first = reduced.remove(0);
                proof {
                    assert(terms_view(reduced@) =~= cur.drop_first());
                    assert(term_view(first) == cur.first());
                }
                match first {
                    Term::Number(n) => {
                        proof {
                            assert(wf_term(TermV::Number(n)));
                        }
                        let folded = match com {
                            Commutative::Add => dec_add(acc, n),
                            Commutative::Multiply => dec_mul(acc, n),
                        };
                        match folded {
                            None => {
                                proof {
                                    assert(drain_v(*com, cur, acc) == Err::<
                                        (Seq<TermV>, Dec),
                                        EvalError,
                                    >(EvalError::Overflow));
                                }
                                return Err(EvalError::Overflow);
                            },
                            Some(a2) => {
                                acc = a2;
                            },
                        }
                    },
                    other => {
                        let ghost ov = term_view(other);
                        kept.push(other);
                        proof {
                            assert(terms_view(kept@) == kept0.push(ov));
                            assert forall|k: Seq<TermV>|
                                true implies (kept0 + (seq![ov] + k)) == (kept0.push(ov) + k) by {
                                assert(kept0 + (seq![ov] + k) =~= kept0.push(ov) + k);
                            }
                        }
                    },
                }
            }
            proof {
                assert(terms_view(reduced@) =~= Seq::<TermV>::empty());
                assert(terms_view(kept@) + Seq::<TermV>::empty() =~= terms_view(kept@));
                assert(drain_v(*com, redv, acc0) == Ok::<(Seq<TermV>, Dec), EvalError>(
                    (terms_view(kept@), acc),
                ));
            }
            if kept.len() == 0 {
                Ok(Some(Term::Number(acc)))
            } else if !acc.is_zero() {
                let ghost keptv = terms_view(kept@);
                kept.push(Term::Number(acc));
                proof {
                    assert(terms_view(kept@) == keptv.push(TermV::Number(acc)));
                    lemma_wf_terms_index(keptv);
                    lemma_wf_terms_index(terms_view(kept@));
                }
                Ok(Some(Term::Chain(*com, kept)))
            } else {
                Ok(Some(Term::Chain(*com, kept)))
            }
        },
    }
}

/// Moving the right side of an equation across as its additive inverse:
/// `left + (-right)`, reusing an additive chain on the left; a bare right
/// side stands as it is.
pub open spec fn trans_pos_v(eq: EquationV) -> Result<TermV, EvalError> {
    match eq.right {
        None => Err(EvalError::InvalidEquation),
        Some(r) => match eq.left {
            None => Ok(r),
            Some(l) => {
                if l is Chain && l->Chain_0 == Commutative::Add {
                    Ok(TermV::Chain(Commutative::Add, l->Chain_1.push(TermV::Opposite(Box::new(r)))))
                } else {
                    Ok(TermV::Chain(Commutative::Add, seq![l, TermV::Opposite(Box::new(r))]))
                }
            },
        },
    }
}

/// What building an evaluator from an equation yields: the rearranged
/// formula, constant-folded.
pub open spec fn new_formula_v(eq: EquationV) -> Result<TermV, EvalError> {
    match trans_pos_v(eq) {
        Err(e) => Err(e),
        Ok(t) => match reduce_v(t, None) {
            Err(e) => Err(e),
            Ok(Some(t2)) => Ok(t2),
            Ok(None) => Err(EvalError::UnresolvedVariable),
        },
    }
}

/// Owns one formula term, rearranged from an equation so that the right side
/// stands on the left as its negation.
pub struct Evaluator {
    pub formula: Term,
}

impl Evaluator {
    /// Rearranges the equation into a single term.
    fn trans_pos(equation: Equation) -> (r: Result<Term, EvalError>)
        requires
            crate::term::wf_equation(equation@),
        ensures
            r matches Ok(t) ==> (trans_pos_v(equation@) == Ok::<TermV, EvalError>(t@) && wf_term(
                t@,
            )),
            r matches Err(e) ==> trans_pos_v(equation@) == Err::<TermV, EvalError>(e),
    {
        match equation {
            Equation(Some(left), Some(right)) => {
                let neg = Term::Opposite(Box::new(right));
                let ghost nv = term_view(neg);
                match left {
                    Term::Chain(com, mut ts) => {
                        if matches!(com, Commutative::Add) {
                            let ghost tsv = terms_view(ts@);
                            ts.push(neg);
                            proof {
                                assert(terms_view(ts@) == tsv.push(nv));
                                lemma_wf_terms_index(tsv);
                                lemma_wf_terms_index(terms_view(ts@));
                                assert(wf_term(nv));
                                assert(wf_terms(tsv.push(nv)));
                            }
                            Ok(Term::Chain(com, ts))
                        } else {
                            let mut v: Vec<Term> = Vec::new();
                            v.push(Term::Chain(com, ts));
                            v.push(neg);
                            proof {
                                assert(terms_view(v@.drop_last()).drop_last() =~= terms_view(
                                    Seq::<Term>::empty(),
                                ));
                                assert(terms_view(v@) =~= seq![
                                    term_view(v@[0]),
                                    term_view(v@[1]),
                                ]);
                                assert(wf_term(nv));
                                assert(wf_term(term_view(v@[0])));
                                lemma_wf_terms_index(terms_view(v@));
                                assert(wf_terms(terms_view(v@)));
                            }
                            Ok(Term::Chain(Commutative::Add, v))
                        }
                    },
                    other => {
                        let ghost ov = term_view(other);
                        let mut v: Vec<Term> = Vec::new();
                        v.push(other);
                        v.push(neg);
                        proof {
                            assert(terms_view(v@.drop_last()).drop_last() =~= terms_view(
                                Seq::<Term>::empty(),
                            ));
                            assert(terms_view(v@) =~= seq![ov, nv]);
                            assert(wf_term(nv));
                            assert(wf_term(ov));
                            lemma_wf_terms_index(terms_view(v@));
                            assert(wf_terms(terms_view(v@)));
                        }
                        Ok(Term::Chain(Commutative::Add, v))
                    },
                }
            },
            Equation(None, Some(right)) => Ok(right),
            _ => Err(EvalError::InvalidEquation),
        }
    }

    /// Builds an evaluator: rearranges the equation and constant-folds the
    /// result.
    pub fn new(equation: Equation) -> (r: Result<Evaluator, EvalError>)
        requires
            crate::term::wf_equation(equation@),
        ensures
            r matches Ok(ev) ==> (new_formula_v(equation@) == Ok::<TermV, EvalError>(ev.formula@)
                && wf_term(ev.formula@)),
            r matches Err(e) ==> new_formula_v(equation@) == Err::<TermV, EvalError>(e),
    {
        let t = match Self::trans_pos(equation) {
            Ok(t) => t,
            Err(e) => {
                return Err(e);
            },
        };
        match reduce(&t, None) {
            Ok(Some(t2)) => Ok(Evaluator { formula: t2 }),
            Ok(None) => {
                proof {
                    lemma_fold_only_returns(t@);
                }
                Err(EvalError::UnresolvedVariable)
            },
            Err(e) => Err(e),
        }
    }

    /// Folds the given bindings into the standing formula. Meeting an unbound
    /// variable aborts the substitution and leaves the formula as it was.
    pub fn inline(&mut self, context: &Bindings) -> (r: Result<(), EvalError>)
        requires
            wf_term(old(self).formula@),
            wf_bindings(context@),
        ensures
            reduce_v(old(self).formula@, Some(context@)) matches Ok(o) ==> (r is Ok && (match o {
                Some(t2) => final(self).formula@ == t2,
                None => final(self).formula@ == old(self).formula@,
            })),
            reduce_v(old(self).formula@, Some(context@)) matches Err(e) ==> (r == Err::<
                (),
                EvalError,
            >(e) && final(self).formula@ == old(self).formula@),
            wf_term(final(self).formula@),
    {
        match reduce(&self.formula, Some(context)) {
            Ok(Some(t2)) => {
                self.formula = t2;
                Ok(())
            },
            Ok(None) => Ok(()),
            Err(e) => Err(e),
        }
    }

    /// Evaluates the formula under the bindings; a reduction that could not
    /// resolve every variable is an error here.
    pub fn eval(&self, context: &Bindings) -> (r: Result<Term, EvalError>)
        requires
            wf_term(self.formula@),
            wf_bindings(context@),
        ensures
            (match reduce_v(self.formula@, Some(context@)) {
                Ok(Some(t2)) => r matches Ok(rt) && rt@ == t2,
                Ok(None) => r == Err::<Term, EvalError>(EvalError::UnresolvedVariable),
                Err(e) => r == Err::<Term, EvalError>(e),
            }),
            r matches Ok(rt) ==> wf_term(rt@),
    {
        match reduce(&self.formula, Some(context)) {
            Ok(Some(t2)) => Ok(t2),
            Ok(None) => Err(EvalError::UnresolvedVariable),
            Err(e) => Err(e),
        }
    }
}

impl Evaluator {
    /// Writes the formula's canonical text to the console's head screen.
    pub fn print(&mut self, console: &mut crate::console::ConsoleManager)
        requires
            wf_term(old(self).formula@),
            old(console)@.len() > 0,
        ensures
            final(self).formula == old(self).formula,
            final(console)@ == old(console)@.update(
                old(console)@.len() - 1,
                old(console)@.last().push(
                    crate::term::render_spec(old(self).formula@) + "\n"@,
                ),
            ),
    {
        let text = self.formula.to_string();
        console.println(text);
    }
}

/// What constructing a binding evaluator yields: the bound name and the
/// fold-only-reduced right side; anything but a single unknown on the left is
/// refused.
pub open spec fn unknown_new_v(eq: EquationV) -> Result<(Seq<char>, TermV), EvalError> {
    match (eq.left, eq.right) {
        (Some(l), Some(rr)) => {
            if l is Unknown {
                match reduce_v(rr, None) {
                    Err(e) => Err(e),
                    Ok(Some(t2)) => Ok((l->Unknown_0, t2)),
                    Ok(None) => Err(EvalError::UnresolvedVariable),
                }
            } else {
                Err(EvalError::InvalidUnknownEquation)
            }
        },
        _ => Err(EvalError::InvalidUnknownEquation),
    }
}

/// A named binding: an equation whose left side is exactly one unknown, with
/// the evaluator of its right side.
pub struct UnknownEvaluator {
    pub unknown: Vec<char>,
    pub evaluator: Evaluator,
}

impl UnknownEvaluator {
    /// Builds a binding evaluator from a `name = expression` equation.
    pub fn new(equation: Equation) -> (r: Result<UnknownEvaluator, EvalError>)
        requires
            crate::term::wf_equation(equation@),
        ensures
            r matches Ok(ue) ==> (unknown_new_v(equation@) == Ok::<(Seq<char>, TermV), EvalError>(
                (ue.unknown@, ue.evaluator.formula@),
            ) && wf_term(ue.evaluator.formula@)),
            r matches Err(e) ==> unknown_new_v(equation@) == Err::<(Seq<char>, TermV), EvalError>(
                e,
            ),
    {
        match equation {
            Equation(Some(Term::Unknown(name)), Some(right)) => {
                match reduce(&right, None) {
                    Ok(Some(t2)) => Ok(
                        UnknownEvaluator { unknown: name, evaluator: Evaluator { formula: t2 } },
                    ),
                    Ok(None) => {
                        proof {
                            lemma_fold_only_returns(right@);
                        }
                        Err(EvalError::UnresolvedVariable)
                    },
                    Err(e) => Err(e),
                }
            },
            _ => Err(EvalError::InvalidUnknownEquation),
        }
    }

    /// Folds the given bindings into the bound expression.
    pub fn inline(&mut self, context: &Bindings) -> (r: Result<(), EvalError>)
        requires
            wf_term(old(self).evaluator.formula@),
            wf_bindings(context@),
        ensures
            reduce_v(old(self).evaluator.formula@, Some(context@)) matches Ok(o) ==> (r is Ok && (
            match o {
                Some(t2) => final(self).evaluator.formula@ == t2,
                None => final(self).evaluator.formula@ == old(self).evaluator.formula@,
            })),
            reduce_v(old(self).evaluator.formula@, Some(context@)) matches Err(e) ==> (r == Err::<
                (),
                EvalError,
            >(e) && final(self).evaluator.formula@ == old(self).evaluator.formula@),
            wf_term(final(self).evaluator.formula@),
            final(self).unknown@ == old(self).unknown@,
    {
        self.evaluator.inline(context)
    }

    /// Writes `name = formula` to the console's head screen.
    pub fn print(&mut self, console: &mut crate::console::ConsoleManager)
        requires
            wf_term(old(self).evaluator.formula@),
            old(console)@.len() > 0,
        ensures
            final(self).unknown@ == old(self).unknown@,
            final(self).evaluator.formula == old(self).evaluator.formula,
            final(console)@ == old(console)@.update(
                old(console)@.len() - 1,
                old(console)@.last().push(old(self).unknown@ + " = "@).push(
                    crate::term::render_spec(old(self).evaluator.formula@) + "\n"@,
                ),
            ),
    {
        let mut name: Vec<char> = Vec::new();
        let mut i: usize = 0;
        while i < self.unknown.len()
            invariant
                i <= self.unknown@.len(),
                name@ == self.unknown@.subrange(0, i as int),
                self.unknown@ == old(self).unknown@,
                self.evaluator.formula == old(self).evaluator.formula,
            decreases self.unknown@.len() - i,
        {
            name.push(self.unknown[i]);
            proof {
                assert(name@ =~= self.unknown@.subrange(0, i as int + 1));
            }
            i = i + 1;
        }
        proof {
            assert(name@ =~= self.unknown@);
        }
        let mut text = crate::term::chars_to_string(name);
        text.append(" = ");
        console.print(text);
        let ghost mid = console@;
        self.evaluator.print(console);
        proof {
            assert(final(console)@ =~= old(console)@.update(
                old(console)@.len() - 1,
                old(console)@.last().push(old(self).unknown@ + " = "@).push(
                    crate::term::render_spec(old(self).evaluator.formula@) + "\n"@,
                ),
            ));
        }
    }

    /// Evaluates the bound expression under the bindings.
    pub fn eval(&self, context: &Bindings) -> (r: Result<Term, EvalError>)
        requires
            wf_term(self.evaluator.formula@),
            wf_bindings(context@),
        ensures
            (match reduce_v(self.evaluator.formula@, Some(context@)) {
                Ok(Some(t2)) => r matches Ok(rt) && rt@ == t2,
                Ok(None) => r == Err::<Term, EvalError>(EvalError::UnresolvedVariable),
                Err(e) => r == Err::<Term, EvalError>(e),
            }),
            r matches Ok(rt) ==> wf_term(rt@),
    {
        self.evaluator.eval(context)
    }
}

} // verus!
