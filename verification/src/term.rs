//! The algebraic term model.
//!
//! A `Term` is a node of an expression tree: exact numbers, free variables,
//! n-ary commutative chains (addition and multiplication), powers, and the
//! two unary transforms that turn subtraction and division into their
//! commutative counterparts. An `Equation` is a pair of optional sides.
//!
//! Each executable type has a mathematical view (`TermV`, `EquationV`) over
//! which every contract of the parser and of the evaluation engine is stated.

use vstd::prelude::*;

use crate::dec::{str_of, Dec};
use crate::dec::dec_render;

verus! {

/// The two commutative n-ary operations a chain can carry.
#[derive(Clone, Copy, PartialEq, Eq, Structural, Debug)]
pub enum Commutative {
    Add,
    Multiply,
}

/// The operators the parser recognises.
#[derive(Clone, Copy, PartialEq, Eq, Structural, Debug)]
pub enum Operator {
    Add,
    Subtract,
    Multiply,
    Divide,
    Power,
    Equals,
}

/// A node of an expression tree.
#[derive(PartialEq, Debug)]
pub enum Term {
    /// An exact decimal literal.
    Number(Dec),
    /// An n-ary commutative operation over its children, in display order.
    Chain(Commutative, Vec<Term>),
    /// Exponentiation; the base is absent only while the parser is still
    /// assembling the node.
    Power(Option<Box<Term>>, Box<Term>),
    /// The multiplicative inverse of a subterm (division).
    MulInverse(Box<Term>),
    /// The additive inverse of a subterm (subtraction).
    Opposite(Box<Term>),
    /// A free variable, referenced by its identifier.
    Unknown(Vec<char>),
}

/// The mathematical shape of a `Term`.
pub enum TermV {
    Number(Dec),
    Chain(Commutative, Seq<TermV>),
    Power(Option<Box<TermV>>, Box<TermV>),
    MulInverse(Box<TermV>),
    Opposite(Box<TermV>),
    Unknown(Seq<char>),
}

/// The mathematical shape of a term.
pub open spec fn term_view(t: Term) -> TermV
    decreases t,
{
    match t {
        Term::Number(d) => TermV::Number(d),
        Term::Chain(com, ts) => TermV::Chain(com, terms_view(ts@)),
        Term::Power(base, exp) => TermV::Power(
            match base {
                Some(b) => Some(Box::new(term_view(*b))),
                None => None,
            },
            Box::new(term_view(*exp)),
        ),
        Term::MulInverse(b) => TermV::MulInverse(Box::new(term_view(*b))),
        Term::Opposite(b) => TermV::Opposite(Box::new(term_view(*b))),
        Term::Unknown(name) => TermV::Unknown(name@),
    }
}

/// The views of a sequence of terms, element by element.
pub open spec fn terms_view(ts: Seq<Term>) -> Seq<TermV>
    decreases ts,
{
    if ts.len() == 0 {
        Seq::empty()
    } else {
        terms_view(ts.drop_last()).push(term_view(ts.last()))
    }
}

/// Each element of a viewed sequence is the view of the element.
pub broadcast proof fn lemma_terms_view_index(ts: Seq<Term>)
    ensures
        (#[trigger] terms_view(ts)).len() == ts.len(),
        forall|i: int| 0 <= i < ts.len() ==> terms_view(ts)[i] == term_view(ts[i]),
    decreases ts,
{
    if ts.len() > 0 {
        lemma_terms_view_index(ts.drop_last());
        assert forall|i: int| 0 <= i < ts.len() implies terms_view(ts)[i] == term_view(
            ts[i],
        ) by {
            if i < ts.len() - 1 {
                assert(ts.drop_last()[i] == ts[i]);
            }
        }
    }
}

impl View for Term {
    type V = TermV;

    open spec fn view(&self) -> TermV {
        term_view(*self)
    }
}

/// Viewing a sequence commutes with `push`.
pub broadcast proof fn lemma_terms_view_push(ts: Seq<Term>, t: Term)
    ensures
        #[trigger] terms_view(ts.push(t)) == terms_view(ts).push(term_view(t)),
{
    assert(ts.push(t).drop_last() =~= ts);
    assert(ts.push(t).last() == t);
}

/// Viewing a sequence commutes with dropping the last element.
pub broadcast proof fn lemma_terms_view_drop_last(ts: Seq<Term>)
    requires
        ts.len() > 0,
    ensures
        #[trigger] terms_view(ts.drop_last()) == terms_view(ts).drop_last(),
{
    assert(terms_view(ts.drop_last()).push(term_view(ts.last())).drop_last() =~= terms_view(
        ts.drop_last(),
    ));
}

/// Viewing a sequence commutes with concatenation.
pub broadcast proof fn lemma_terms_view_concat(a: Seq<Term>, b: Seq<Term>)
    ensures
        #[trigger] terms_view(a + b) == terms_view(a) + terms_view(b),
{
    lemma_terms_view_index(a);
    lemma_terms_view_index(b);
    lemma_terms_view_index(a + b);
    assert(terms_view(a + b) =~= terms_view(a) + terms_view(b));
}

/// All decimal literals of the term lie in the representable range.
pub open spec fn wf_term(t: TermV) -> bool
    decreases t,
{
    match t {
        TermV::Number(d) => d.wf(),
        TermV::Chain(_, ts) => wf_terms(ts),
        TermV::Power(base, exp) => (match base {
            Some(b) => wf_term(*b),
            None => true,
        }) && wf_term(*exp),
        TermV::MulInverse(b) => wf_term(*b),
        TermV::Opposite(b) => wf_term(*b),
        TermV::Unknown(_) => true,
    }
}

/// All decimal literals of each term in the sequence lie in the representable
/// range.
pub open spec fn wf_terms(ts: Seq<TermV>) -> bool
    decreases ts,
{
    ts.len() == 0 || (wf_terms(ts.drop_last()) && wf_term(ts.last()))
}

/// A sequence is well formed exactly when each of its elements is.
pub broadcast proof fn lemma_wf_terms_index(ts: Seq<TermV>)
    ensures
        #[trigger] wf_terms(ts) <==> (forall|i: int| 0 <= i < ts.len() ==> wf_term(
            #[trigger] ts[i],
        )),
    decreases ts,
{
    if ts.len() > 0 {
        lemma_wf_terms_index(ts.drop_last());
        if wf_terms(ts) {
            assert forall|i: int| 0 <= i < ts.len() implies wf_term(#[trigger] ts[i]) by {
                if i < ts.len() - 1 {
                    assert(ts.drop_last()[i] == ts[i]);
                }
            }
        }
        if forall|i: int| 0 <= i < ts.len() ==> wf_term(#[trigger] ts[i]) {
            assert forall|i: int| 0 <= i < ts.drop_last().len() implies wf_term(
                #[trigger] ts.drop_last()[i],
            ) by {
                assert(ts.drop_last()[i] == ts[i]);
            }
        }
    }
}

/// A pair of optional term sides, conceptually joined by `=`. During parsing
/// either side may still be absent.
pub struct Equation(pub Option<Term>, pub Option<Term>);

/// The mathematical shape of an `Equation`.
pub struct EquationV {
    pub left: Option<TermV>,
    pub right: Option<TermV>,
}

impl View for Equation {
    type V = EquationV;

    open spec fn view(&self) -> EquationV {
        EquationV {
            left: match self.0 {
                Some(t) => Some(t@),
                None => None,
            },
            right: match self.1 {
                Some(t) => Some(t@),
                None => None,
            },
        }
    }
}

impl Term {
    /// A deep, structure-preserving copy.
    pub fn duplicate(&self) -> (r: Term)
        ensures
            r@ == self@,
        decreases self,
    {
        match self {
            Term::Number(d) => Term::Number(*d),
            Term::Chain(com, ts) => {
                let mut out: Vec<Term> = Vec::new();
                let mut i: usize = 0;
                proof {
                    lemma_terms_view_index(ts@);
                }
                while i < ts.len()
                    invariant
                        i <= ts.len(),
                        out@.len() == i as int,
                        forall|j: int| 0 <= j < i as int ==> term_view(#[trigger] out@[j])
                            == term_view(ts@[j]),
                        decreases_to!(*self => ts@),
                    decreases ts.len() - i,
                {
                    proof {
                        assert(decreases_to!(ts@ => ts@[i as int]));
                    }
                    out.push(ts[i].duplicate());
                    i = i + 1;
                }
                proof {
                    lemma_terms_view_index(ts@);
                    lemma_terms_view_index(out@);
                    assert(terms_view(out@) =~= terms_view(ts@));
                }
                Term::Chain(*com, out)
            },
            Term::Power(base, exp) => {
                let b = match base {
                    Some(b) => Some(Box::new(b.duplicate())),
                    None => None,
                };
                Term::Power(b, Box::new(exp.duplicate()))
            },
            Term::MulInverse(b) => Term::MulInverse(Box::new(b.duplicate())),
            Term::Opposite(b) => Term::Opposite(Box::new(b.duplicate())),
            Term::Unknown(name) => {
                let mut out: Vec<char> = Vec::new();
                let mut i: usize = 0;
                while i < name.len()
                    invariant
                        i <= name.len(),
                        out@ == name@.subrange(0, i as int),
                    decreases name.len() - i,
                {
                    out.push(name[i]);
                    proof {
                        assert(out@ =~= name@.subrange(0, i as int + 1));
                    }
                    i = i + 1;
                }
                proof {
                    assert(out@ =~= name@);
                }
                Term::Unknown(out)
            },
        }
    }
}

impl Commutative {
    /// The one-character text of the operation.
    pub fn to_string(&self) -> (r: String)
        ensures
            *self == Commutative::Add ==> r@ == "+"@,
            *self == Commutative::Multiply ==> r@ == "*"@,
    {
        match self {
            Commutative::Add => "+".to_owned(),
            Commutative::Multiply => "*".to_owned(),
        }
    }
}

impl Operator {
    /// Whether the operator is itself commutative.
    pub fn com(&self) -> (r: bool)
        ensures
            r == (*self == Operator::Add || *self == Operator::Multiply),
    {
        match self {
            Operator::Add | Operator::Multiply => true,
            _ => false,
        }
    }

    /// The commutative chain kind the operator folds into.
    pub fn to_com(&self) -> (r: Commutative)
        requires
            *self != Operator::Power,
            *self != Operator::Equals,
        ensures
            r == to_com_spec(*self),
    {
        match self {
            Operator::Add => Commutative::Add,
            Operator::Subtract => Commutative::Add,
            Operator::Multiply => Commutative::Multiply,
            _ => Commutative::Multiply,
        }
    }

    /// Wraps a term so that a non-commutative operator can live in a
    /// commutative chain: subtraction negates, division inverts.
    pub fn to_com_term(&self, term: Term) -> (r: Term)
        ensures
            r@ == to_com_term_spec(*self, term@),
    {
        match self {
            Operator::Subtract => Term::Opposite(Box::new(term)),
            Operator::Divide => Term::MulInverse(Box::new(term)),
            _ => term,
        }
    }

    /// The binding strength of the operator.
    pub fn priority(&self) -> (r: i32)
        ensures
            r == priority_spec(*self),
    {
        match self {
            Operator::Equals => 0,
            Operator::Add => 1,
            Operator::Subtract => 1,
            Operator::Multiply => 2,
            Operator::Divide => 2,
            Operator::Power => 3,
        }
    }

    /// The operator a character denotes, if any.
    pub fn from_char(c: char) -> (r: Option<Operator>)
        ensures
            r == from_char_spec(c),
    {
        match c {
            '+' => Some(Operator::Add),
            '-' => Some(Operator::Subtract),
            '*' => Some(Operator::Multiply),
            '/' => Some(Operator::Divide),
            '^' => Some(Operator::Power),
            '=' => Some(Operator::Equals),
            _ => None,
        }
    }
}

/// The chain kind each binary operator folds into.
pub open spec fn to_com_spec(op: Operator) -> Commutative {
    match op {
        Operator::Add => Commutative::Add,
        Operator::Subtract => Commutative::Add,
        _ => Commutative::Multiply,
    }
}

/// The commutative-chain embedding of a term under an operator.
pub open spec fn to_com_term_spec(op: Operator, t: TermV) -> TermV {
    match op {
        Operator::Subtract => TermV::Opposite(Box::new(t)),
        Operator::Divide => TermV::MulInverse(Box::new(t)),
        _ => t,
    }
}

/// The binding strength of each operator.
pub open spec fn priority_spec(op: Operator) -> int {
    match op {
        Operator::Equals => 0,
        Operator::Add => 1,
        Operator::Subtract => 1,
        Operator::Multiply => 2,
        Operator::Divide => 2,
        Operator::Power => 3,
    }
}

/// The operator a character denotes, if any.
pub open spec fn from_char_spec(c: char) -> Option<Operator> {
    if c == '+' {
        Some(Operator::Add)
    } else if c == '-' {
        Some(Operator::Subtract)
    } else if c == '*' {
        Some(Operator::Multiply)
    } else if c == '/' {
        Some(Operator::Divide)
    } else if c == '^' {
        Some(Operator::Power)
    } else if c == '=' {
        Some(Operator::Equals)
    } else {
        None
    }
}

/// The canonical debug text of a term.
pub open spec fn render_spec(t: TermV) -> Seq<char>
    decreases t,
{
    match t {
        TermV::Number(d) => str_of(d.mantissa as int, d.scale as int),
        TermV::Chain(com, ts) => com_char(com) + seq![' ', '[', ' '] + render_list_spec(ts) + seq![
            ' ',
            ']',
        ],
        TermV::MulInverse(b) => seq!['1', '/'] + render_spec(*b),
        TermV::Opposite(b) => seq!['-'] + render_spec(*b),
        TermV::Unknown(name) => name,
        TermV::Power(base, exp) => {
            let b = match base {
                Some(b) => render_spec(*b),
                None => seq!['n', 'o', 'n', 'e'],
            };
            b + seq!['^'] + render_spec(*exp)
        },
    }
}

/// The children of a chain, rendered and joined with commas.
pub open spec fn render_list_spec(ts: Seq<TermV>) -> Seq<char>
    decreases ts,
{
    if ts.len() == 0 {
        Seq::empty()
    } else if ts.len() == 1 {
        render_spec(ts[0])
    } else {
        render_list_spec(ts.drop_last()) + seq![' ', ',', ' '] + render_spec(ts.last())
    }
}

/// The character of a chain's operation.
pub open spec fn com_char(com: Commutative) -> Seq<char> {
    match com {
        Commutative::Add => seq!['+'],
        Commutative::Multiply => seq!['*'],
    }
}

impl Term {
    /// The canonical debug text of the term, as characters.
    pub fn render(&self) -> (r: Vec<char>)
        requires
            wf_term(self@),
        ensures
            r@ == render_spec(self@),
        decreases self,
    {
        match self {
            Term::Number(d) => dec_render(*d),
            Term::Chain(com, ts) => {
                let mut out: Vec<char> = Vec::new();
                match com {
                    Commutative::Add => out.push('+'),
                    Commutative::Multiply => out.push('*'),
                }
                out.push(' ');
                out.push('[');
                out.push(' ');
                let ghost tsv = terms_view(ts@);
                proof {
                    lemma_terms_view_index(ts@);
                    assert(wf_terms(tsv));
                    lemma_wf_terms_index(tsv);
                }
                let mut i: usize = 0;
                while i < ts.len()
                    invariant
                        i <= ts.len(),
                        tsv == terms_view(ts@),
                        self@ == TermV::Chain(*com, tsv),
                        ts@.len() == tsv.len(),
                        forall|j: int| 0 <= j < tsv.len() ==> wf_term(#[trigger] tsv[j]),
                        forall|j: int| 0 <= j < ts@.len() ==> tsv[j] == term_view(
                            #[trigger] ts@[j],
                        ),
                        out@ == com_char(*com) + seq![' ', '[', ' '] + render_list_spec(
                            tsv.subrange(0, i as int),
                        ),
                        decreases_to!(*self => ts@),
                    decreases ts.len() - i,
                {
                    if i > 0 {
                        out.push(' ');
                        out.push(',');
                        out.push(' ');
                    }
                    proof {
                        assert(decreases_to!(ts@ => ts@[i as int]));
                        assert(wf_term(term_view(ts@[i as int])));
                    }
                    let mut piece = ts[i].render();
                    out.append(&mut piece);
                    proof {
                        let pre = tsv.subrange(0, i as int + 1);
                        assert(pre.drop_last() =~= tsv.subrange(0, i as int));
                        assert(pre.last() == tsv[i as int]);
                        assert(out@ =~= com_char(*com) + seq![' ', '[', ' '] + render_list_spec(
                            pre,
                        ));
                    }
                    i = i + 1;
                }
                out.push(' ');
                out.push(']');
                proof {
                    assert(tsv.subrange(0, tsv.len() as int) =~= tsv);
                    assert(out@ =~= render_spec(self@));
                }
                out
            },
            Term::MulInverse(b) => {
                let mut out: Vec<char> = Vec::new();
                out.push('1');
                out.push('/');
                let mut piece = b.render();
                out.append(&mut piece);
                proof {
                    assert(out@ =~= render_spec(self@));
                }
                out
            },
            Term::Opposite(b) => {
                let mut out: Vec<char> = Vec::new();
                out.push('-');
                let mut piece = b.render();
                out.append(&mut piece);
                proof {
                    assert(out@ =~= render_spec(self@));
                }
                out
            },
            Term::Unknown(name) => {
                let r = self.duplicate();
                match r {
                    Term::Unknown(chars) => chars,
                    _ => Vec::new(),
                }
            },
            Term::Power(base, exp) => {
                let mut out: Vec<char> = Vec::new();
                match base {
                    Some(b) => {
                        let mut piece = b.render();
                        out.append(&mut piece);
                    },
                    None => {
                        out.push('n');
                        out.push('o');
                        out.push('n');
                        out.push('e');
                    },
                }
                out.push('^');
                let mut piece = exp.render();
                out.append(&mut piece);
                proof {
                    assert(out@ =~= render_spec(self@));
                }
                out
            },
        }
    }
}

/// Relies on `String`'s `FromIterator<char>`: collects the characters in
/// order.
#[verifier::external_body]
pub(crate) fn chars_to_string(v: Vec<char>) -> (r: String)
    ensures
        r@ == v@,
{
    v.into_iter().collect()
}

/// Relies on `str::chars`: yields the characters of the text in order.
#[verifier::external_body]
pub(crate) fn str_to_chars(s: &str) -> (r: Vec<char>)
    ensures
        r@ == s@,
{
    s.chars().collect()
}

impl Term {
    /// The canonical debug text of the term.
    pub fn to_string(&self) -> (r: String)
        requires
            wf_term(self@),
        ensures
            r@ == render_spec(self@),
    {
        chars_to_string(self.render())
    }
}

/// All decimal literals on both sides of the equation lie in the
/// representable range.
pub open spec fn wf_equation(eq: EquationV) -> bool {
    (match eq.left {
        Some(t) => wf_term(t),
        None => true,
    }) && (match eq.right {
        Some(t) => wf_term(t),
        None => true,
    })
}

/// The canonical text of an equation: both sides joined by `=`, an absent
/// side left blank.
pub open spec fn equation_render_spec(eq: EquationV) -> Seq<char> {
    (match eq.left {
        Some(t) => render_spec(t),
        None => Seq::empty(),
    }) + seq![' ', '=', ' '] + (match eq.right {
        Some(t) => render_spec(t),
        None => Seq::empty(),
    })
}

impl Equation {
    /// The canonical text of the equation.
    pub fn to_string(&self) -> (r: String)
        requires
            wf_equation(self@),
        ensures
            r@ == equation_render_spec(self@),
    {
        let mut out: Vec<char> = Vec::new();
        match &self.0 {
            Some(t) => {
                let mut piece = t.render();
                out.append(&mut piece);
            },
            None => {},
        }
        out.push(' ');
        out.push('=');
        out.push(' ');
        match &self.1 {
            Some(t) => {
                let mut piece = t.render();
                out.append(&mut piece);
            },
            None => {},
        }
        proof {
            assert(out@ =~= equation_render_spec(self@));
        }
        chars_to_string(out)
    }
}

} // verus!
