//! The tokenizing parser.
//!
//! A line of text is scanned in reverse, last character first. Number and
//! identifier characters accumulate in a builder; operators close the pending
//! token and fold completed terms by precedence: an operator of equal
//! precedence merges the two topmost terms into one commutative chain, a
//! lower one nests the top term into the enclosing chain or power.
//! Parentheses force maximal precedence inside the group, and `=` splits the
//! equation. The whole discipline is written down as spec functions
//! (`step_v`, `end_v`, `parse_v`), and the executable parser is proved to
//! return exactly what they describe.

use vstd::prelude::*;

use crate::dec::{dec_parse, parse_of};
use crate::term::{
    from_char_spec, lemma_terms_view_concat, lemma_terms_view_index, lemma_terms_view_push,
    lemma_wf_terms_index, priority_spec, term_view, terms_view, to_com_spec, to_com_term_spec,
    wf_equation, wf_term, wf_terms, Commutative, Equation, EquationV, Operator, Term, TermV,
};

verus! {

broadcast use crate::term::lemma_terms_view_push, crate::term::lemma_terms_view_concat,
    crate::term::lemma_terms_view_drop_last, crate::term::lemma_terms_view_index,
    crate::term::lemma_wf_terms_index;

/// What the token builder currently holds.
#[derive(Clone, Copy, PartialEq, Eq, Structural, Debug)]
pub enum ParseMode {
    Number,
    Literal,
    Idle,
}

/// Everything that can go wrong while parsing a line.
#[derive(Clone, Copy, PartialEq, Eq, Structural, Debug)]
pub enum ParseError {
    /// A numeral starts with `0` not followed by a decimal point.
    LeadingZero,
    /// A numeral holds more than one decimal point.
    MultipleDecimals,
    /// The decimal library rejected the numeral.
    NumberParse,
    /// Parentheses do not balance.
    UnmatchedParens,
    /// An operator or the end of input found no operand to work with.
    NoTerms,
    /// A fold found no enclosing chain or power to merge into.
    NoChainOrPower,
    /// A power node was already given a base.
    PowerHasBase,
    /// The final combination met a term that fits no merge rule.
    InvalidExpr,
    /// A precedence fold met a term that is neither chain nor power.
    InvalidChainPower,
    /// The equation already has two sides.
    TwoSides,
    /// A character the grammar does not know.
    InvalidCharacter(char),
}

/// The parser state carried across characters.
pub struct Parser {
    /// Completed terms awaiting combination, top of stack last.
    pub terms: Vec<Term>,
    /// What the builder currently accumulates.
    pub mode: ParseMode,
    /// Precedence of the most recently closed operator.
    pub last_priority: i32,
    /// Parenthesis nesting; `(` decrements and `)` increments, since the scan
    /// runs in reverse.
    pub paren: i128,
    /// The in-progress token, in reverse character order.
    pub builder: Vec<char>,
    /// The equation under construction.
    pub equation: Equation,
}

/// The mathematical shape of the parser state.
pub struct ParserV {
    pub terms: Seq<TermV>,
    pub mode: ParseMode,
    pub last_priority: int,
    pub paren: int,
    pub builder: Seq<char>,
    pub left: Option<TermV>,
    pub right: Option<TermV>,
}

impl View for Parser {
    type V = ParserV;

    open spec fn view(&self) -> ParserV {
        ParserV {
            terms: terms_view(self.terms@),
            mode: self.mode,
            last_priority: self.last_priority as int,
            paren: self.paren as int,
            builder: self.builder@,
            left: match self.equation.0 {
                Some(t) => Some(t@),
                None => None,
            },
            right: match self.equation.1 {
                Some(t) => Some(t@),
                None => None,
            },
        }
    }
}

/// All terms the parser holds are well formed.
pub open spec fn wf_parser(p: ParserV) -> bool {
    wf_terms(p.terms) && (match p.left {
        Some(t) => wf_term(t),
        None => true,
    }) && (match p.right {
        Some(t) => wf_term(t),
        None => true,
    })
}

/// The state the parser starts from.
pub open spec fn init_parser_v() -> ParserV {
    ParserV {
        terms: Seq::empty(),
        mode: ParseMode::Idle,
        last_priority: -1,
        paren: 0,
        builder: Seq::empty(),
        left: None,
        right: None,
    }
}

/// A sequence reversed.
pub open spec fn rev_spec(s: Seq<char>) -> Seq<char> {
    Seq::new(s.len(), |i: int| s[s.len() - 1 - i])
}

/// How many decimal points a numeral holds.
pub open spec fn dots(s: Seq<char>) -> nat
    decreases s,
{
    if s.len() == 0 {
        0
    } else {
        dots(s.drop_last()) + if s.last() == '.' {
            1nat
        } else {
            0nat
        }
    }
}

/// Whether a character continues an identifier.
pub open spec fn is_letter(c: char) -> bool {
    ('A' <= c && c <= 'Z') || ('a' <= c && c <= 'z')
}

/// Whether a character continues a numeral.
pub open spec fn is_digit(c: char) -> bool {
    '0' <= c && c <= '9'
}

/// Closing the pending token: a numeral becomes a `Number` (after the
/// leading-zero and single-decimal-point checks), an identifier an `Unknown`.
pub open spec fn builder_end_v(p: ParserV) -> Result<ParserV, ParseError> {
    match p.mode {
        ParseMode::Number => {
            let num = rev_spec(p.builder);
            if num.len() > 1 && num[0] == '0' && num[1] != '.' {
                Err(ParseError::LeadingZero)
            } else if dots(num) > 1 {
                Err(ParseError::MultipleDecimals)
            } else {
                match parse_of(num) {
                    Some(d) => Ok(
                        ParserV {
                            terms: p.terms.push(TermV::Number(d)),
                            mode: ParseMode::Idle,
                            builder: Seq::empty(),
                            ..p
                        },
                    ),
                    None => Err(ParseError::NumberParse),
                }
            }
        },
        ParseMode::Literal => Ok(
            ParserV {
                terms: p.terms.push(TermV::Unknown(rev_spec(p.builder))),
                mode: ParseMode::Idle,
                builder: Seq::empty(),
                ..p
            },
        ),
        ParseMode::Idle => Ok(p),
    }
}

/// One combination step at the end of input: the top term is merged into the
/// term below it. The result carries how much the bounded pass advanced.
pub open spec fn combine_v(terms: Seq<TermV>) -> Result<(Seq<TermV>, int), ParseError>
    recommends
        terms.len() >= 2,
{
    let term = terms.last();
    let rest = terms.drop_last();
    let complex = rest.last();
    if term is Chain && complex is Chain {
        let cp = term->Chain_0;
        let tp = term->Chain_1;
        let cl = complex->Chain_0;
        let tl = complex->Chain_1;
        if cp == cl {
            Ok((rest.update(rest.len() - 1, TermV::Chain(cl, tl + tp)), 1))
        } else if cl == Commutative::Multiply {
            // an additive chain under a multiplicative one
            if tp.len() == 1 {
                Ok((rest.update(rest.len() - 1, TermV::Chain(cl, tl.push(tp.last()))), 1))
            } else {
                Ok((rest.update(rest.len() - 1, TermV::Chain(cl, tl.push(term))), 1))
            }
        } else {
            // a multiplicative chain under an additive one: requeue at the front
            Ok((seq![term] + rest, 2))
        }
    } else if complex is Power {
        if complex->Power_0 is Some {
            Err(ParseError::PowerHasBase)
        } else {
            Ok(
                (
                    rest.update(
                        rest.len() - 1,
                        TermV::Power(Some(Box::new(term)), complex->Power_1),
                    ),
                    1,
                ),
            )
        }
    } else if complex is Chain {
        let cl = complex->Chain_0;
        let tl = complex->Chain_1;
        Ok((rest.update(rest.len() - 1, TermV::Chain(cl, tl.push(term))), 1))
    } else {
        Err(ParseError::InvalidExpr)
    }
}

/// The bounded combination pass: merge the two topmost terms again and again,
/// no more often than the initial stack depth allows.
pub open spec fn combine_loop_v(terms: Seq<TermV>, count: int, len: int) -> Result<
    Seq<TermV>,
    ParseError,
>
    decreases len - count,
{
    if terms.len() < 2 {
        Ok(terms)
    } else {
        match combine_v(terms) {
            Err(e) => Err(e),
            Ok((ts, inc)) => {
                let c = count + inc;
                if c >= len {
                    Ok(ts)
                } else {
                    combine_loop_v(ts, c, len)
                }
            },
        }
    }
}

/// End of input: flush the pending token, reject unbalanced parentheses, run
/// the combination pass, wrap leftovers in one additive chain, and hand the
/// single result to whichever equation side is still unset (the right one
/// first, since the scan ran in reverse).
pub open spec fn end_v(p: ParserV) -> Result<ParserV, ParseError> {
    match builder_end_v(p) {
        Err(e) => Err(e),
        Ok(p1) => {
            if p1.paren != 0 {
                Err(ParseError::UnmatchedParens)
            } else {
                match combine_loop_v(p1.terms, 0, p1.terms.len() as int) {
                    Err(e) => Err(e),
                    Ok(ts0) => {
                        let ts = if ts0.len() > 1 {
                            seq![TermV::Chain(Commutative::Add, ts0)]
                        } else {
                            ts0
                        };
                        if ts.len() == 0 {
                            Err(ParseError::NoTerms)
                        } else if p1.right is None {
                            Ok(ParserV { terms: ts.drop_last(), right: Some(ts.last()), ..p1 })
                        } else {
                            Ok(ParserV { terms: ts.drop_last(), left: Some(ts.last()), ..p1 })
                        }
                    },
                }
            }
        },
    }
}

/// Opening a fresh chain (or a base-less power) to host the upcoming operand.
pub open spec fn new_chain_v(p: ParserV, oper: Operator, priority: int) -> Result<
    ParserV,
    ParseError,
> {
    if p.terms.len() == 0 {
        Err(ParseError::NoTerms)
    } else {
        let last = p.terms.last();
        let rest = p.terms.drop_last();
        let term = if oper == Operator::Power {
            TermV::Power(None, Box::new(last))
        } else {
            TermV::Chain(to_com_spec(oper), seq![to_com_term_spec(oper, last)])
        };
        Ok(ParserV { terms: rest.push(term), last_priority: priority, ..p })
    }
}

/// An operator: fold by precedence, then open a new chain. Equal precedence
/// merges the top term into the chain below (wrapping subtraction and
/// division into their commutative forms); lower precedence nests it without
/// merging.
pub open spec fn step_oper_v(p: ParserV, oper: Operator) -> Result<ParserV, ParseError> {
    let priority = priority_spec(oper);
    if priority <= p.last_priority {
        let same = priority == p.last_priority;
        if p.terms.len() == 0 {
            Err(ParseError::NoTerms)
        } else {
            let last0 = p.terms.last();
            let rest = p.terms.drop_last();
            let last = if same {
                to_com_term_spec(oper, last0)
            } else {
                last0
            };
            if rest.len() == 0 {
                Err(ParseError::NoChainOrPower)
            } else if rest.last() is Chain {
                let cl = rest.last()->Chain_0;
                let tl = rest.last()->Chain_1;
                let p2 = ParserV {
                    terms: rest.update(rest.len() - 1, TermV::Chain(cl, tl.push(last))),
                    ..p
                };
                if same {
                    Ok(p2)
                } else {
                    new_chain_v(p2, oper, priority)
                }
            } else if rest.last() is Power {
                let e = rest.last()->Power_1;
                let p2 = ParserV {
                    terms: rest.update(rest.len() - 1, TermV::Power(Some(Box::new(last)), e)),
                    ..p
                };
                if same {
                    Ok(p2)
                } else {
                    new_chain_v(p2, oper, priority)
                }
            } else {
                Err(ParseError::InvalidChainPower)
            }
        }
    } else {
        new_chain_v(p, oper, priority)
    }
}

/// One character of input, after the pending token was closed.
pub open spec fn step_rest_v(p: ParserV, c: char) -> Result<ParserV, ParseError> {
    if c == '=' {
        if p.right is Some {
            Err(ParseError::TwoSides)
        } else {
            end_v(ParserV { last_priority: 0, ..p })
        }
    } else if from_char_spec(c) is Some && c != '=' {
        step_oper_v(p, from_char_spec(c).unwrap())
    } else if c == '(' {
        Ok(ParserV { paren: p.paren - 1, last_priority: 999, ..p })
    } else if c == ')' {
        Ok(ParserV { paren: p.paren + 1, last_priority: 0, ..p })
    } else if c == ' ' {
        Ok(p)
    } else {
        Err(ParseError::InvalidCharacter(c))
    }
}

/// One character of input.
pub open spec fn step_v(p: ParserV, c: char) -> Result<ParserV, ParseError> {
    if is_letter(c) && (p.mode is Idle || p.mode is Literal) {
        Ok(ParserV { mode: ParseMode::Literal, builder: p.builder.push(c), ..p })
    } else if is_digit(c) && (p.mode is Idle || p.mode is Number) {
        Ok(ParserV { mode: ParseMode::Number, builder: p.builder.push(c), ..p })
    } else if c == '.' && p.mode is Number {
        Ok(ParserV { builder: p.builder.push(c), ..p })
    } else {
        match builder_end_v(p) {
            Err(e) => Err(e),
            Ok(p1) => step_rest_v(p1, c),
        }
    }
}

/// The characters `s[0..i]`, processed from the last one backwards.
pub open spec fn run_from_v(p: ParserV, s: Seq<char>, i: int) -> Result<ParserV, ParseError>
    decreases i,
{
    if i <= 0 {
        Ok(p)
    } else {
        match step_v(p, s[i - 1]) {
            Ok(p2) => run_from_v(p2, s, i - 1),
            Err(e) => Err(e),
        }
    }
}

/// What parsing a whole line yields.
pub open spec fn parse_v(s: Seq<char>) -> Result<EquationV, ParseError> {
    match run_from_v(init_parser_v(), s, s.len() as int) {
        Err(e) => Err(e),
        Ok(p) => match end_v(p) {
            Err(e) => Err(e),
            Ok(p2) => Ok(EquationV { left: p2.left, right: p2.right }),
        },
    }
}

/// A copy of the characters in reverse order.
fn reversed(v: &Vec<char>) -> (r: Vec<char>)
    ensures
        r@ == rev_spec(v@),
{
    let mut out: Vec<char> = Vec::new();
    let mut i: usize = v.len();
    while i > 0
        invariant
            i <= v.len(),
            out@.len() == v@.len() - i,
            forall|j: int| 0 <= j < out@.len() ==> out@[j] == v@[v@.len() - 1 - j],
        decreases i,
    {
        i = i - 1;
        out.push(v[i]);
    }
    proof {
        assert(out@ =~= rev_spec(v@));
    }
    out
}

/// How many decimal points the characters hold.
fn count_dots(v: &Vec<char>) -> (r: usize)
    ensures
        r as nat == dots(v@),
{
    let mut n: usize = 0;
    let mut i: usize = 0;
    while i < v.len()
        invariant
            i <= v.len(),
            n <= i,
            n as nat == dots(v@.subrange(0, i as int)),
        decreases v.len() - i,
    {
        proof {
            assert(v@.subrange(0, i as int + 1).drop_last() =~= v@.subrange(0, i as int));
            assert(v@.subrange(0, i as int + 1).last() == v@[i as int]);
        }
        if v[i] == '.' {
            n = n + 1;
        }
        i = i + 1;
    }
    proof {
        assert(v@.subrange(0, v@.len() as int) =~= v@);
    }
    n
}

impl Parser {
    /// A parser with nothing read yet.
    pub fn new() -> (r: Parser)
        ensures
            r@ == init_parser_v(),
            wf_parser(r@),
    {
        let p = Parser {
            terms: Vec::new(),
            mode: ParseMode::Idle,
            last_priority: -1,
            paren: 0,
            builder: Vec::new(),
            equation: Equation(None, None),
        };
        proof {
            assert(terms_view(p.terms@) =~= Seq::<TermV>::empty());
        }
        p
    }

    /// Closes the pending numeral or identifier into a completed term.
    fn builder_end(&mut self) -> (r: Result<(), ParseError>)
        requires
            wf_parser(old(self)@),
        ensures
            builder_end_v(old(self)@) matches Ok(p) ==> r is Ok && final(self)@ == p && wf_parser(
                p,
            ),
            builder_end_v(old(self)@) matches Err(e) ==> r == Err::<(), ParseError>(e),
    {
        match self.mode {
            ParseMode::Number => {
                let num = reversed(&self.builder);
                if num.len() > 1 {
                    let c0 = num[0];
                    let c1 = num[1];
                    if c0 == '0' && c1 != '.' {
                        return Err(ParseError::LeadingZero);
                    }
                }
                if count_dots(&num) > 1 {
                    return Err(ParseError::MultipleDecimals);
                }
                match dec_parse(num.as_slice()) {
                    Some(d) => {
                        self.builder = Vec::new();
                        self.mode = ParseMode::Idle;
                        let ghost before = self.terms@;
                        self.terms.push(Term::Number(d));
                        proof {
                            lemma_terms_view_push(before, Term::Number(d));
                            assert(self.terms@.drop_last() =~= before);
                            lemma_wf_terms_index(terms_view(before));
                            lemma_wf_terms_index(terms_view(self.terms@));
                            lemma_terms_view_index(before);
                            lemma_terms_view_index(self.terms@);
                        }
                        Ok(())
                    },
                    None => Err(ParseError::NumberParse),
                }
            },
            ParseMode::Literal => {
                let name = reversed(&self.builder);
                self.builder = Vec::new();
                self.mode = ParseMode::Idle;
                let ghost before = self.terms@;
                let ghost namev = name@;
                self.terms.push(Term::Unknown(name));
                proof {
                    assert(self.terms@.drop_last() =~= before);
                    assert(term_view(self.terms@.last()) == TermV::Unknown(namev));
                    assert(terms_view(self.terms@) =~= terms_view(before).push(
                        TermV::Unknown(namev),
                    ));
                    lemma_wf_terms_index(terms_view(before));
                    lemma_wf_terms_index(terms_view(self.terms@));
                    lemma_terms_view_index(before);
                    lemma_terms_view_index(self.terms@);
                }
                Ok(())
            },
            ParseMode::Idle => Ok(()),
        }
    }

    /// Finishes the scan: flushes the token, rejects unbalanced parentheses,
    /// combines the remaining stack and fills the open equation side.
    #[verifier::loop_isolation(false)]
    fn end(&mut self) -> (r: Result<(), ParseError>)
        requires
            wf_parser(old(self)@),
        ensures
            end_v(old(self)@) matches Ok(p) ==> r is Ok && final(self)@ == p && wf_parser(p),
            end_v(old(self)@) matches Err(e) ==> r == Err::<(), ParseError>(e),
    {
        match self.builder_end() {
            Err(e) => {
                return Err(e);
            },
            Ok(()) => {},
        }
        if self.paren != 0 {
            return Err(ParseError::UnmatchedParens);
        }
        let ghost p1 = self@;
        let ghost start_terms = self@.terms;
        let len: usize = self.terms.len();
        let len128: u128 = len as u128;
        let mut count: u128 = 0;
        proof {
            lemma_terms_view_index(self.terms@);
            assert(start_terms.len() == len as int);
            assert(builder_end_v(old(self)@) == Ok::<ParserV, ParseError>(p1));
            assert(p1.terms == start_terms);
            assert(p1.paren == 0);
        }
        while self.terms.len() >= 2 && count < len128
            invariant
                wf_terms(terms_view(self.terms@)),
                count <= len128 + 1,
                len128 == len as u128,
                self.mode == p1.mode,
                self.builder@ == p1.builder,
                self.paren as int == p1.paren,
                self.last_priority as int == p1.last_priority,
                self@.left == p1.left,
                self@.right == p1.right,
                combine_loop_v(start_terms, 0, len as int) == (if terms_view(self.terms@).len() < 2
                    || count < len128 {
                    combine_loop_v(terms_view(self.terms@), count as int, len as int)
                } else {
                    Ok::<Seq<TermV>, ParseError>(terms_view(self.terms@))
                }),
            decreases len128 + 2 - count,
        {
            let ghost cur = terms_view(self.terms@);
            let ghost count0 = count;
            proof {
                lemma_terms_view_index(self.terms@);
                lemma_wf_terms_index(cur);
            }
            let term = self.terms.pop().unwrap();
            let complex = self.terms.pop().unwrap();
            let ghost rest = cur.drop_last();
            proof {
                assert(terms_view(self.terms@) =~= rest.drop_last());
                assert(term_view(term) == cur.last());
                assert(term_view(complex) == rest.last());
            }
            let inc: u128;
            match (term, complex) {
                (Term::Chain(cp, mut tp), Term::Chain(cl, mut tl)) => {
                    let ghost tpv = terms_view(tp@);
                    let ghost tlv = terms_view(tl@);
                    let ghost tl0 = tl@;
                    let ghost tp0 = tp@;
                    if cp == cl {
                        tl.append(&mut tp);
                        proof {
                            assert(tl@ == tl0 + tp0);
                            lemma_terms_view_concat(tl0, tp0);
                        }
                        let merged = Term::Chain(cl, tl);
                        let ghost mv = term_view(merged);
                        let ghost v2 = self.terms@;
                        self.terms.push(merged);
                        inc = 1;
                        proof {
                            assert(mv == TermV::Chain(cl, tlv + tpv));
                            assert(terms_view(self.terms@) == terms_view(v2).push(mv));
                            assert(terms_view(v2) =~= rest.drop_last());
                            assert(terms_view(self.terms@) =~= rest.update(
                                rest.len() - 1,
                                TermV::Chain(cl, tlv + tpv),
                            ));
                            assert(combine_v(cur) == Ok::<(Seq<TermV>, int), ParseError>(
                                (terms_view(self.terms@), 1),
                            ));
                            lemma_wf_terms_index(tlv);
                            lemma_wf_terms_index(tpv);
                            lemma_wf_terms_index(tlv + tpv);
                            assert(wf_term(mv));
                        }
                    } else if cl == Commutative::Multiply {
                        if tp.len() == 1 {
                            let x = tp.pop().unwrap();
                            proof {
                                assert(x == tp0.last());
                                assert(term_view(x) == tpv.last());
                            }
                            let ghost tl1 = tl@;
                            tl.push(x);
                            proof {
                                assert(tl@ == tl1.push(x));
                                assert(tl1 == tl0);
                                assert(terms_view(tl@) == tlv.push(term_view(x)));
                            }
                            let merged = Term::Chain(cl, tl);
                            let ghost mv = term_view(merged);
                            proof {
                                assert(mv == TermV::Chain(cl, tlv.push(tpv.last())));
                            }
                            let ghost v2 = self.terms@;
                            self.terms.push(merged);
                            inc = 1;
                            proof {
                                assert(self.terms@ == v2.push(merged));
                                assert(terms_view(self.terms@) == terms_view(v2).push(mv));
                                assert(terms_view(v2) =~= rest.drop_last());
                                assert(terms_view(self.terms@) =~= rest.update(
                                    rest.len() - 1,
                                    TermV::Chain(cl, tlv.push(tpv.last())),
                                ));
                                assert(combine_v(cur) == Ok::<(Seq<TermV>, int), ParseError>(
                                    (terms_view(self.terms@), 1),
                                ));
                                lemma_wf_terms_index(tlv);
                                lemma_wf_terms_index(tpv);
                                lemma_wf_terms_index(tlv.push(tpv.last()));
                                assert(wf_term(mv));
                            }
                        } else {
                            let inner = Term::Chain(cp, tp);
                            let ghost iv = term_view(inner);
                            proof {
                                assert(iv == TermV::Chain(cp, tpv));
                            }
                            tl.push(inner);
                            proof {
                                assert(terms_view(tl@) == tlv.push(iv));
                            }
                            let merged = Term::Chain(cl, tl);
                            let ghost mv = term_view(merged);
                            let ghost v2 = self.terms@;
                            self.terms.push(merged);
                            inc = 1;
                            proof {
                                assert(terms_view(self.terms@) == terms_view(v2).push(mv));
                                assert(terms_view(v2) =~= rest.drop_last());
                                assert(terms_view(self.terms@) =~= rest.update(
                                    rest.len() - 1,
                                    TermV::Chain(cl, tlv.push(TermV::Chain(cp, tpv))),
                                ));
                                assert(combine_v(cur) == Ok::<(Seq<TermV>, int), ParseError>(
                                    (terms_view(self.terms@), 1),
                                ));
                                lemma_wf_terms_index(tlv);
                                lemma_wf_terms_index(tpv);
                                lemma_wf_terms_index(tlv.push(TermV::Chain(cp, tpv)));
                                assert(wf_term(mv));
                            }
                        }
                    } else {
                        let back = Term::Chain(cl, tl);
                        let ghost bv = term_view(back);
                        let front = Term::Chain(cp, tp);
                        let ghost fv = term_view(front);
                        let ghost v2 = self.terms@;
                        self.terms.push(back);
                        let ghost v3 = self.terms@;
                        self.terms.insert(0, front);
                        inc = 2;
                        proof {
                            assert(bv == TermV::Chain(cl, tlv));
                            assert(fv == TermV::Chain(cp, tpv));
                            assert(terms_view(v3) == terms_view(v2).push(bv));
                            assert(terms_view(v2) =~= rest.drop_last());
                            assert(terms_view(v3) =~= rest);
                            lemma_terms_view_index(v3);
                            lemma_terms_view_index(self.terms@);
                            assert(self.terms@ == v3.insert(0, front));
                            assert(terms_view(self.terms@) =~= seq![TermV::Chain(cp, tpv)] + rest);
                            assert(combine_v(cur) == Ok::<(Seq<TermV>, int), ParseError>(
                                (terms_view(self.terms@), 2),
                            ));
                            lemma_wf_terms_index(tlv);
                            lemma_wf_terms_index(tpv);
                            assert(wf_term(fv));
                            assert(wf_term(bv));
                        }
                    }
                },
                (term, Term::Power(base, e)) => {
                    if base.is_some() {
                        proof {
                            assert(combine_v(cur) == Err::<(Seq<TermV>, int), ParseError>(
                                ParseError::PowerHasBase,
                            ));
                            assert(combine_loop_v(cur, count as int, len as int) == Err::<
                                Seq<TermV>,
                                ParseError,
                            >(ParseError::PowerHasBase));
                            assert(cur.len() >= 2);
                            assert(combine_loop_v(start_terms, 0, len as int) == Err::<
                                Seq<TermV>,
                                ParseError,
                            >(ParseError::PowerHasBase));
                            assert(end_v(old(self)@) == Err::<ParserV, ParseError>(
                                ParseError::PowerHasBase,
                            ));
                        }
                        return Err(ParseError::PowerHasBase);
                    }
                    let ghost ev = term_view(*e);
                    let ghost termv = term_view(term);
                    let merged = Term::Power(Some(Box::new(term)), e);
                    let ghost mv = term_view(merged);
                    let ghost v2 = self.terms@;
                    self.terms.push(merged);
                    inc = 1;
                    proof {
                        assert(mv == TermV::Power(Some(Box::new(termv)), Box::new(ev)));
                        assert(terms_view(self.terms@) == terms_view(v2).push(mv));
                        assert(terms_view(v2) =~= rest.drop_last());
                        assert(terms_view(self.terms@) =~= rest.update(
                            rest.len() - 1,
                            TermV::Power(Some(Box::new(termv)), Box::new(ev)),
                        ));
                        assert(combine_v(cur) == Ok::<(Seq<TermV>, int), ParseError>(
                            (terms_view(self.terms@), 1),
                        ));
                        assert(wf_term(mv));
                    }
                },
                (term, Term::Chain(cl, mut tl)) => {
                    let ghost tlv = terms_view(tl@);
                    let ghost termv = term_view(term);
                    tl.push(term);
                    proof {
                        assert(terms_view(tl@) == tlv.push(termv));
                    }
                    let merged = Term::Chain(cl, tl);
                    let ghost mv = term_view(merged);
                    let ghost v2 = self.terms@;
                    self.terms.push(merged);
                    inc = 1;
                    proof {
                        assert(terms_view(self.terms@) == terms_view(v2).push(mv));
                        assert(terms_view(v2) =~= rest.drop_last());
                        assert(terms_view(self.terms@) =~= rest.update(
                            rest.len() - 1,
                            TermV::Chain(cl, tlv.push(termv)),
                        ));
                        assert(combine_v(cur) == Ok::<(Seq<TermV>, int), ParseError>(
                            (terms_view(self.terms@), 1),
                        ));
                        lemma_wf_terms_index(tlv);
                        lemma_wf_terms_index(tlv.push(termv));
                        assert(wf_term(mv));
                    }
                },
                _ => {
                    proof {
                        assert(combine_v(cur) == Err::<(Seq<TermV>, int), ParseError>(
                            ParseError::InvalidExpr,
                        ));
                        assert(combine_loop_v(cur, count as int, len as int) == Err::<
                            Seq<TermV>,
                            ParseError,
                        >(ParseError::InvalidExpr));
                        assert(cur.len() >= 2);
                        assert(combine_loop_v(start_terms, 0, len as int) == Err::<
                            Seq<TermV>,
                            ParseError,
                        >(ParseError::InvalidExpr));
                        assert(end_v(old(self)@) == Err::<ParserV, ParseError>(
                            ParseError::InvalidExpr,
                        ));
                    }
                    return Err(ParseError::InvalidExpr);
                },
            }
            count = count + inc;
            proof {
                lemma_wf_terms_index(cur);
                lemma_wf_terms_index(rest);
                let nv = terms_view(self.terms@);
                lemma_wf_terms_index(nv);
                lemma_terms_view_index(self.terms@);
                assert(wf_terms(rest));
                assert forall|j: int| 0 <= j < nv.len() implies wf_term(#[trigger] nv[j]) by {
                    lemma_wf_terms_index(rest);
                }
                assert(wf_terms(nv));
                assert(combine_loop_v(cur, count0 as int, len as int) == (if count >= len128 {
                    Ok::<Seq<TermV>, ParseError>(nv)
                } else {
                    combine_loop_v(nv, count as int, len as int)
                }));
                if count >= len128 && nv.len() < 2 {
                    assert(combine_loop_v(nv, count as int, len as int) == Ok::<
                        Seq<TermV>,
                        ParseError,
                    >(nv));
                }
            }
        }
        proof {
            assert(combine_loop_v(start_terms, 0, len as int) == Ok::<Seq<TermV>, ParseError>(
                terms_view(self.terms@),
            ));
        }
        if self.terms.len() > 1 {
            let ghost pre_wrap = terms_view(self.terms@);
            let mut all: Vec<Term> = Vec::new();
            all.append(&mut self.terms);
            let chain = Term::Chain(Commutative::Add, all);
            let ghost chv = term_view(chain);
            self.terms.push(chain);
            proof {
                assert(chv == TermV::Chain(Commutative::Add, pre_wrap));
                assert(terms_view(self.terms@) =~= seq![
                    TermV::Chain(Commutative::Add, pre_wrap),
                ]);
            }
        }
        proof {
            lemma_terms_view_index(self.terms@);
            lemma_wf_terms_index(terms_view(self.terms@));
        }
        let side = match self.terms.pop() {
            Some(t) => t,
            None => {
                return Err(ParseError::NoTerms);
            },
        };
        if self.equation.1.is_none() {
            self.equation.1 = Some(side);
        } else {
            self.equation.0 = Some(side);
        }
        Ok(())
    }

    /// Opens a fresh chain, or a base-less power, for the next operand.
    fn new_chain(&mut self, oper: Operator) -> (r: Result<(), ParseError>)
        requires
            wf_parser(old(self)@),
            oper != Operator::Equals,
        ensures
            new_chain_v(old(self)@, oper, priority_spec(oper)) matches Ok(p) ==> r is Ok
                && final(self)@ == p && wf_parser(p),
            new_chain_v(old(self)@, oper, priority_spec(oper)) matches Err(e) ==> r == Err::<
                (),
                ParseError,
            >(e),
    {
        proof {
            lemma_terms_view_index(self.terms@);
            lemma_wf_terms_index(terms_view(self.terms@));
        }
        let priority = oper.priority();
        let last = match self.terms.pop() {
            Some(t) => t,
            None => {
                return Err(ParseError::NoTerms);
            },
        };
        let ghost lastv = term_view(last);
        let ghost rest = terms_view(old(self).terms@).drop_last();
        proof {
            assert(terms_view(self.terms@) =~= rest);
        }
        let term = match oper {
            Operator::Power => Term::Power(None, Box::new(last)),
            _ => {
                let wrapped = oper.to_com_term(last);
                let ghost wv = term_view(wrapped);
                let mut v: Vec<Term> = Vec::new();
                v.push(wrapped);
                proof {
                    assert(terms_view(v@).drop_last() =~= terms_view(Seq::<Term>::empty()));
                    assert(terms_view(v@) =~= seq![wv]);
                }
                Term::Chain(oper.to_com(), v)
            },
        };
        let ghost termv = term_view(term);
        proof {
            if oper == Operator::Power {
                assert(termv == TermV::Power(None, Box::new(lastv)));
            } else {
                assert(termv == TermV::Chain(
                    to_com_spec(oper),
                    seq![to_com_term_spec(oper, lastv)],
                ));
            }
            assert(lastv == terms_view(old(self).terms@).last());
        }
        self.terms.push(term);
        self.last_priority = priority;
        proof {
            assert(terms_view(self.terms@) =~= rest.push(termv));
            lemma_wf_terms_index(rest);
            lemma_wf_terms_index(terms_view(self.terms@));
            lemma_terms_view_index(self.terms@);
            if oper != Operator::Power {
                lemma_wf_terms_index(seq![to_com_term_spec(oper, lastv)]);
            }
            assert(wf_term(lastv));
            assert(wf_term(termv));
            let pv = new_chain_v(old(self)@, oper, priority_spec(oper));
            assert(pv is Ok);
            let p2 = pv->Ok_0;
            assert(self@ == p2);
            assert(wf_parser(p2));
        }
        Ok(())
    }

    /// Folds by precedence and opens the chain for an operator character.
    fn step_oper(&mut self, oper: Operator) -> (r: Result<(), ParseError>)
        requires
            wf_parser(old(self)@),
            oper != Operator::Equals,
        ensures
            step_oper_v(old(self)@, oper) matches Ok(p) ==> r is Ok && final(self)@ == p
                && wf_parser(p),
            step_oper_v(old(self)@, oper) matches Err(e) ==> r == Err::<(), ParseError>(e),
    {
        let priority = oper.priority();
        if priority <= self.last_priority {
            let same = priority == self.last_priority;
            proof {
                lemma_terms_view_index(self.terms@);
                lemma_wf_terms_index(terms_view(self.terms@));
            }
            let last0 = match self.terms.pop() {
                Some(t) => t,
                None => {
                    return Err(ParseError::NoTerms);
                },
            };
            let last = if same {
                oper.to_com_term(last0)
            } else {
                last0
            };
            let ghost lastv = term_view(last);
            proof {
                lemma_terms_view_index(self.terms@);
                lemma_wf_terms_index(terms_view(self.terms@));
            }
            let ghost rest = terms_view(old(self).terms@).drop_last();
            proof {
                assert(terms_view(self.terms@) =~= rest);
            }
            let complex = match self.terms.pop() {
                Some(t) => t,
                None => {
                    return Err(ParseError::NoChainOrPower);
                },
            };
            proof {
                assert(term_view(complex) == rest.last());
                assert(terms_view(self.terms@) =~= rest.drop_last());
            }
            match complex {
                Term::Chain(cl, mut tl) => {
                    let ghost tlv = terms_view(tl@);
                    tl.push(last);
                    proof {
                        assert(terms_view(tl@) == tlv.push(lastv));
                    }
                    let merged = Term::Chain(cl, tl);
                    let ghost mv = term_view(merged);
                    let ghost v2 = self.terms@;
                    self.terms.push(merged);
                    proof {
                        assert(terms_view(self.terms@) == terms_view(v2).push(mv));
                        assert(terms_view(v2) =~= rest.drop_last());
                        assert(terms_view(self.terms@) =~= rest.update(
                            rest.len() - 1,
                            TermV::Chain(cl, tlv.push(lastv)),
                        ));
                        lemma_wf_terms_index(tlv);
                        lemma_wf_terms_index(terms_view(tl@));
                        lemma_terms_view_index(tl@);
                        lemma_wf_terms_index(rest);
                        lemma_wf_terms_index(terms_view(self.terms@));
                        lemma_terms_view_index(self.terms@);
                        assert(wf_term(lastv));
                        assert(wf_term(TermV::Chain(cl, tlv.push(lastv))));
                        assert(wf_parser(self@));
                    }
                },
                Term::Power(_, e) => {
                    let ghost ev = term_view(*e);
                    let merged = Term::Power(Some(Box::new(last)), e);
                    let ghost mv = term_view(merged);
                    let ghost v2 = self.terms@;
                    self.terms.push(merged);
                    proof {
                        assert(mv == TermV::Power(Some(Box::new(lastv)), Box::new(ev)));
                        assert(terms_view(self.terms@) == terms_view(v2).push(mv));
                        assert(terms_view(v2) =~= rest.drop_last());
                        assert(terms_view(self.terms@) =~= rest.update(
                            rest.len() - 1,
                            TermV::Power(Some(Box::new(lastv)), Box::new(ev)),
                        ));
                        lemma_wf_terms_index(rest);
                        lemma_wf_terms_index(terms_view(self.terms@));
                        lemma_terms_view_index(self.terms@);
                        assert(wf_term(lastv));
                        assert(wf_term(TermV::Power(Some(Box::new(lastv)), Box::new(ev))));
                        assert(wf_parser(self@));
                    }
                },
                _ => {
                    return Err(ParseError::InvalidChainPower);
                },
            }
            if same {
                return Ok(());
            }
            self.new_chain(oper)
        } else {
            self.new_chain(oper)
        }
    }

    /// Feeds one character of input, scanned in reverse order.
    pub fn step(&mut self, c: char) -> (r: Result<(), ParseError>)
        requires
            wf_parser(old(self)@),
            -0x1_0000_0000_0000_0000_0000 <= old(self).paren
                <= 0x1_0000_0000_0000_0000_0000,
        ensures
            step_v(old(self)@, c) matches Ok(p) ==> r is Ok && final(self)@ == p && wf_parser(p),
            step_v(old(self)@, c) matches Err(e) ==> r == Err::<(), ParseError>(e),
    {
        let letter = ('A' <= c && c <= 'Z') || ('a' <= c && c <= 'z');
        let digit = '0' <= c && c <= '9';
        if letter && (self.mode == ParseMode::Idle || self.mode == ParseMode::Literal) {
            self.mode = ParseMode::Literal;
            self.builder.push(c);
            return Ok(());
        }
        if digit && (self.mode == ParseMode::Idle || self.mode == ParseMode::Number) {
            self.mode = ParseMode::Number;
            self.builder.push(c);
            return Ok(());
        }
        if c == '.' && self.mode == ParseMode::Number {
            self.builder.push(c);
            return Ok(());
        }
        match self.builder_end() {
            Err(e) => {
                return Err(e);
            },
            Ok(()) => {},
        }
        if c == '=' {
            if self.equation.1.is_some() {
                return Err(ParseError::TwoSides);
            }
            self.last_priority = 0;
            return self.end();
        }
        match Operator::from_char(c) {
            Some(oper) => {
                return self.step_oper(oper);
            },
            None => {},
        }
        if c == '(' {
            self.paren = self.paren - 1;
            self.last_priority = 999;
            return Ok(());
        }
        if c == ')' {
            self.paren = self.paren + 1;
            self.last_priority = 0;
            return Ok(());
        }
        if c == ' ' {
            return Ok(());
        }
        Err(ParseError::InvalidCharacter(c))
    }
}

/// Parses a line of text into an equation; exactly `parse_v` of its
/// characters.
pub fn parse(s: &str) -> (r: Result<Equation, ParseError>)
    ensures
        r matches Ok(eq) ==> parse_v(s@) == Ok::<EquationV, ParseError>(eq@) && wf_equation(eq@),
        r matches Err(e) ==> parse_v(s@) == Err::<EquationV, ParseError>(e),
{
    let chars = crate::term::str_to_chars(s);
    let mut parser = Parser::new();
    let mut i: usize = chars.len();
    while i > 0
        invariant
            i <= chars@.len(),
            chars@ == s@,
            wf_parser(parser@),
            -(chars@.len() - i) <= parser@.paren <= chars@.len() - i,
            run_from_v(init_parser_v(), s@, s@.len() as int) == run_from_v(
                parser@,
                s@,
                i as int,
            ),
        decreases i,
    {
        let c = chars[i - 1];
        match parser.step(c) {
            Ok(()) => {},
            Err(e) => {
                return Err(e);
            },
        }
        i = i - 1;
    }
    match parser.end() {
        Ok(()) => Ok(parser.equation),
        Err(e) => Err(e),
    }
}

} // verus!
