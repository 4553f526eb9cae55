//! The combinator engine.
//!
//! A [`Parser`] is a first-order value: a tree of combinator nodes that one
//! evaluator, [`Parser::parse`], interprets against an [`Input`] cursor.
//! The meaning of every node is pinned by the specification function
//! [`run`]; the evaluator's contract says that it returns exactly what
//! `run` denotes and moves the cursor exactly as `run` prescribes.
//!
//! The shared discipline: a combinator that returns `Failure` leaves the
//! cursor where it started (rollback), while `Fatal` propagates unchanged
//! and may leave the cursor mid-input.

use vstd::prelude::*;

verus! {

use crate::input::{Input, match_at, mismatch_pos};
use crate::output::Output;
use crate::text::copy_chars;
use crate::value::{
    Val,
    ValView,
    val_view,
    vals_view,
    lemma_vals_view,
    MapOp,
    PredOp,
    map_op_spec,
    pred_spec,
    map_apply,
    pred_check,
};

/// A composable, reusable parser: a tree of combinator nodes.
pub enum Parser {
    /// Zero-width success with a fixed value.
    Unit(Val),
    /// The literal characters, matched exactly.
    Exact(Vec<char>),
    /// Any single character.
    Any,
    /// The next character, without consuming it.
    Peek,
    /// One specific character.
    The(char),
    /// The inner parser with a named transform applied to its value.
    Mapped(Box<Parser>, MapOp),
    /// The inner parser, then the continuation (see [`Next`]).
    Bind(Box<Parser>, Next),
    /// The inner parser, rejected as a failure where the named predicate
    /// does not hold of its value.
    When(Box<Parser>, PredOp),
    /// The inner parser, with failure turned into a zero-width absent
    /// value.
    Maybe(Box<Parser>),
    /// The inner parser repeated greedily; never fails.
    ZeroOrMore(Box<Parser>),
    /// The inner parser repeated greedily; fails if the first attempt
    /// fails.
    OneOrMore(Box<Parser>),
    /// The first parser, or the second from the same position if the first
    /// fails; a fatal first branch is propagated without trying the
    /// second.
    Or(Box<Parser>, Box<Parser>),
    /// The inner parser with failure escalated to a fatal outcome: a
    /// commitment point.
    Fatal(Box<Parser>),
}

/// The continuation of a [`Parser::Bind`] node: the parser run after the
/// bound one, and which of the two values the sequence produces.
pub enum Next {
    /// Keep the first parser's value; the continuation's value is
    /// discarded.
    First(Box<Parser>),
    /// Keep the continuation's value; the first parser's value is
    /// discarded.
    Second(Box<Parser>),
}

/// Mathematical model of a [`Parser`], with text as character sequences.
pub ghost enum ParserView {
    Unit(ValView),
    Exact(Seq<char>),
    Any,
    Peek,
    The(char),
    Mapped(Box<ParserView>, MapOp),
    Bind(Box<ParserView>, NextView),
    When(Box<ParserView>, PredOp),
    Maybe(Box<ParserView>),
    ZeroOrMore(Box<ParserView>),
    OneOrMore(Box<ParserView>),
    Or(Box<ParserView>, Box<ParserView>),
    Fatal(Box<ParserView>),
}

/// Mathematical model of a [`Next`] continuation.
pub ghost enum NextView {
    First(Box<ParserView>),
    Second(Box<ParserView>),
}

/// The model of a parser tree.
pub open spec fn parser_view(p: Parser) -> ParserView
    decreases p,
{
    match p {
        Parser::Unit(v) => ParserView::Unit(val_view(v)),
        Parser::Exact(cs) => ParserView::Exact(cs@),
        Parser::Any => ParserView::Any,
        Parser::Peek => ParserView::Peek,
        Parser::The(c) => ParserView::The(c),
        Parser::Mapped(inner, op) => ParserView::Mapped(Box::new(parser_view(*inner)), op),
        Parser::Bind(first, k) => ParserView::Bind(Box::new(parser_view(*first)), next_view(k)),
        Parser::When(inner, op) => ParserView::When(Box::new(parser_view(*inner)), op),
        Parser::Maybe(inner) => ParserView::Maybe(Box::new(parser_view(*inner))),
        Parser::ZeroOrMore(inner) => ParserView::ZeroOrMore(Box::new(parser_view(*inner))),
        Parser::OneOrMore(inner) => ParserView::OneOrMore(Box::new(parser_view(*inner))),
        Parser::Or(a, b) => ParserView::Or(Box::new(parser_view(*a)), Box::new(parser_view(*b))),
        Parser::Fatal(inner) => ParserView::Fatal(Box::new(parser_view(*inner))),
    }
}

/// The model of a continuation.
pub open spec fn next_view(k: Next) -> NextView
    decreases k,
{
    match k {
        Next::First(p) => NextView::First(Box::new(parser_view(*p))),
        Next::Second(p) => NextView::Second(Box::new(parser_view(*p))),
    }
}

/// What running a parser at a position denotes.
///
/// * `Success` — the value's model, the produced range `[start, end)`, and
///   `used`, the number of characters consumed from the starting position.
/// * `Failure` — the reported position; the cursor stands where it
///   started.
/// * `Fatal` — the reported position and how far the cursor was left past
///   the starting position.
pub ghost enum Step {
    Success { value: ValView, start: int, end: int, used: nat },
    Failure { at: int },
    Fatal { at: int, used: nat },
}

/// The denotation of a parser on `text` at `pos`.
///
/// Repetition stops at the first failed attempt, and also at a success
/// that consumes nothing, so that a zero-width parser cannot repeat
/// forever.  The `pos + used > text.len()` guards are never taken — no
/// outcome consumes past the end of the text — and only make termination
/// of this definition evident.
pub open spec fn run(p: ParserView, text: Seq<char>, pos: int) -> Step
    recommends
        0 <= pos <= text.len(),
    decreases text.len() - pos, p, 0int,
{
    match p {
        ParserView::Unit(v) => Step::Success { value: v, start: pos, end: pos, used: 0 },
        ParserView::Exact(s) => {
            if pos >= text.len() {
                Step::Failure { at: text.len() as int }
            } else if match_at(text, pos, s) {
                Step::Success {
                    value: ValView::Txt(s),
                    start: pos,
                    end: pos + s.len(),
                    used: s.len(),
                }
            } else {
                Step::Failure { at: mismatch_pos(text, pos, s) }
            }
        },
        ParserView::Any => {
            if pos < text.len() {
                Step::Success { value: ValView::Ch(text[pos]), start: pos, end: pos + 1, used: 1 }
            } else {
                Step::Failure { at: text.len() as int }
            }
        },
        ParserView::Peek => {
            if pos < text.len() {
                Step::Success { value: ValView::Ch(text[pos]), start: pos, end: pos, used: 0 }
            } else {
                Step::Failure { at: text.len() as int }
            }
        },
        ParserView::The(c) => {
            if pos < text.len() {
                if text[pos] == c {
                    Step::Success { value: ValView::Ch(c), start: pos, end: pos + 1, used: 1 }
                } else {
                    Step::Failure { at: pos }
                }
            } else {
                Step::Failure { at: text.len() as int }
            }
        },
        ParserView::Mapped(inner, op) => match run(*inner, text, pos) {
            Step::Success { value, start, end, used } => match map_op_spec(op, value) {
                Option::Some(w) => Step::Success { value: w, start, end, used },
                Option::None => Step::Failure { at: start },
            },
            Step::Failure { at } => Step::Failure { at },
            Step::Fatal { at, used } => Step::Fatal { at, used },
        },
        ParserView::Bind(first, k) => {
            let q = match k {
                NextView::First(b) => *b,
                NextView::Second(b) => *b,
            };
            match run(*first, text, pos) {
                Step::Success { value: v1, start: s1, end: e1, used: u1 } => {
                    if pos + u1 <= text.len() {
                        match run(q, text, pos + u1) {
                            Step::Success { value: v2, start: s2, end: e2, used: u2 } => {
                                Step::Success {
                                    value: if k is First {
                                        v1
                                    } else {
                                        v2
                                    },
                                    start: s2,
                                    end: e2,
                                    used: (u1 + u2) as nat,
                                }
                            },
                            Step::Failure { at } => Step::Failure { at },
                            Step::Fatal { at, used: u2 } => Step::Fatal {
                                at,
                                used: (u1 + u2) as nat,
                            },
                        }
                    } else {
                        Step::Failure { at: pos }
                    }
                },
                Step::Failure { at } => Step::Failure { at },
                Step::Fatal { at, used } => Step::Fatal { at, used },
            }
        },
        ParserView::When(inner, op) => match run(*inner, text, pos) {
            Step::Success { value, start, end, used } => {
                if pred_spec(op, value) {
                    Step::Success { value, start, end, used }
                } else {
                    Step::Failure { at: start }
                }
            },
            Step::Failure { at } => Step::Failure { at },
            Step::Fatal { at, used } => Step::Fatal { at, used },
        },
        ParserView::Maybe(inner) => match run(*inner, text, pos) {
            Step::Success { value, start, end, used } => Step::Success {
                value: ValView::Just(Box::new(value)),
                start,
                end,
                used,
            },
            Step::Failure { at } => Step::Success {
                value: ValView::Nothing,
                start: pos,
                end: pos,
                used: 0,
            },
            Step::Fatal { at, used } => Step::Fatal { at, used },
        },
        ParserView::ZeroOrMore(inner) => run_star(*inner, text, pos),
        ParserView::OneOrMore(inner) => match run(*inner, text, pos) {
            Step::Success { value: v, start, end, used: u } => {
                if pos + u <= text.len() {
                    match run_star(*inner, text, pos + u) {
                        Step::Success { value: rest, start: s2, end: e2, used: u2 } => {
                            Step::Success {
                                value: ValView::List(seq![v] + rest->List_0),
                                start: pos,
                                end: pos + u + u2,
                                used: (u + u2) as nat,
                            }
                        },
                        Step::Failure { at } => Step::Failure { at },
                        Step::Fatal { at, used: u2 } => Step::Fatal {
                            at,
                            used: (u + u2) as nat,
                        },
                    }
                } else {
                    Step::Failure { at: pos }
                }
            },
            Step::Failure { at } => Step::Failure { at },
            Step::Fatal { at, used } => Step::Fatal { at, used },
        },
        ParserView::Or(a, b) => match run(*a, text, pos) {
            Step::Success { value, start, end, used } => Step::Success {
                value,
                start,
                end,
                used,
            },
            Step::Failure { at } => run(*b, text, pos),
            Step::Fatal { at, used } => Step::Fatal { at, used },
        },
        ParserView::Fatal(inner) => match run(*inner, text, pos) {
            Step::Success { value, start, end, used } => Step::Success {
                value,
                start,
                end,
                used,
            },
            Step::Failure { at } => Step::Fatal { at, used: 0 },
            Step::Fatal { at, used } => Step::Fatal { at, used },
        },
    }
}

/// The denotation of greedy repetition of `p` at `pos`: the collected
/// values of each successful attempt, stopping at the first failure or at
/// a success that consumes nothing; a fatal attempt aborts the whole
/// repetition.
pub open spec fn run_star(p: ParserView, text: Seq<char>, pos: int) -> Step
    recommends
        0 <= pos <= text.len(),
    decreases text.len() - pos, p, 1int,
{
    match run(p, text, pos) {
        Step::Failure { at } => Step::Success {
            value: ValView::List(Seq::empty()),
            start: pos,
            end: pos,
            used: 0,
        },
        Step::Fatal { at, used } => Step::Fatal { at, used },
        Step::Success { value: v, start, end, used: u } => {
            if u == 0 || pos + u > text.len() {
                Step::Success {
                    value: ValView::List(Seq::empty()),
                    start: pos,
                    end: pos,
                    used: 0,
                }
            } else {
                match run_star(p, text, pos + u) {
                    Step::Success { value: rest, start: s2, end: e2, used: u2 } => Step::Success {
                        value: ValView::List(seq![v] + rest->List_0),
                        start: pos,
                        end: pos + u + u2,
                        used: (u + u2) as nat,
                    },
                    Step::Failure { at } => Step::Failure { at },
                    Step::Fatal { at, used: u2 } => Step::Fatal { at, used: (u + u2) as nat },
                }
            }
        },
    }
}

/// Repetition never fails, always yields a collected list spanning
/// `[pos, pos + used)`, and never consumes past the end of the text.
pub proof fn lemma_run_star_shape(p: ParserView, text: Seq<char>, pos: int)
    requires
        0 <= pos <= text.len(),
    ensures
        !(run_star(p, text, pos) is Failure),
        run_star(p, text, pos) matches Step::Success { value, start, end, used } ==> (value is List
            && start == pos && end == pos + used && pos + used <= text.len()),
    decreases text.len() - pos,
{
    match run(p, text, pos) {
        Step::Success { value: v, start, end, used: u } => {
            if u == 0 || pos + u > text.len() {
            } else {
                lemma_run_star_shape(p, text, pos + u);
            }
        },
        Step::Failure { at } => {},
        Step::Fatal { at, used } => {},
    }
}

/// How the repetition already performed combines with what repetition
/// still denotes from the current position: `prefix` values were collected
/// between `pos0` and `cur`, and `rest` is the denotation from `cur`.
pub open spec fn star_extend(prefix: Seq<ValView>, pos0: int, cur: int, rest: Step) -> Step {
    match rest {
        Step::Success { value, start, end, used } => Step::Success {
            value: ValView::List(prefix + value->List_0),
            start: pos0,
            end: cur + used,
            used: (cur - pos0 + used) as nat,
        },
        Step::Failure { at } => Step::Failure { at },
        Step::Fatal { at, used } => Step::Fatal { at, used: (cur - pos0 + used) as nat },
    }
}

/// Whether an evaluator outcome and cursor movement agree with a
/// denotation: `pos0` is the cursor position before the call and `pos1`
/// after it.
pub open spec fn outcome_matches(step: Step, r: Output<Val>, pos0: int, pos1: int) -> bool {
    match step {
        Step::Success { value, start, end, used } => r matches Output::Success(v, s, e)
            && val_view(v) == value && s as int == start && e as int == end && pos1 == pos0
            + used,
        Step::Failure { at } => r matches Output::Failure(i) && i as int == at && pos1 == pos0,
        Step::Fatal { at, used } => r matches Output::Fatal(i) && i as int == at && pos1 == pos0
            + used,
    }
}

/// A character value models as exactly that character.
proof fn lemma_ch_view(c: char)
    ensures
        val_view(Val::Ch(c)) == ValView::Ch(c),
{
}

/// A zero-width parser that always succeeds with `t`.
pub fn unit(t: Val) -> (p: Parser)
    ensures
        parser_view(p) == ParserView::Unit(val_view(t)),
{
    Parser::Unit(t)
}

/// A parser for the literal string `s`.
pub fn exact(s: &str) -> (p: Parser)
    ensures
        parser_view(p) == ParserView::Exact(s@),
{
    Parser::Exact(crate::text::text_chars(s))
}

/// A parser for one specific character.
pub fn the(c: char) -> (p: Parser)
    ensures
        parser_view(p) == ParserView::The(c),
{
    Parser::The(c)
}

/// A parser for any single character.
pub fn any() -> (p: Parser)
    ensures
        parser_view(p) == ParserView::Any,
{
    Parser::Any
}

/// A parser that reads the next character without consuming it.
pub fn peek() -> (p: Parser)
    ensures
        parser_view(p) == ParserView::Peek,
{
    Parser::Peek
}

/// Sequencing: runs `pa`, then the continuation, rolling back to the
/// start if either part fails.
pub fn bind(pa: Parser, next: Next) -> (p: Parser)
    ensures
        parser_view(p) == ParserView::Bind(Box::new(parser_view(pa)), next_view(next)),
{
    Parser::Bind(Box::new(pa), next)
}

impl Parser {
    /// Escalates failure of `self` into a fatal outcome: a commitment
    /// point that alternation may not mask.
    pub fn fatal(self) -> (p: Parser)
        ensures
            parser_view(p) == ParserView::Fatal(Box::new(parser_view(self))),
    {
        Parser::Fatal(Box::new(self))
    }

    /// Applies a named transform to the value of `self`.
    pub fn map(self, op: MapOp) -> (p: Parser)
        ensures
            parser_view(p) == ParserView::Mapped(Box::new(parser_view(self)), op),
    {
        Parser::Mapped(Box::new(self), op)
    }

    /// Rejects the value of `self` as a failure where the named predicate
    /// does not hold.
    pub fn when(self, op: PredOp) -> (p: Parser)
        ensures
            parser_view(p) == ParserView::When(Box::new(parser_view(self)), op),
    {
        Parser::When(Box::new(self), op)
    }

    /// Makes `self` optional: failure becomes a zero-width absent value.
    pub fn maybe(self) -> (p: Parser)
        ensures
            parser_view(p) == ParserView::Maybe(Box::new(parser_view(self))),
    {
        Parser::Maybe(Box::new(self))
    }

    /// Repeats `self` greedily; an empty collection is still a success.
    pub fn zero_or_more(self) -> (p: Parser)
        ensures
            parser_view(p) == ParserView::ZeroOrMore(Box::new(parser_view(self))),
    {
        Parser::ZeroOrMore(Box::new(self))
    }

    /// Repeats `self` greedily, failing if the first attempt fails.
    pub fn one_or_more(self) -> (p: Parser)
        ensures
            parser_view(p) == ParserView::OneOrMore(Box::new(parser_view(self))),
    {
        Parser::OneOrMore(Box::new(self))
    }

    /// Tries `self`, and on failure `other` from the same position; a
    /// fatal outcome of `self` is propagated without trying `other`.
    pub fn or(self, other: Parser) -> (p: Parser)
        ensures
            parser_view(p) == ParserView::Or(
                Box::new(parser_view(self)),
                Box::new(parser_view(other)),
            ),
    {
        Parser::Or(Box::new(self), Box::new(other))
    }

    /// Runs this parser against a cursor.  The outcome and the cursor
    /// movement are exactly what [`run`] denotes: on `Failure` the cursor
    /// is back where it started; on `Success` and `Fatal` it has advanced
    /// by the denoted consumption.
    #[verifier::loop_isolation(false)]
    #[verifier::rlimit(100)]
    pub fn parse(&self, input: &mut Input) -> (r: Output<Val>)
        requires
            old(input).wf(),
        ensures
            final(input).wf(),
            final(input).text_view() == old(input).text_view(),
            outcome_matches(
                run(parser_view(*self), old(input).text_view(), old(input).at()),
                r,
                old(input).at(),
                final(input).at(),
            ),
        decreases old(input).text_view().len() - old(input).at(), self, 0int,
    {
        match self {
            Parser::Unit(v) => {
                let p_off: usize = input.offset();
                {
                    let r = Output::Success(v.dup(), p_off, p_off);
                    proof {
                        assert(outcome_matches(
                            run(parser_view(*self), old(input).text_view(), old(input).at()),
                            r,
                            old(input).at(),
                            input.at(),
                        ));
                    }
                    r
                }
            },
            Parser::Exact(cs) => {
                match input.exact_chars(cs) {
                    Ok((a, b)) => {
                        let r = Output::Success(Val::Txt(copy_chars(cs)), a, b);
                        proof {
                            assert(outcome_matches(
                                run(parser_view(*self), old(input).text_view(), old(input).at()),
                                r,
                                old(input).at(),
                                input.at(),
                            ));
                        }
                        r
                    },
                    Err(m) => {
                        let r = Output::Failure::<Val>(m);
                        proof {
                            assert(outcome_matches(
                                run(parser_view(*self), old(input).text_view(), old(input).at()),
                                r,
                                old(input).at(),
                                input.at(),
                            ));
                        }
                        r
                    },
                }
            },
            Parser::Any => {
                match input.get_char() {
                    Ok((i, c)) => {
                        proof {
                            lemma_ch_view(c);
                        }
                        {
                            let r = Output::Success(Val::Ch(c), i, i + 1);
                            proof {
                                assert(outcome_matches(
                                    run(parser_view(*self), old(input).text_view(), old(input).at()),
                                    r,
                                    old(input).at(),
                                    input.at(),
                                ));
                            }
                            r
                        }
                    },
                    Err(l) => {
                        let r = Output::Failure::<Val>(l);
                        proof {
                            assert(outcome_matches(
                                run(parser_view(*self), old(input).text_view(), old(input).at()),
                                r,
                                old(input).at(),
                                input.at(),
                            ));
                        }
                        r
                    },
                }
            },
            Parser::Peek => {
                match input.peek() {
                    Ok((i, c)) => {
                        proof {
                            lemma_ch_view(c);
                        }
                        {
                            let r = Output::Success(Val::Ch(c), i, i);
                            proof {
                                assert(outcome_matches(
                                    run(parser_view(*self), old(input).text_view(), old(input).at()),
                                    r,
                                    old(input).at(),
                                    input.at(),
                                ));
                            }
                            r
                        }
                    },
                    Err(l) => {
                        let r = Output::Failure::<Val>(l);
                        proof {
                            assert(outcome_matches(
                                run(parser_view(*self), old(input).text_view(), old(input).at()),
                                r,
                                old(input).at(),
                                input.at(),
                            ));
                        }
                        r
                    },
                }
            },
            Parser::The(c) => {
                let rp = input.restore_point();
                match input.get_char() {
                    Ok((i, ch)) => {
                        if ch == *c {
                            proof {
                                lemma_ch_view(ch);
                            }
                            {
                                let r = Output::Success(Val::Ch(ch), i, i + 1);
                                proof {
                                    assert(outcome_matches(
                                        run(parser_view(*self), old(input).text_view(), old(input).at()),
                                        r,
                                        old(input).at(),
                                        input.at(),
                                    ));
                                }
                                r
                            }
                        } else {
                            input.restore(rp);
                            {
                                let r = Output::Failure::<Val>(i);
                                proof {
                                    assert(outcome_matches(
                                        run(parser_view(*self), old(input).text_view(), old(input).at()),
                                        r,
                                        old(input).at(),
                                        input.at(),
                                    ));
                                }
                                r
                            }
                        }
                    },
                    Err(l) => {
                        let r = Output::Failure::<Val>(l);
                        proof {
                            assert(outcome_matches(
                                run(parser_view(*self), old(input).text_view(), old(input).at()),
                                r,
                                old(input).at(),
                                input.at(),
                            ));
                        }
                        r
                    },
                }
            },
            Parser::Mapped(inner, op) => {
                let rp = input.restore_point();
                match inner.parse(input) {
                    Output::Success(v, a, b) => {
                        match map_apply(op, v) {
                            Option::Some(w) => {
                                let r = Output::Success(w, a, b);
                                proof {
                                    assert(outcome_matches(
                                        run(parser_view(*self), old(input).text_view(), old(input).at()),
                                        r,
                                        old(input).at(),
                                        input.at(),
                                    ));
                                }
                                r
                            },
                            Option::None => {
                                input.restore(rp);
                                {
                                    let r = Output::Failure::<Val>(a);
                                    proof {
                                        assert(outcome_matches(
                                            run(parser_view(*self), old(input).text_view(), old(input).at()),
                                            r,
                                            old(input).at(),
                                            input.at(),
                                        ));
                                    }
                                    r
                                }
                            },
                        }
                    },
                    Output::Failure(ix) => {
                        input.restore(rp);
                        {
                            let r = Output::Failure::<Val>(ix);
                            proof {
                                assert(outcome_matches(
                                    run(parser_view(*self), old(input).text_view(), old(input).at()),
                                    r,
                                    old(input).at(),
                                    input.at(),
                                ));
                            }
                            r
                        }
                        },
                    Output::Fatal(ix) => {
                        let r = Output::Fatal::<Val>(ix);
                        proof {
                            assert(outcome_matches(
                                run(parser_view(*self), old(input).text_view(), old(input).at()),
                                r,
                                old(input).at(),
                                input.at(),
                            ));
                        }
                        r
                    },
                }
            },
            Parser::Bind(first, k) => {
                let rp = input.restore_point();
                match first.parse(input) {
                    Output::Success(v1, _a1, _b1) => {
                        let q: &Parser = match k {
                            Next::First(b) => &**b,
                            Next::Second(b) => &**b,
                        };
                        proof {
                            let text0 = old(input).text_view();
                            let pos0 = old(input).at();
                            let step1 = run(parser_view(**first), text0, pos0);
                            assert(step1 is Success);
                            assert(pos0 + step1->Success_used <= text0.len());
                            let kv = next_view(*k);
                            let sq = match kv {
                                NextView::First(bb) => *bb,
                                NextView::Second(bb) => *bb,
                            };
                            assert(sq == parser_view(*q));
                            assert(parser_view(*self) == ParserView::Bind(
                                Box::new(parser_view(**first)),
                                kv,
                            ));
                        }
                        match q.parse(input) {
                            Output::Success(v2, a2, b2) => {
                                let r = match k {
                                    Next::First(_) => Output::Success(v1, a2, b2),
                                    Next::Second(_) => Output::Success(v2, a2, b2),
                                };
                                proof {
                                    assert(outcome_matches(
                                        run(
                                            parser_view(*self),
                                            old(input).text_view(),
                                            old(input).at(),
                                        ),
                                        r,
                                        old(input).at(),
                                        input.at(),
                                    ));
                                }
                                r
                            },
                            Output::Failure(ix) => {
                                input.restore(rp);
                                {
                                    let r = Output::Failure::<Val>(ix);
                                    proof {
                                        assert(outcome_matches(
                                            run(parser_view(*self), old(input).text_view(), old(input).at()),
                                            r,
                                            old(input).at(),
                                            input.at(),
                                        ));
                                    }
                                    r
                                }
                                },
                            Output::Fatal(ix) => {
                                let r = Output::Fatal::<Val>(ix);
                                proof {
                                    assert(outcome_matches(
                                        run(parser_view(*self), old(input).text_view(), old(input).at()),
                                        r,
                                        old(input).at(),
                                        input.at(),
                                    ));
                                }
                                r
                            },
                        }
                    },
                    Output::Failure(ix) => {
                        input.restore(rp);
                        {
                            let r = Output::Failure::<Val>(ix);
                            proof {
                                assert(outcome_matches(
                                    run(parser_view(*self), old(input).text_view(), old(input).at()),
                                    r,
                                    old(input).at(),
                                    input.at(),
                                ));
                            }
                            r
                        }
                        },
                    Output::Fatal(ix) => {
                        let r = Output::Fatal::<Val>(ix);
                        proof {
                            assert(outcome_matches(
                                run(parser_view(*self), old(input).text_view(), old(input).at()),
                                r,
                                old(input).at(),
                                input.at(),
                            ));
                        }
                        r
                    },
                }
            },
            Parser::When(inner, op) => {
                let rp = input.restore_point();
                match inner.parse(input) {
                    Output::Success(v, a, b) => {
                        if pred_check(op, &v) {
                            {
                                let r = Output::Success(v, a, b);
                                proof {
                                    assert(outcome_matches(
                                        run(parser_view(*self), old(input).text_view(), old(input).at()),
                                        r,
                                        old(input).at(),
                                        input.at(),
                                    ));
                                }
                                r
                            }
                        } else {
                            input.restore(rp);
                            {
                                let r = Output::Failure::<Val>(a);
                                proof {
                                    assert(outcome_matches(
                                        run(parser_view(*self), old(input).text_view(), old(input).at()),
                                        r,
                                        old(input).at(),
                                        input.at(),
                                    ));
                                }
                                r
                            }
                        }
                    },
                    Output::Failure(ix) => {
                        input.restore(rp);
                        {
                            let r = Output::Failure::<Val>(ix);
                            proof {
                                assert(outcome_matches(
                                    run(parser_view(*self), old(input).text_view(), old(input).at()),
                                    r,
                                    old(input).at(),
                                    input.at(),
                                ));
                            }
                            r
                        }
                        },
                    Output::Fatal(ix) => {
                        let r = Output::Fatal::<Val>(ix);
                        proof {
                            assert(outcome_matches(
                                run(parser_view(*self), old(input).text_view(), old(input).at()),
                                r,
                                old(input).at(),
                                input.at(),
                            ));
                        }
                        r
                    },
                }
            },
            Parser::Maybe(inner) => {
                let rp = input.restore_point();
                match inner.parse(input) {
                    Output::Success(v, a, b) => {
                        let r = Output::Success(Val::Just(Box::new(v)), a, b);
                        proof {
                            assert(outcome_matches(
                                run(parser_view(*self), old(input).text_view(), old(input).at()),
                                r,
                                old(input).at(),
                                input.at(),
                            ));
                        }
                        r
                    },
                    Output::Failure(_ix) => {
                        input.restore(rp);
                        let p_off: usize = input.offset();
                        {
                            let r = Output::Success(Val::Nothing, p_off, p_off);
                            proof {
                                assert(outcome_matches(
                                    run(parser_view(*self), old(input).text_view(), old(input).at()),
                                    r,
                                    old(input).at(),
                                    input.at(),
                                ));
                            }
                            r
                        }
                    },
                    Output::Fatal(ix) => {
                        let r = Output::Fatal::<Val>(ix);
                        proof {
                            assert(outcome_matches(
                                run(parser_view(*self), old(input).text_view(), old(input).at()),
                                r,
                                old(input).at(),
                                input.at(),
                            ));
                        }
                        r
                    },
                }
            },
            Parser::ZeroOrMore(inner) => {
                let start_off: usize = input.offset();
                let mut items: Vec<Val> = Vec::new();
                proof {
                    lemma_run_star_shape(parser_view(**inner), input.text_view(), input.at());
                }
                match parse_star(inner, input, &mut items) {
                    Option::Some(ix) => {
                        let r = Output::Fatal::<Val>(ix);
                        proof {
                            assert(outcome_matches(
                                run(parser_view(*self), old(input).text_view(), old(input).at()),
                                r,
                                old(input).at(),
                                input.at(),
                            ));
                        }
                        r
                    },
                    Option::None => {
                        let end_off: usize = input.offset();
                        proof {
                            assert(Seq::<ValView>::empty() + run_star(
                                parser_view(**inner),
                                old(input).text_view(),
                                old(input).at(),
                            )->Success_value->List_0 =~= run_star(
                                parser_view(**inner),
                                old(input).text_view(),
                                old(input).at(),
                            )->Success_value->List_0);
                        }
                        {
                            let r = Output::Success(Val::List(items), start_off, end_off);
                            proof {
                                assert(outcome_matches(
                                    run(parser_view(*self), old(input).text_view(), old(input).at()),
                                    r,
                                    old(input).at(),
                                    input.at(),
                                ));
                            }
                            r
                        }
                    },
                }
            },
            Parser::OneOrMore(inner) => {
                let start_off: usize = input.offset();
                let rp = input.restore_point();
                match inner.parse(input) {
                    Output::Failure(ix) => {
                        input.restore(rp);
                        {
                            let r = Output::Failure::<Val>(ix);
                            proof {
                                assert(outcome_matches(
                                    run(parser_view(*self), old(input).text_view(), old(input).at()),
                                    r,
                                    old(input).at(),
                                    input.at(),
                                ));
                            }
                            r
                        }
                        },
                    Output::Fatal(ix) => {
                        let r = Output::Fatal::<Val>(ix);
                        proof {
                            assert(outcome_matches(
                                run(parser_view(*self), old(input).text_view(), old(input).at()),
                                r,
                                old(input).at(),
                                input.at(),
                            ));
                        }
                        r
                    },
                    Output::Success(v, _a, _b) => {
                        let ghost vv = val_view(v);
                        let mut items: Vec<Val> = Vec::new();
                        items.push(v);
                        let ghost base = items@;
                        proof {
                            lemma_run_star_shape(
                                parser_view(**inner),
                                input.text_view(),
                                input.at(),
                            );
                            lemma_vals_view(base);
                            assert(vals_view(base) =~= seq![vv]);
                        }
                        match parse_star(inner, input, &mut items) {
                            Option::Some(ix) => {
                                let r = Output::Fatal::<Val>(ix);
                                proof {
                                    assert(outcome_matches(
                                        run(parser_view(*self), old(input).text_view(), old(input).at()),
                                        r,
                                        old(input).at(),
                                        input.at(),
                                    ));
                                }
                                r
                            },
                            Option::None => {
                                let end_off: usize = input.offset();
                                {
                                    let r = Output::Success(Val::List(items), start_off, end_off);
                                    proof {
                                        assert(outcome_matches(
                                            run(parser_view(*self), old(input).text_view(), old(input).at()),
                                            r,
                                            old(input).at(),
                                            input.at(),
                                        ));
                                    }
                                    r
                                }
                            },
                        }
                    },
                }
            },
            Parser::Or(a, b) => {
                let rp = input.restore_point();
                match a.parse(input) {
                    Output::Success(v, s, e) => {
                        let r = Output::Success(v, s, e);
                        proof {
                            assert(outcome_matches(
                                run(parser_view(*self), old(input).text_view(), old(input).at()),
                                r,
                                old(input).at(),
                                input.at(),
                            ));
                        }
                        r
                    },
                    Output::Failure(_ix) => {
                        input.restore(rp);
                        let r = b.parse(input);
                        proof {
                            assert(outcome_matches(
                                run(parser_view(*self), old(input).text_view(), old(input).at()),
                                r,
                                old(input).at(),
                                input.at(),
                            ));
                        }
                        r
                    },
                    Output::Fatal(ix) => {
                        let r = Output::Fatal::<Val>(ix);
                        proof {
                            assert(outcome_matches(
                                run(parser_view(*self), old(input).text_view(), old(input).at()),
                                r,
                                old(input).at(),
                                input.at(),
                            ));
                        }
                        r
                    },
                }
            },
            Parser::Fatal(inner) => {
                match inner.parse(input) {
                    Output::Success(v, s, e) => {
                        let r = Output::Success(v, s, e);
                        proof {
                            assert(outcome_matches(
                                run(parser_view(*self), old(input).text_view(), old(input).at()),
                                r,
                                old(input).at(),
                                input.at(),
                            ));
                        }
                        r
                    },
                    Output::Failure(ix) => {
                        let r = Output::Fatal::<Val>(ix);
                        proof {
                            assert(outcome_matches(
                                run(parser_view(*self), old(input).text_view(), old(input).at()),
                                r,
                                old(input).at(),
                                input.at(),
                            ));
                        }
                        r
                    },
                    Output::Fatal(ix) => {
                        let r = Output::Fatal::<Val>(ix);
                        proof {
                            assert(outcome_matches(
                                run(parser_view(*self), old(input).text_view(), old(input).at()),
                                r,
                                old(input).at(),
                                input.at(),
                            ));
                        }
                        r
                    },
                }
            },
        }
    }
}

/// Runs `sub` repeatedly from the current position, pushing each
/// successful value onto `items`, stopping at the first failure or at a
/// success that consumes nothing.  Returns the fatal position if an
/// attempt is fatal.
fn parse_star(sub: &Parser, input: &mut Input, items: &mut Vec<Val>) -> (r: Option<usize>)
    requires
        old(input).wf(),
    ensures
        final(input).wf(),
        final(input).text_view() == old(input).text_view(),
        (match run_star(parser_view(*sub), old(input).text_view(), old(input).at()) {
            Step::Success { value, start, end, used } => r is None && final(input).at() == old(
                input,
            ).at() + used && vals_view(final(items)@) == vals_view(old(items)@) + value->List_0,
            Step::Fatal { at, used } => r matches Some(ix) && ix as int == at && final(input).at()
                == old(input).at() + used,
            Step::Failure { at } => false,
        }),
    decreases old(input).text_view().len() - old(input).at(), sub, 1int,
{
    let ghost text = old(input).text_view();
    let ghost pos0 = old(input).at();
    let ghost n0 = old(items)@.len();
    let ghost pv = parser_view(*sub);
    proof {
        lemma_run_star_shape(pv, text, pos0);
        assert(items@.skip(n0 as int) =~= Seq::<Val>::empty());
        match run_star(pv, text, pos0) {
            Step::Success { value, start, end, used } => {
                assert(Seq::<ValView>::empty() + value->List_0 =~= value->List_0);
            },
            _ => {},
        }
    }
    loop
        invariant
            text == old(input).text_view(),
            pos0 == old(input).at(),
            n0 == old(items)@.len(),
            pv == parser_view(*sub),
            input.wf(),
            input.text_view() == text,
            pos0 <= input.at() <= text.len(),
            items@.len() >= n0,
            items@.subrange(0, n0 as int) == old(items)@,
            run_star(pv, text, pos0) == star_extend(
                vals_view(items@.skip(n0 as int)),
                pos0,
                input.at(),
                run_star(pv, text, input.at()),
            ),
        ensures
            input.wf(),
            input.text_view() == text,
            pos0 <= input.at() <= text.len(),
            items@.subrange(0, n0 as int) == old(items)@,
            run_star(pv, text, pos0) == star_extend(
                vals_view(items@.skip(n0 as int)),
                pos0,
                input.at(),
                run_star(pv, text, input.at()),
            ),
            run_star(pv, text, input.at()) == (Step::Success {
                value: ValView::List(Seq::empty()),
                start: input.at(),
                end: input.at(),
                used: 0,
            }),
        decreases text.len() - input.at(),
    {
        let ghost cur = input.at();
        let ghost items_before = items@;
        let rp = input.restore_point();
        let cur_off: usize = input.offset();
        match sub.parse(input) {
            Output::Success(v, _s, _e) => {
                let new_off: usize = input.offset();
                if new_off == cur_off {
                    // A zero-width success ends the repetition; nothing
                    // was consumed, so nothing is collected.
                    break;
                }
                proof {
                    lemma_run_star_shape(pv, text, input.at());
                    let u = (input.at() - cur) as nat;
                    let g_old = vals_view(items_before.skip(n0 as int));
                    let g_new = g_old.push(val_view(v));
                    assert(items_before.push(v).skip(n0 as int) =~= items_before.skip(
                        n0 as int,
                    ).push(v));
                    lemma_vals_view(items_before.skip(n0 as int).push(v));
                    lemma_vals_view(items_before.skip(n0 as int));
                    assert forall|j: int|
                        0 <= j < items_before.skip(n0 as int).push(v).len() implies vals_view(
                        items_before.skip(n0 as int).push(v),
                    )[j] == g_new[j] by {
                        if j < items_before.skip(n0 as int).len() {
                            assert(items_before.skip(n0 as int).push(v)[j] == items_before.skip(
                                n0 as int,
                            )[j]);
                        } else {
                            assert(items_before.skip(n0 as int).push(v)[j] == v);
                        }
                    }
                    assert(vals_view(items_before.skip(n0 as int).push(v)) =~= g_new);
                    match run_star(pv, text, input.at()) {
                        Step::Success { value: rest, start: s2, end: e2, used: u2 } => {
                            assert(g_old + (seq![val_view(v)] + rest->List_0) =~= g_new
                                + rest->List_0);
                        },
                        _ => {},
                    }
                }
                items.push(v);
            },
            Output::Failure(_ix) => {
                input.restore(rp);
                break;
            },
            Output::Fatal(ix) => {
                return Option::Some(ix);
            },
        }
    }
    proof {
        let g = vals_view(items@.skip(n0 as int));
        lemma_vals_view(items@);
        lemma_vals_view(items@.skip(n0 as int));
        lemma_vals_view(old(items)@);
        assert(g + Seq::<ValView>::empty() =~= g);
        assert forall|j: int| 0 <= j < items@.len() implies vals_view(items@)[j] == (vals_view(
            old(items)@,
        ) + g)[j] by {
            if j < n0 {
                assert(items@.subrange(0, n0 as int)[j] == items@[j]);
                assert(old(items)@[j] == items@[j]);
            } else {
                assert(items@.skip(n0 as int)[j - n0] == items@[j]);
            }
        }
        assert(vals_view(items@) =~= vals_view(old(items)@) + g);
    }
    Option::None
}

} // verus!
