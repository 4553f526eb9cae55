//! The engine's laws, stated over the denotation [`run`] and proved once
//! and for all: rollback correctness of alternation, totality of `maybe`,
//! the repetition guarantees, and completeness of the integer literal.

use vstd::prelude::*;

verus! {

use crate::ast::AstView;
use crate::parser::{ParserView, Step, run, run_star};
use crate::value::{ValView, PredOp, is_digit_char, digits_value, item_chars, pred_spec};
use crate::grammar::number_view;

/// Alternation backtracks correctly: where `a` fails, `or(a, b)` denotes
/// exactly what running `b` alone from the original position denotes —
/// the same outcome, value and cursor movement.
pub proof fn lemma_or_backtracks(a: ParserView, b: ParserView, text: Seq<char>, pos: int)
    requires
        0 <= pos <= text.len(),
        run(a, text, pos) is Failure,
    ensures
        run(ParserView::Or(Box::new(a), Box::new(b)), text, pos) == run(b, text, pos),
{
}

/// `maybe(p)` always succeeds unless `p` aborts fatally; where `p` fails,
/// the result is the absent value and the cursor is unchanged from before
/// `p` ran; a fatal outcome of `p` propagates unchanged.
pub proof fn lemma_maybe_total(p: ParserView, text: Seq<char>, pos: int)
    requires
        0 <= pos <= text.len(),
    ensures
        !(run(p, text, pos) is Fatal) ==> run(ParserView::Maybe(Box::new(p)), text, pos)
            is Success,
        run(p, text, pos) is Failure ==> run(ParserView::Maybe(Box::new(p)), text, pos) == (
        Step::Success { value: ValView::Nothing, start: pos, end: pos, used: 0 }),
        run(p, text, pos) is Fatal ==> run(ParserView::Maybe(Box::new(p)), text, pos) == run(
            p,
            text,
            pos,
        ),
{
}

/// `one_or_more(p)` whose first attempt fails propagates that failure,
/// and the cursor stands at its original position: no partial consumption
/// leaks out.
pub proof fn lemma_one_or_more_first_failure(p: ParserView, text: Seq<char>, pos: int)
    requires
        0 <= pos <= text.len(),
        run(p, text, pos) is Failure,
    ensures
        run(ParserView::OneOrMore(Box::new(p)), text, pos) == run(p, text, pos),
{
    reveal_with_fuel(run, 2);
}

/// `zero_or_more(p)` returns the empty collection — a success, not a
/// failure — where `p` never matches.
pub proof fn lemma_zero_or_more_empty(p: ParserView, text: Seq<char>, pos: int)
    requires
        0 <= pos <= text.len(),
        run(p, text, pos) is Failure,
    ensures
        run(ParserView::ZeroOrMore(Box::new(p)), text, pos) == (Step::Success {
            value: ValView::List(Seq::empty()),
            start: pos,
            end: pos,
            used: 0,
        }),
{
    reveal_with_fuel(run, 2);
    reveal_with_fuel(run_star, 2);
}

/// `zero_or_more(p)` never aborts fatally unless some attempt of `p`
/// itself does.
pub proof fn lemma_zero_or_more_no_fatal(p: ParserView, text: Seq<char>, pos: int)
    requires
        0 <= pos <= text.len(),
        forall|q: int| pos <= q <= text.len() ==> !((#[trigger] run(p, text, q)) is Fatal),
    ensures
        !(run(ParserView::ZeroOrMore(Box::new(p)), text, pos) is Fatal),
    decreases text.len() - pos,
{
    reveal_with_fuel(run, 2);
    reveal_with_fuel(run_star, 2);
    match run(p, text, pos) {
        Step::Success { value, start, end, used } => {
            if used == 0 || pos + used > text.len() {
            } else {
                lemma_zero_or_more_no_fatal(p, text, pos + used);
            }
        },
        Step::Failure { at } => {},
        Step::Fatal { at, used } => {},
    }
}

/// Repeating the digit-character parser over an all-digit suffix
/// collects exactly that suffix, character by character, and stops at
/// the end of the text.
proof fn lemma_digit_star(text: Seq<char>, pos: int)
    requires
        0 <= pos <= text.len(),
        forall|i: int| 0 <= i < text.len() ==> is_digit_char(#[trigger] text[i]),
    ensures
        ({
            let st = run_star(ParserView::When(Box::new(ParserView::Any), PredOp::Digit), text, pos);
            &&& st is Success
            &&& st->Success_value is List
            &&& st->Success_start == pos
            &&& st->Success_end == text.len()
            &&& st->Success_used == text.len() - pos
            &&& st->Success_value->List_0.len() == text.len() - pos
            &&& forall|i: int|
                0 <= i < text.len() - pos ==> st->Success_value->List_0[i] == ValView::Ch(
                    text[pos + i],
                )
        }),
    decreases text.len() - pos,
{
    let p = ParserView::When(Box::new(ParserView::Any), PredOp::Digit);
    reveal_with_fuel(run, 2);
    reveal_with_fuel(run_star, 2);
    if pos == text.len() {
    } else {
        lemma_digit_star(text, pos + 1);
        assert(run(ParserView::Any, text, pos) == (Step::Success {
            value: ValView::Ch(text[pos]),
            start: pos,
            end: pos + 1,
            used: 1nat,
        }));
        assert(pred_spec(PredOp::Digit, ValView::Ch(text[pos])));
        assert(run(p, text, pos) == (Step::Success {
            value: ValView::Ch(text[pos]),
            start: pos,
            end: pos + 1,
            used: 1nat,
        }));
        let rest = run_star(p, text, pos + 1)->Success_value->List_0;
        let st = run_star(p, text, pos);
        assert(run_star(p, text, pos + 1) is Success);
        assert(st->Success_value->List_0 == seq![ValView::Ch(text[pos])] + rest);
        assert forall|i: int| 0 <= i < text.len() - pos implies st->Success_value->List_0[i]
            == ValView::Ch(text[pos + i]) by {
            if i > 0 {
                assert((seq![ValView::Ch(text[pos])] + rest)[i] == rest[i - 1]);
            }
        }
    }
}

/// One-or-more digit characters on an all-digit text collects every
/// character of the text.
proof fn lemma_digit_one_or_more(text: Seq<char>)
    requires
        text.len() >= 1,
        forall|i: int| 0 <= i < text.len() ==> is_digit_char(#[trigger] text[i]),
    ensures
        ({
            let st = run(
                ParserView::OneOrMore(
                    Box::new(ParserView::When(Box::new(ParserView::Any), PredOp::Digit)),
                ),
                text,
                0,
            );
            &&& st is Success
            &&& st->Success_value is List
            &&& st->Success_start == 0
            &&& st->Success_end == text.len()
            &&& st->Success_used == text.len()
            &&& st->Success_value->List_0.len() == text.len()
            &&& forall|i: int|
                0 <= i < text.len() ==> st->Success_value->List_0[i] == ValView::Ch(text[i])
        }),
{
    reveal_with_fuel(run, 2);
    reveal_with_fuel(run_star, 2);
    let p = ParserView::When(Box::new(ParserView::Any), PredOp::Digit);
    lemma_digit_star(text, 1);
    assert(run(ParserView::Any, text, 0) == (Step::Success {
        value: ValView::Ch(text[0]),
        start: 0,
        end: 1,
        used: 1nat,
    }));
    assert(pred_spec(PredOp::Digit, ValView::Ch(text[0])));
    assert(run(p, text, 0) == (Step::Success {
        value: ValView::Ch(text[0]),
        start: 0,
        end: 1,
        used: 1nat,
    }));
    let rest = run_star(p, text, 1)->Success_value->List_0;
    let st = run(ParserView::OneOrMore(Box::new(p)), text, 0);
    assert(run_star(p, text, 1) is Success);
    assert(st->Success_value->List_0 == seq![ValView::Ch(text[0])] + rest);
    assert forall|i: int| 0 <= i < text.len() implies st->Success_value->List_0[i]
        == ValView::Ch(text[i]) by {
        if i > 0 {
            assert((seq![ValView::Ch(text[0])] + rest)[i] == rest[i - 1]);
            assert(rest[i - 1] == ValView::Ch(text[1 + (i - 1)]));
        }
    }
}

/// The digit transform turns a list of exactly the text's digit
/// characters into the integer node of the text's numeric value.
proof fn lemma_digit_map(items: Seq<ValView>, text: Seq<char>)
    requires
        items.len() == text.len(),
        forall|i: int| 0 <= i < text.len() ==> #[trigger] items[i] == ValView::Ch(text[i]),
        forall|i: int| 0 <= i < text.len() ==> is_digit_char(#[trigger] text[i]),
        digits_value(text) <= i64::MAX,
    ensures
        crate::value::map_op_spec(crate::value::MapOp::DigitsToInt, ValView::List(items))
            == Some(ValView::Node(AstView::Integer(digits_value(text) as i64))),
{
    assert forall|i: int| 0 <= i < items.len() implies (#[trigger] items[i]) is Ch
        && is_digit_char(items[i]->Ch_0) by {
        assert(items[i] == ValView::Ch(text[i]));
    }
    assert(item_chars(items) =~= text);
    crate::value::lemma_digits_nonneg(text);
}

/// The integer literal is complete: on any run of one or more ASCII
/// digits whose numeric interpretation fits in `i64`, `number_literal`
/// succeeds with exactly that value, and its end offset equals the length
/// of the digit run.  (A run whose value exceeds `i64::MAX` — twenty
/// nines, say — is rejected instead.)
pub proof fn lemma_number_literal_complete(text: Seq<char>)
    requires
        text.len() >= 1,
        forall|i: int| 0 <= i < text.len() ==> is_digit_char(#[trigger] text[i]),
        digits_value(text) <= i64::MAX,
    ensures
        run(number_view(), text, 0) == (Step::Success {
            value: ValView::Node(AstView::Integer(digits_value(text) as i64)),
            start: 0,
            end: text.len() as int,
            used: text.len(),
        }),
{
    lemma_digit_one_or_more(text);
    let inner = ParserView::OneOrMore(
        Box::new(ParserView::When(Box::new(ParserView::Any), PredOp::Digit)),
    );
    let st = run(inner, text, 0);
    lemma_digit_map(st->Success_value->List_0, text);
}

} // verus!
