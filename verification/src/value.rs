//! The universal value a parser produces, its mathematical model, and the
//! named transforms and predicates the combinators `map` and `when` apply.
//!
//! Transforms and predicates are a fixed vocabulary (an enum interpreted by
//! [`map_apply`] and [`pred_check`]) rather than closures, so that the whole
//! engine stays a first-order value that one evaluator interprets.

use vstd::prelude::*;

verus! {

use crate::ast::{Ast, AstView, ast_view};
use crate::text::{copy_chars, chars_equal_str};

/// A value produced by a parser: a character, a run of text, a syntax node,
/// a collected sequence, an optional result, or the unit value.
#[derive(Debug)]
pub enum Val {
    Nil,
    Ch(char),
    Txt(Vec<char>),
    Node(Ast),
    List(Vec<Val>),
    Nothing,
    Just(Box<Val>),
}

/// Mathematical model of a [`Val`].
pub ghost enum ValView {
    Nil,
    Ch(char),
    Txt(Seq<char>),
    Node(AstView),
    List(Seq<ValView>),
    Nothing,
    Just(Box<ValView>),
}

/// The model of a [`Val`].
pub open spec fn val_view(v: Val) -> ValView
    decreases v,
{
    match v {
        Val::Nil => ValView::Nil,
        Val::Ch(c) => ValView::Ch(c),
        Val::Txt(cs) => ValView::Txt(cs@),
        Val::Node(a) => ValView::Node(ast_view(a)),
        Val::List(items) => ValView::List(vals_view(items@)),
        Val::Nothing => ValView::Nothing,
        Val::Just(b) => ValView::Just(Box::new(val_view(*b))),
    }
}

/// The models of a sequence of values, in order.
pub open spec fn vals_view(s: Seq<Val>) -> Seq<ValView>
    decreases s,
{
    if s.len() == 0 {
        Seq::empty()
    } else {
        seq![val_view(s[0])] + vals_view(s.drop_first())
    }
}

/// `vals_view` is the pointwise model of its argument.
pub proof fn lemma_vals_view(s: Seq<Val>)
    ensures
        vals_view(s).len() == s.len(),
        forall|i: int| 0 <= i < s.len() ==> vals_view(s)[i] == val_view(#[trigger] s[i]),
    decreases s,
{
    if s.len() != 0 {
        lemma_vals_view(s.drop_first());
        assert forall|i: int| 0 <= i < s.len() implies vals_view(s)[i] == val_view(
            #[trigger] s[i],
        ) by {
            if i > 0 {
                assert(vals_view(s)[i] == vals_view(s.drop_first())[i - 1]);
                assert(s.drop_first()[i - 1] == s[i]);
            }
        }
    }
}

impl Val {
    /// A fresh value with the same model as `self`.
    #[verifier::loop_isolation(false)]
    pub fn dup(&self) -> (r: Val)
        ensures
            val_view(r) == val_view(*self),
        decreases self,
    {
        match self {
            Val::Nil => Val::Nil,
            Val::Ch(c) => Val::Ch(*c),
            Val::Txt(cs) => Val::Txt(copy_chars(cs)),
            Val::Node(a) => Val::Node(crate::ast::ast_dup(a)),
            Val::List(items) => {
                let n: usize = items.len();
                let mut out: Vec<Val> = Vec::new();
                let mut i: usize = 0;
                while i < n
                    invariant
                        i <= n,
                        out@.len() == i,
                        forall|j: int| 0 <= j < i ==> val_view(out@[j]) == val_view(items@[j]),
                    decreases n - i,
                {
                    out.push(items[i].dup());
                    i = i + 1;
                }
                proof {
                    lemma_vals_view(out@);
                    lemma_vals_view(items@);
                    assert forall|j: int| 0 <= j < items@.len() implies vals_view(out@)[j]
                        == vals_view(items@)[j] by {
                        assert(val_view(out@[j]) == val_view(items@[j]));
                    }
                    assert(vals_view(out@) =~= vals_view(items@));
                }
                Val::List(out)
            },
            Val::Nothing => Val::Nothing,
            Val::Just(b) => Val::Just(Box::new(b.dup())),
        }
    }
}

/// Whether `c` is an ASCII decimal digit.
pub open spec fn is_digit_char(c: char) -> bool {
    48 <= c as u32 <= 57
}

/// The numeric value of an ASCII digit.
pub open spec fn digit_val(c: char) -> int {
    c as u32 - 48
}

/// The numeric interpretation of a run of ASCII digits, most significant
/// first.
pub open spec fn digits_value(s: Seq<char>) -> int
    decreases s.len(),
{
    if s.len() == 0 {
        0
    } else {
        digits_value(s.drop_last()) * 10 + digit_val(s.last())
    }
}

/// Whether `c` is an ASCII decimal digit, decided at run time.
pub fn digit_check(c: char) -> (r: bool)
    ensures
        r == is_digit_char(c),
{
    let u: u32 = c as u32;
    48 <= u && u <= 57
}

/// Whether the character has the Unicode `Alphabetic` property.
pub uninterp spec fn alphabetic(c: char) -> bool;

/// Whether the character has the Unicode `White_Space` property.
pub uninterp spec fn whitespace(c: char) -> bool;

/// Relies on char::is_alphabetic: true exactly when the character has the
/// Unicode "Alphabetic" property, a function of the character alone.
#[verifier::external_body]
fn char_is_alphabetic(c: char) -> (r: bool)
    ensures
        r == alphabetic(c),
{
    c.is_alphabetic()
}

/// Relies on char::is_whitespace: true exactly when the character has the
/// Unicode "White_Space" property, a function of the character alone.
#[verifier::external_body]
fn char_is_whitespace(c: char) -> (r: bool)
    ensures
        r == whitespace(c),
{
    c.is_whitespace()
}

/// A character that may continue a symbol: a digit, an underscore, or an
/// alphabetic character.  Keywords and boolean literals must be followed by
/// a character that is not one of these.
pub open spec fn is_symbol_char(c: char) -> bool {
    is_digit_char(c) || c == '_' || alphabetic(c)
}

/// The named transforms `map` can apply.
#[derive(Debug)]
pub enum MapOp {
    /// A list of digit characters becomes `Ast::Integer` of its numeric
    /// value; rejected if the value does not fit in `i64`.
    DigitsToInt,
    /// The text `true` or `false` becomes the matching `Ast::Bool`.
    TextToBool,
    /// Any value becomes the unit value.
    ToUnit,
    /// A list of characters becomes `Ast::Text` of those characters.
    CharsToText,
    /// An escape letter (`n`, `r`, `t`, `\`, `"`) becomes the character it
    /// denotes.
    Escape,
}

/// The named predicates `when` can test.
#[derive(Debug)]
pub enum PredOp {
    /// An ASCII decimal digit.
    Digit,
    /// A Unicode whitespace character.
    Space,
    /// A character that may not continue a symbol (see [`is_symbol_char`]).
    Boundary,
    /// Any character except a double quote.
    NotQuote,
}

/// Whether every item is a character value.
pub open spec fn char_items(items: Seq<ValView>) -> bool {
    forall|i: int| 0 <= i < items.len() ==> items[i] is Ch
}

/// The characters held by a sequence of character values.
pub open spec fn item_chars(items: Seq<ValView>) -> Seq<char> {
    Seq::new(items.len(), |i: int| items[i]->Ch_0)
}

/// Whether every item is an ASCII digit character.
pub open spec fn digit_items(items: Seq<ValView>) -> bool {
    char_items(items) && forall|i: int| 0 <= i < items.len() ==> is_digit_char(#[trigger] items[i]->Ch_0)
}

/// What a transform yields on a value model, or `None` where it rejects.
pub open spec fn map_op_spec(op: MapOp, v: ValView) -> Option<ValView> {
    match op {
        MapOp::ToUnit => Option::Some(ValView::Nil),
        MapOp::DigitsToInt => match v {
            ValView::List(items) => {
                if digit_items(items) && digits_value(item_chars(items)) <= i64::MAX {
                    Option::Some(
                        ValView::Node(AstView::Integer(digits_value(item_chars(items)) as i64)),
                    )
                } else {
                    Option::None
                }
            },
            _ => Option::None,
        },
        MapOp::TextToBool => match v {
            ValView::Txt(s) => {
                if s == "true"@ {
                    Option::Some(ValView::Node(AstView::Bool(true)))
                } else if s == "false"@ {
                    Option::Some(ValView::Node(AstView::Bool(false)))
                } else {
                    Option::None
                }
            },
            _ => Option::None,
        },
        MapOp::CharsToText => match v {
            ValView::List(items) => {
                if char_items(items) {
                    Option::Some(ValView::Node(AstView::Text(item_chars(items))))
                } else {
                    Option::None
                }
            },
            _ => Option::None,
        },
        MapOp::Escape => match v {
            ValView::Ch(c) => {
                if c == 'n' {
                    Option::Some(ValView::Ch('\n'))
                } else if c == 'r' {
                    Option::Some(ValView::Ch('\r'))
                } else if c == 't' {
                    Option::Some(ValView::Ch('\t'))
                } else if c == '\\' {
                    Option::Some(ValView::Ch('\\'))
                } else if c == '"' {
                    Option::Some(ValView::Ch('"'))
                } else {
                    Option::None
                }
            },
            _ => Option::None,
        },
    }
}

/// Whether a predicate holds of a value model.
pub open spec fn pred_spec(op: PredOp, v: ValView) -> bool {
    match op {
        PredOp::Digit => v matches ValView::Ch(c) && is_digit_char(c),
        PredOp::Space => v matches ValView::Ch(c) && whitespace(c),
        PredOp::Boundary => v matches ValView::Ch(c) && !is_symbol_char(c),
        PredOp::NotQuote => v matches ValView::Ch(c) && c != '"',
    }
}

/// The numeric interpretation of a digit run is never negative.
pub proof fn lemma_digits_nonneg(s: Seq<char>)
    requires
        forall|i: int| 0 <= i < s.len() ==> is_digit_char(#[trigger] s[i]),
    ensures
        digits_value(s) >= 0,
    decreases s.len(),
{
    if s.len() != 0 {
        lemma_digits_nonneg(s.drop_last());
    }
}

/// Extending a digit run by one digit multiplies its value by ten and adds
/// the digit.
pub proof fn lemma_digits_extend(s: Seq<char>, i: int)
    requires
        0 <= i < s.len(),
    ensures
        digits_value(s.subrange(0, i + 1)) == digits_value(s.subrange(0, i)) * 10 + digit_val(
            s[i],
        ),
{
    assert(s.subrange(0, i + 1).drop_last() =~= s.subrange(0, i));
    assert(s.subrange(0, i + 1).last() == s[i]);
}

/// A digit run is worth at least as much as any of its prefixes.
pub proof fn lemma_digits_prefix_bound(s: Seq<char>, i: int)
    requires
        forall|j: int| 0 <= j < s.len() ==> is_digit_char(#[trigger] s[j]),
        0 <= i <= s.len(),
    ensures
        digits_value(s) >= digits_value(s.subrange(0, i)),
    decreases s.len() - i,
{
    if i == s.len() {
        assert(s.subrange(0, i) =~= s);
    } else {
        lemma_digits_extend(s, i);
        lemma_digits_nonneg(s.subrange(0, i));
        assert(forall|j: int|
            0 <= j < s.subrange(0, i).len() ==> is_digit_char(#[trigger] s.subrange(0, i)[j]));
        lemma_digits_prefix_bound(s, i + 1);
    }
}

/// Applies a transform to a value, yielding `None` exactly where the
/// transform rejects the value's model.
pub fn map_apply(op: &MapOp, v: Val) -> (r: Option<Val>)
    ensures
        r is Some <==> map_op_spec(*op, val_view(v)) is Some,
        r matches Some(rv) ==> map_op_spec(*op, val_view(v)) matches Some(w) && val_view(rv)
            == w,
{
    match op {
        MapOp::ToUnit => Option::Some(Val::Nil),
        MapOp::DigitsToInt => {
            match v {
                Val::List(items) => digits_to_node(&items),
                _ => Option::None,
            }
        },
        MapOp::TextToBool => {
            match v {
                Val::Txt(cs) => {
                    if chars_equal_str(&cs, "true") {
                        Option::Some(Val::Node(Ast::Bool(true)))
                    } else if chars_equal_str(&cs, "false") {
                        Option::Some(Val::Node(Ast::Bool(false)))
                    } else {
                        Option::None
                    }
                },
                _ => Option::None,
            }
        },
        MapOp::CharsToText => {
            match v {
                Val::List(items) => {
                    match list_chars(&items) {
                        Option::Some(cs) => Option::Some(Val::Node(Ast::Text(cs))),
                        Option::None => Option::None,
                    }
                },
                _ => Option::None,
            }
        },
        MapOp::Escape => {
            match v {
                Val::Ch(c) => {
                    if c == 'n' {
                        Option::Some(Val::Ch('\n'))
                    } else if c == 'r' {
                        Option::Some(Val::Ch('\r'))
                    } else if c == 't' {
                        Option::Some(Val::Ch('\t'))
                    } else if c == '\\' {
                        Option::Some(Val::Ch('\\'))
                    } else if c == '"' {
                        Option::Some(Val::Ch('"'))
                    } else {
                        Option::None
                    }
                },
                _ => Option::None,
            }
        },
    }
}

/// The characters of a list of character values, or `None` if some item is
/// not a character.
#[verifier::loop_isolation(false)]
fn list_chars(items: &Vec<Val>) -> (r: Option<Vec<char>>)
    ensures
        r is Some <==> char_items(vals_view(items@)),
        r matches Some(cs) ==> cs@ == item_chars(vals_view(items@)),
{
    proof {
        lemma_vals_view(items@);
    }
    let n: usize = items.len();
    let mut cs: Vec<char> = Vec::new();
    let mut i: usize = 0;
    while i < n
        invariant
            i <= n,
            cs@.len() == i,
            forall|j: int| 0 <= j < i ==> vals_view(items@)[j] is Ch,
            forall|j: int| 0 <= j < i ==> cs@[j] == vals_view(items@)[j]->Ch_0,
        decreases n - i,
    {
        match &items[i] {
            Val::Ch(c) => {
                cs.push(*c);
            },
            _ => {
                return Option::None;
            },
        }
        i = i + 1;
    }
    proof {
        assert(cs@ =~= item_chars(vals_view(items@)));
    }
    Option::Some(cs)
}

/// The integer node denoted by a list of digit characters, or `None` if an
/// item is not an ASCII digit or the value does not fit in `i64`.
#[verifier::loop_isolation(false)]
fn digits_to_node(items: &Vec<Val>) -> (r: Option<Val>)
    ensures
        r is Some <==> map_op_spec(MapOp::DigitsToInt, ValView::List(vals_view(items@))) is Some,
        r matches Some(rv) ==> map_op_spec(MapOp::DigitsToInt, ValView::List(vals_view(items@)))
            matches Some(w) && val_view(rv) == w,
{
    proof {
        lemma_vals_view(items@);
    }
    let ghost gitems = vals_view(items@);
    let ghost gs = item_chars(gitems);
    let n: usize = items.len();
    let mut acc: i64 = 0;
    let mut i: usize = 0;
    while i < n
        invariant
            i <= n,
            forall|j: int| 0 <= j < i ==> gitems[j] is Ch && is_digit_char(gitems[j]->Ch_0),
            acc == digits_value(gs.subrange(0, i as int)),
            acc >= 0,
        decreases n - i,
    {
        let d: i64;
        match &items[i] {
            Val::Ch(c) => {
                if !digit_check(*c) {
                    return Option::None;
                }
                d = (*c as u32 - 48) as i64;
                proof {
                    assert(gitems[i as int] == val_view(items@[i as int]));
                    assert(d == digit_val(gitems[i as int]->Ch_0));
                }
            },
            _ => {
                return Option::None;
            },
        }
        proof {
            assert(gs[i as int] == gitems[i as int]->Ch_0);
            lemma_digits_extend(gs, i as int);
        }
        if acc > 922337203685477580i64 || (acc == 922337203685477580i64 && d > 7) {
            // The run's value already exceeds i64::MAX, and appending more
            // digits can only increase it.
            proof {
                assert(digits_value(gs.subrange(0, i + 1 as int)) > i64::MAX);
                if digit_items(gitems) {
                    assert forall|j: int| 0 <= j < gs.len() implies is_digit_char(
                        #[trigger] gs[j],
                    ) by {
                        assert(gs[j] == gitems[j]->Ch_0);
                        assert(is_digit_char(gitems[j]->Ch_0));
                    }
                    lemma_digits_prefix_bound(gs, i + 1 as int);
                    assert(digits_value(gs) > i64::MAX);
                }
            }
            return Option::None;
        }
        acc = acc * 10 + d;
        i = i + 1;
    }
    proof {
        assert(gs.subrange(0, n as int) =~= gs);
        assert(digit_items(gitems));
    }
    Option::Some(Val::Node(Ast::Integer(acc)))
}

/// Tests a predicate against a value.
pub fn pred_check(op: &PredOp, v: &Val) -> (r: bool)
    ensures
        r == pred_spec(*op, val_view(*v)),
{
    match v {
        Val::Ch(c) => {
            match op {
                PredOp::Digit => digit_check(*c),
                PredOp::Space => char_is_whitespace(*c),
                PredOp::Boundary => !(digit_check(*c) || *c == '_' || char_is_alphabetic(*c)),
                PredOp::NotQuote => *c != '"',
            }
        },
        _ => false,
    }
}

} // verus!
