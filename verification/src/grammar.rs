//! The literal grammar built from the combinator engine: integer, boolean
//! and quoted-text literals, keywords and punctuation trimmed of
//! whitespace, and the `parse` entry point.

use vstd::prelude::*;

verus! {

use crate::ast::{Ast, AstView, ast_view, ast_dup};
use crate::input::Input;
use crate::output::Output;
use crate::parser::{
    Parser,
    ParserView,
    Next,
    NextView,
    parser_view,
    run,
    lemma_run_star_shape,
    Step,
    any,
    peek,
    exact,
    the,
    bind,
};
use crate::value::{Val, ValView, val_view, vals_view, lemma_vals_view, MapOp, PredOp};
use vstd::string::StrSliceExecFns;

/// The model of the whitespace parser: one whitespace character, mapped to
/// the unit value.
pub open spec fn junk_view() -> ParserView {
    ParserView::Mapped(
        Box::new(ParserView::When(Box::new(ParserView::Any), PredOp::Space)),
        MapOp::ToUnit,
    )
}

/// The model of whitespace skipping: zero or more whitespace characters.
pub open spec fn junk_star_view() -> ParserView {
    ParserView::ZeroOrMore(Box::new(junk_view()))
}

/// The model of trimming: whitespace skipping before and after `p`,
/// producing `p`'s value.
pub open spec fn trim_view(p: ParserView) -> ParserView {
    ParserView::Bind(
        Box::new(junk_star_view()),
        NextView::Second(
            Box::new(
                ParserView::Bind(Box::new(p), NextView::First(Box::new(junk_star_view()))),
            ),
        ),
    )
}

/// The model of the integer literal: one or more ASCII digits, reduced to
/// `Ast::Integer` of their numeric value.
pub open spec fn number_view() -> ParserView {
    ParserView::Mapped(
        Box::new(
            ParserView::OneOrMore(
                Box::new(ParserView::When(Box::new(ParserView::Any), PredOp::Digit)),
            ),
        ),
        MapOp::DigitsToInt,
    )
}

/// The model of the symbol-boundary lookahead: the next character, not
/// consumed, must not continue a symbol.
pub open spec fn boundary_view() -> ParserView {
    ParserView::When(Box::new(ParserView::Peek), PredOp::Boundary)
}

/// The model of the boolean literal: `true` or `false`, bounded by the
/// symbol-boundary lookahead, reduced to `Ast::Bool`.
pub open spec fn bool_view() -> ParserView {
    ParserView::Mapped(
        Box::new(
            ParserView::Bind(
                Box::new(
                    ParserView::Or(
                        Box::new(ParserView::Exact("true"@)),
                        Box::new(ParserView::Exact("false"@)),
                    ),
                ),
                NextView::First(Box::new(boundary_view())),
            ),
        ),
        MapOp::TextToBool,
    )
}

/// The model of an escape sequence: a backslash, then one of the escape
/// letters, reduced to the character it denotes.
pub open spec fn escape_view() -> ParserView {
    ParserView::Bind(
        Box::new(ParserView::The('\\')),
        NextView::Second(
            Box::new(
                ParserView::Mapped(
                    Box::new(
                        ParserView::Or(
                            Box::new(ParserView::The('n')),
                            Box::new(
                                ParserView::Or(
                                    Box::new(ParserView::The('r')),
                                    Box::new(
                                        ParserView::Or(
                                            Box::new(ParserView::The('t')),
                                            Box::new(
                                                ParserView::Or(
                                                    Box::new(ParserView::The('\\')),
                                                    Box::new(ParserView::The('"')),
                                                ),
                                            ),
                                        ),
                                    ),
                                ),
                            ),
                        ),
                    ),
                    MapOp::Escape,
                ),
            ),
        ),
    )
}

/// The model of the quoted-text literal: a double quote, zero or more of
/// (escape sequence | any character except a quote), a closing double
/// quote, reduced to `Ast::Text` of the body.
pub open spec fn string_view() -> ParserView {
    ParserView::Mapped(
        Box::new(
            ParserView::Bind(
                Box::new(ParserView::The('"')),
                NextView::Second(
                    Box::new(
                        ParserView::Bind(
                            Box::new(
                                ParserView::ZeroOrMore(
                                    Box::new(
                                        ParserView::Or(
                                            Box::new(escape_view()),
                                            Box::new(
                                                ParserView::When(
                                                    Box::new(ParserView::Any),
                                                    PredOp::NotQuote,
                                                ),
                                            ),
                                        ),
                                    ),
                                ),
                            ),
                            NextView::First(Box::new(ParserView::The('"'))),
                        ),
                    ),
                ),
            ),
        ),
        MapOp::CharsToText,
    )
}

/// The model of a keyword: the word `s`, bounded by the symbol-boundary
/// lookahead, trimmed of surrounding whitespace.
pub open spec fn key_view(s: Seq<char>) -> ParserView {
    trim_view(
        ParserView::Bind(
            Box::new(ParserView::Exact(s)),
            NextView::First(Box::new(boundary_view())),
        ),
    )
}

/// The model of punctuation: the exact token `s`, trimmed of surrounding
/// whitespace.
pub open spec fn punct_view(s: Seq<char>) -> ParserView {
    trim_view(ParserView::Exact(s))
}

/// The model of one literal of any kind.
pub open spec fn literal_view() -> ParserView {
    ParserView::Or(
        Box::new(number_view()),
        Box::new(ParserView::Or(Box::new(bool_view()), Box::new(string_view()))),
    )
}

/// The model of a whole document: zero or more trimmed literals.
pub open spec fn document_view() -> ParserView {
    ParserView::ZeroOrMore(Box::new(trim_view(literal_view())))
}

/// A parser that consumes exactly one whitespace character.
pub fn junk() -> (p: Parser)
    ensures
        parser_view(p) == junk_view(),
{
    any().when(PredOp::Space).map(MapOp::ToUnit)
}

/// Wraps `p` so that surrounding whitespace is skipped and `p`'s value is
/// produced.
fn trim(p: Parser) -> (r: Parser)
    ensures
        parser_view(r) == trim_view(parser_view(p)),
{
    let before = junk().zero_or_more();
    let after = junk().zero_or_more();
    bind(before, Next::Second(Box::new(bind(p, Next::First(Box::new(after))))))
}

/// The integer literal: one or more ASCII digits reduced to
/// `Ast::Integer`.  Fails where the digits' value does not fit in `i64`.
pub fn number_literal() -> (p: Parser)
    ensures
        parser_view(p) == number_view(),
{
    any().when(PredOp::Digit).one_or_more().map(MapOp::DigitsToInt)
}

/// The boolean literal: `true` or `false` followed by a character that
/// cannot continue a symbol, reduced to `Ast::Bool`.
pub fn bool_literal() -> (p: Parser)
    ensures
        parser_view(p) == bool_view(),
{
    let word = exact("true").or(exact("false"));
    let bounded = bind(word, Next::First(Box::new(peek().when(PredOp::Boundary))));
    bounded.map(MapOp::TextToBool)
}

/// The quoted-text literal: a double quote, a body of escape sequences
/// and plain characters, and a closing double quote, reduced to
/// `Ast::Text`.
pub fn string_literal() -> (p: Parser)
    ensures
        parser_view(p) == string_view(),
{
    let escape = bind(
        the('\\'),
        Next::Second(
            Box::new(
                the('n').or(the('r').or(the('t').or(the('\\').or(the('"'))))).map(MapOp::Escape),
            ),
        ),
    );
    let body_char = escape.or(any().when(PredOp::NotQuote));
    let body = body_char.zero_or_more();
    let quoted = bind(the('"'), Next::Second(Box::new(bind(body, Next::First(Box::new(the('"')))))));
    quoted.map(MapOp::CharsToText)
}

/// A keyword: the word `s` bounded by a non-symbol lookahead, trimmed of
/// surrounding whitespace.
pub fn key(s: &str) -> (p: Parser)
    ensures
        parser_view(p) == key_view(s@),
{
    trim(bind(exact(s), Next::First(Box::new(peek().when(PredOp::Boundary)))))
}

/// Punctuation: the exact token `s`, trimmed of surrounding whitespace.
pub fn punct(s: &str) -> (p: Parser)
    ensures
        parser_view(p) == punct_view(s@),
{
    trim(exact(s))
}

/// One literal of any kind.
fn literal() -> (p: Parser)
    ensures
        parser_view(p) == literal_view(),
{
    number_literal().or(bool_literal().or(string_literal()))
}

/// The whole-document parser: zero or more trimmed literals.
fn document() -> (p: Parser)
    ensures
        parser_view(p) == document_view(),
{
    trim(literal()).zero_or_more()
}

/// The structured failure `parse` returns: the furthest position reached,
/// and whether the failure was recoverable or fatal.
#[derive(Debug)]
pub enum ParseError {
    Recoverable(usize),
    Fatal(usize),
}

/// The syntax nodes among a list of produced values, in order.
pub open spec fn ast_items(items: Seq<ValView>) -> Seq<AstView>
    decreases items.len(),
{
    if items.len() == 0 {
        Seq::empty()
    } else if items.last() is Node {
        ast_items(items.drop_last()).push(items.last()->Node_0)
    } else {
        ast_items(items.drop_last())
    }
}

/// The models of a sequence of syntax nodes, in order.
pub open spec fn asts_view(s: Seq<Ast>) -> Seq<AstView>
    decreases s,
{
    if s.len() == 0 {
        Seq::empty()
    } else {
        seq![ast_view(s[0])] + asts_view(s.drop_first())
    }
}

/// `asts_view` is the pointwise model of its argument.
pub proof fn lemma_asts_view(s: Seq<Ast>)
    ensures
        asts_view(s).len() == s.len(),
        forall|i: int| 0 <= i < s.len() ==> asts_view(s)[i] == ast_view(#[trigger] s[i]),
    decreases s,
{
    if s.len() != 0 {
        lemma_asts_view(s.drop_first());
        assert forall|i: int| 0 <= i < s.len() implies asts_view(s)[i] == ast_view(
            #[trigger] s[i],
        ) by {
            if i > 0 {
                assert(asts_view(s)[i] == asts_view(s.drop_first())[i - 1]);
                assert(s.drop_first()[i - 1] == s[i]);
            }
        }
    }
}

/// The syntax nodes held by `items`, in order.
#[verifier::loop_isolation(false)]
fn extract_nodes(items: &Vec<Val>) -> (r: Vec<Ast>)
    ensures
        asts_view(r@) == ast_items(vals_view(items@)),
{
    proof {
        lemma_vals_view(items@);
    }
    let ghost gitems = vals_view(items@);
    let n: usize = items.len();
    let mut out: Vec<Ast> = Vec::new();
    let mut i: usize = 0;
    while i < n
        invariant
            i <= n,
            asts_view(out@) == ast_items(gitems.subrange(0, i as int)),
        decreases n - i,
    {
        proof {
            assert(gitems.subrange(0, i + 1 as int).drop_last() =~= gitems.subrange(0, i as int));
            assert(gitems.subrange(0, i + 1 as int).last() == gitems[i as int]);
        }
        match &items[i] {
            Val::Node(a) => {
                let node = ast_dup(a);
                let ghost out_before = out@;
                out.push(node);
                proof {
                    lemma_asts_view(out@);
                    lemma_asts_view(out_before);
                    assert forall|j: int| 0 <= j < out@.len() implies asts_view(out@)[j]
                        == ast_items(gitems.subrange(0, i + 1 as int))[j] by {
                        if j < out_before.len() {
                            assert(out@[j] == out_before[j]);
                            assert(asts_view(out_before)[j] == ast_view(out_before[j]));
                        } else {
                            assert(out@[j] == node);
                        }
                    }
                    assert(asts_view(out@) =~= ast_items(gitems.subrange(0, i + 1 as int)));
                }
            },
            _ => {
                proof {
                    assert(asts_view(out@) =~= ast_items(gitems.subrange(0, i + 1 as int)));
                }
            },
        }
        i = i + 1;
    }
    proof {
        assert(gitems.subrange(0, n as int) =~= gitems);
    }
    out
}

/// A produced value whose model is a list is itself a list of values.
proof fn lemma_list_value(v: Val)
    requires
        val_view(v) is List,
    ensures
        v is List,
{
    match v {
        Val::List(items) => {},
        _ => {},
    }
}

/// Parses a whole document: zero or more literals separated and
/// surrounded by whitespace, to the end of the input.  Returns the syntax
/// nodes in order, or the structured failure with the furthest reached
/// position — recoverable where the document simply stops matching,
/// fatal where a committed production aborted.  Positions are character
/// offsets.
pub fn parse(source: &str) -> (r: Result<Vec<Ast>, ParseError>)
    ensures
        (match run(document_view(), source@, 0) {
            Step::Success { value, start, end, used } => {
                if used == source@.len() {
                    r matches Ok(nodes) && asts_view(nodes@) == ast_items(value->List_0)
                } else {
                    r matches Err(e) && e matches ParseError::Recoverable(p) && p as int == used
                }
            },
            Step::Failure { at } => r matches Err(e) && e matches ParseError::Recoverable(p)
                && p as int == at,
            Step::Fatal { at, used } => r matches Err(e) && e matches ParseError::Fatal(p)
                && p as int == at,
        }),
{
    let mut input = Input::new(source);
    let g = document();
    proof {
        lemma_run_star_shape(trim_view(literal_view()), source@, 0);
    }
    let out = g.parse(&mut input);
    let n: usize = source.unicode_len();
    match out {
        Output::Success(v, _s, _e) => {
            let pos: usize = input.offset();
            if pos == n {
                proof {
                    lemma_list_value(v);
                }
                match v {
                    Val::List(items) => Ok(extract_nodes(&items)),
                    _ => {
                        proof {
                            assert(false);
                        }
                        Ok(Vec::new())
                    },
                }
            } else {
                Err(ParseError::Recoverable(pos))
            }
        },
        Output::Failure(i) => Err(ParseError::Recoverable(i)),
        Output::Fatal(i) => Err(ParseError::Fatal(i)),
    }
}

} // verus!
