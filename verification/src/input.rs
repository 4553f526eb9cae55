//! The cursor over source text: a character position that can be peeked,
//! advanced, matched against a literal, and rolled back in O(1).

use vstd::prelude::*;

verus! {

use crate::text::text_chars;

/// A cursor over immutable source text.  All positions are character
/// (Unicode scalar) offsets.
pub struct Input {
    text: Vec<char>,
    pos: usize,
}

/// An O(1) snapshot of a cursor position, used to roll back after a
/// recoverable failure.
pub struct RestorePoint {
    pos: usize,
}

impl RestorePoint {
    /// The saved position.
    pub closed spec fn at(&self) -> int {
        self.pos as int
    }
}

/// Whether the literal `s` occurs in `text` at position `pos`.
pub open spec fn match_at(text: Seq<char>, pos: int, s: Seq<char>) -> bool {
    pos + s.len() <= text.len() && text.subrange(pos, pos + s.len()) == s
}

/// The position reported when `s` does not occur at `pos`: the offset of
/// the first mismatching character, or the total length where the input
/// ran out first.
pub open spec fn mismatch_pos(text: Seq<char>, pos: int, s: Seq<char>) -> int
    decreases s.len(),
{
    if s.len() == 0 {
        pos
    } else if pos >= text.len() {
        text.len() as int
    } else if text[pos] != s[0] {
        pos
    } else {
        mismatch_pos(text, pos + 1, s.drop_first())
    }
}

impl Input {
    /// The source text under the cursor.
    pub closed spec fn text_view(&self) -> Seq<char> {
        self.text@
    }

    /// The current position, as a character offset.
    pub closed spec fn at(&self) -> int {
        self.pos as int
    }

    /// The cursor is inside its text.
    pub open spec fn wf(&self) -> bool {
        0 <= self.at() <= self.text_view().len() && self.text_view().len() <= usize::MAX
    }

    /// A cursor at the start of `s`.
    pub fn new(s: &str) -> (r: Input)
        ensures
            r.wf(),
            r.text_view() == s@,
            r.at() == 0,
    {
        let text = text_chars(s);
        proof {
            assert(text.len() == text@.len());
        }
        Input { text, pos: 0 }
    }

    /// The current position as a machine integer.
    pub(crate) fn offset(&self) -> (n: usize)
        ensures
            n as int == self.at(),
    {
        self.pos
    }

    /// Captures the current position.
    pub fn restore_point(&self) -> (r: RestorePoint)
        ensures
            r.at() == self.at(),
    {
        RestorePoint { pos: self.pos }
    }

    /// Rolls the cursor back to a previously captured position.
    pub fn restore(&mut self, rp: RestorePoint)
        requires
            0 <= rp.at() <= old(self).text_view().len(),
        ensures
            final(self).text_view() == old(self).text_view(),
            final(self).at() == rp.at(),
            old(self).wf() ==> final(self).wf(),
    {
        self.pos = rp.pos;
    }

    /// Returns the next character with its offset and advances past it, or
    /// the total length where the input has run out.
    pub fn get_char(&mut self) -> (r: Result<(usize, char), usize>)
        requires
            old(self).wf(),
        ensures
            final(self).wf(),
            final(self).text_view() == old(self).text_view(),
            old(self).at() < old(self).text_view().len() ==> (r matches Ok((i, c))
                && i as int == old(self).at() && c == old(self).text_view()[old(self).at()]
                && final(self).at() == old(self).at() + 1),
            old(self).at() >= old(self).text_view().len() ==> (r matches Err(l)
                && l as int == old(self).text_view().len() && final(self).at() == old(self).at()),
    {
        proof {
            assert(self.text.len() == self.text@.len());
        }
        if self.pos < self.text.len() {
            let c = self.text[self.pos];
            let i: usize = self.pos;
            self.pos = self.pos + 1;
            Ok((i, c))
        } else {
            Err(self.text.len())
        }
    }

    /// Returns what `get_char` would, without advancing.
    pub fn peek(&mut self) -> (r: Result<(usize, char), usize>)
        requires
            old(self).wf(),
        ensures
            final(self).wf(),
            final(self).text_view() == old(self).text_view(),
            final(self).at() == old(self).at(),
            old(self).at() < old(self).text_view().len() ==> (r matches Ok((i, c))
                && i as int == old(self).at() && c == old(self).text_view()[old(self).at()]),
            old(self).at() >= old(self).text_view().len() ==> (r matches Err(l)
                && l as int == old(self).text_view().len()),
    {
        let rp = self.restore_point();
        let r = self.get_char();
        match r {
            Ok(_) => {
                self.restore(rp);
            },
            Err(_) => {},
        }
        r
    }

    /// Matches the literal characters `cs` at the current position.  On
    /// success the cursor advances past them and the produced range
    /// `[start, end)` is returned; on failure the cursor does not move and
    /// the offset of the first mismatch (or the total length, where input
    /// ran out — also reported when the cursor already stands at the end)
    /// is returned.
    #[verifier::loop_isolation(false)]
    pub(crate) fn exact_chars(&mut self, cs: &Vec<char>) -> (r: Result<(usize, usize), usize>)
        requires
            old(self).wf(),
        ensures
            final(self).wf(),
            final(self).text_view() == old(self).text_view(),
            old(self).at() >= old(self).text_view().len() ==> (r matches Err(l)
                && l as int == old(self).text_view().len() && final(self).at() == old(self).at()),
            old(self).at() < old(self).text_view().len() && match_at(
                old(self).text_view(),
                old(self).at(),
                cs@,
            ) ==> (r matches Ok((s, e)) && s as int == old(self).at() && e as int == old(self).at()
                + cs@.len() && final(self).at() == old(self).at() + cs@.len()),
            old(self).at() < old(self).text_view().len() && !match_at(
                old(self).text_view(),
                old(self).at(),
                cs@,
            ) ==> (r matches Err(m) && m as int == mismatch_pos(
                old(self).text_view(),
                old(self).at(),
                cs@,
            ) && final(self).at() == old(self).at()),
    {
        proof {
            assert(self.text.len() == self.text@.len());
        }
        if self.pos >= self.text.len() {
            return Err(self.text.len());
        }
        let n: usize = cs.len();
        let start: usize = self.pos;
        let mut i: usize = 0;
        while i < n
            invariant
                i <= n,
                forall|j: int| 0 <= j < i ==> self.text@[start + j] == cs@[j],
                start + i <= self.text@.len(),
            decreases n - i,
        {
            if self.text.len() - start <= i {
                proof {
                    lemma_mismatch_prefix(self.text@, start as int, cs@, i as int);
                }
                return Err(self.text.len());
            }
            if self.text[start + i] != cs[i] {
                proof {
                    lemma_mismatch_prefix(self.text@, start as int, cs@, i as int);
                }
                return Err(start + i);
            }
            i = i + 1;
        }
        proof {
            assert(self.text@.subrange(start as int, start + n as int) =~= cs@);
        }
        self.pos = start + n;
        Ok((start, start + n))
    }

    /// Matches the literal string `s` at the current position, as
    /// `exact_chars` does, returning `s` with the produced range.
    pub fn exact<'b>(&mut self, s: &'b str) -> (r: Result<(&'b str, usize, usize), usize>)
        requires
            old(self).wf(),
        ensures
            final(self).wf(),
            final(self).text_view() == old(self).text_view(),
            old(self).at() >= old(self).text_view().len() ==> (r matches Err(l)
                && l as int == old(self).text_view().len() && final(self).at() == old(self).at()),
            old(self).at() < old(self).text_view().len() && match_at(
                old(self).text_view(),
                old(self).at(),
                s@,
            ) ==> (r matches Ok((t, a, e)) && t == s && a as int == old(self).at()
                && e as int == old(self).at() + s@.len() && final(self).at() == old(self).at()
                + s@.len()),
            old(self).at() < old(self).text_view().len() && !match_at(
                old(self).text_view(),
                old(self).at(),
                s@,
            ) ==> (r matches Err(m) && m as int == mismatch_pos(
                old(self).text_view(),
                old(self).at(),
                s@,
            ) && final(self).at() == old(self).at()),
    {
        let cs = text_chars(s);
        match self.exact_chars(&cs) {
            Ok((a, e)) => Ok((s, a, e)),
            Err(m) => Err(m),
        }
    }
}

/// Where the first `i` characters of `s` match at `pos` and the next one
/// does not (or the input runs out there), the reported mismatch offset is
/// that of position `pos + i`.
proof fn lemma_mismatch_prefix(text: Seq<char>, pos: int, s: Seq<char>, i: int)
    requires
        0 <= pos,
        pos + i <= text.len(),
        0 <= i < s.len(),
        forall|j: int| 0 <= j < i ==> text[pos + j] == s[j],
        pos + i >= text.len() || text[pos + i] != s[i],
    ensures
        mismatch_pos(text, pos, s) == if pos + i >= text.len() {
            text.len() as int
        } else {
            pos + i
        },
        !match_at(text, pos, s),
    decreases i,
{
    if i == 0 {
        if pos + s.len() <= text.len() && text.subrange(pos, pos + s.len()) == s {
            assert(text[pos] == text.subrange(pos, pos + s.len())[0]);
        }
    } else {
        assert(s.drop_first()[i - 1] == s[i]);
        assert forall|j: int| 0 <= j < i - 1 implies text[pos + 1 + j] == s.drop_first()[j] by {
            assert(s.drop_first()[j] == s[j + 1]);
        }
        lemma_mismatch_prefix(text, pos + 1, s.drop_first(), i - 1);
        if pos + s.len() <= text.len() && text.subrange(pos, pos + s.len()) == s {
            assert(text[pos] == text.subrange(pos, pos + s.len())[0]);
        }
    }
}

} // verus!
