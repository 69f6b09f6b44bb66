//! String extensions used across the crate: blank detection and splitting
//! a string at a set of offsets.

use vstd::prelude::*;

use crate::text::{is_blank_chars, spec_is_blank, to_char_vec};

verus! {

/// Splitting and blank-testing on string-like types.
pub trait StringExtensions {
    /// The character sequence the methods speak about.
    spec fn text(&self) -> Seq<char>;

    /// Whether the text holds nothing but whitespace.
    fn is_blank(&self) -> (r: bool)
        ensures
            r == spec_is_blank(self.text()),
    ;

    /// An iterator over the pieces between the given character offsets;
    /// the characters at the offsets themselves belong to no piece.
    fn split_at_multiple<'a>(&'a self, positions: &'a Vec<usize>) -> (r: SplitAt<'a>)
        ensures
            r.string@ == self.text(),
            r.positions@ == positions@,
            r.current_index == 0,
    ;
}

impl StringExtensions for String {
    open spec fn text(&self) -> Seq<char> {
        self@
    }

    fn is_blank(&self) -> (r: bool) {
        let chars = to_char_vec(self.as_str());
        is_blank_chars(&chars)
    }

    fn split_at_multiple<'a>(&'a self, positions: &'a Vec<usize>) -> (r: SplitAt<'a>) {
        SplitAt { string: self.as_str(), positions, current_index: 0 }
    }
}

/// An iterator over the pieces of a string split at a set of character
/// offsets.
pub struct SplitAt<'a> {
    pub string: &'a str,
    pub positions: &'a Vec<usize>,
    pub current_index: usize,
}

/// Where the piece at `k` begins: right after the previous split point.
pub open spec fn split_from(positions: Seq<usize>, k: int) -> int {
    if k == 0 {
        0
    } else {
        positions[k - 1] + 1
    }
}

/// Where the piece at `k` ends: at its own split point, or at the end of
/// the string for the last piece.
pub open spec fn split_to(s: Seq<char>, positions: Seq<usize>, k: int) -> int {
    if k < positions.len() {
        positions[k] as int
    } else {
        s.len() as int
    }
}

impl<'a> SplitAt<'a> {
    /// A well-formed splitter: offsets strictly increasing and within the
    /// string, and the cursor not yet past the piece after the last
    /// offset.
    pub open spec fn wf(&self) -> bool {
        &&& forall|j: int, l: int|
            0 <= j < l < self.positions@.len() ==> self.positions@[j] < self.positions@[l]
        &&& forall|j: int| 0 <= j < self.positions@.len() ==> self.positions@[j] < self.string@.len()
        &&& self.positions@.len() <= self.string@.len()
        &&& self.string@.len() < usize::MAX
        &&& self.current_index <= self.positions@.len() + 1
    }

    /// The next piece, or `None` when all pieces have been handed out.
    pub fn next(&mut self) -> (r: Option<&'a str>)
        requires
            old(self).wf(),
        ensures
            final(self).wf(),
            final(self).string == old(self).string,
            final(self).positions == old(self).positions,
            match r {
                Some(piece) => {
                    &&& old(self).current_index <= old(self).positions@.len()
                    &&& piece@ == old(self).string@.subrange(
                        split_from(old(self).positions@, old(self).current_index as int),
                        split_to(
                            old(self).string@,
                            old(self).positions@,
                            old(self).current_index as int,
                        ),
                    )
                    &&& final(self).current_index == old(self).current_index + 1
                },
                None => {
                    &&& old(self).current_index > old(self).positions@.len()
                    &&& final(self).current_index == old(self).current_index
                },
            },
    {
        if self.current_index > self.positions.len() {
            None
        } else {
            let n = self.string.unicode_len();
            let prev: usize = if self.current_index == 0 {
                0
            } else {
                self.positions[self.current_index - 1] + 1
            };
            let cur: usize = if self.current_index == self.positions.len() {
                self.string.unicode_len()
            } else {
                self.positions[self.current_index]
            };
            proof {
                if self.current_index > 0 && (self.current_index as int) < self.positions@.len() {
                    assert(self.positions@[self.current_index - 1] < self.positions@[
                        self.current_index as int]);
                }
            }
            let piece = self.string.substring_char(prev, cur);
            self.current_index = self.current_index + 1;
            Some(piece)
        }
    }
}

} // verus!
