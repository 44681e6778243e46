//! Mapping between text offsets and lines.

use vstd::prelude::*;
use vstd::string::StrSliceExecFns;

verus! {

/// The offsets just past each newline of `s`, from position `i` on.
pub open spec fn newline_ends_from(s: Seq<char>, i: int) -> Seq<int>
    decreases s.len() - i,
{
    if i < 0 || i >= s.len() {
        Seq::empty()
    } else {
        (if s[i] == '\n' {
            seq![i + 1]
        } else {
            Seq::empty()
        }) + newline_ends_from(s, i + 1)
    }
}

/// The offsets at which the lines of `s` start: offset zero, then the offset
/// just past each newline, in increasing order.
pub open spec fn line_starts(s: Seq<char>) -> Seq<int> {
    seq![0] + newline_ends_from(s, 0)
}

/// Derived, immutable mapping between offsets and line starts; a pure
/// function of one file's text.
#[derive(Debug)]
pub struct LineIndex {
    starts: Vec<usize>,
}

impl View for LineIndex {
    type V = Seq<int>;

    closed spec fn view(&self) -> Seq<int> {
        self.starts@.map_values(|x: usize| x as int)
    }
}

impl LineIndex {
    /// Computes the line index of `text`.
    pub fn new(text: &str) -> (r: LineIndex)
        ensures
            r@ == line_starts(text@),
    {
        let n = text.unicode_len();
        let mut starts: Vec<usize> = Vec::new();
        starts.push(0);
        proof {
            assert(starts@.map_values(|x: usize| x as int) =~= seq![0int]);
        }
        let mut i: usize = 0;
        while i < n
            invariant
                n == text@.len(),
                i <= n,
                starts@.map_values(|x: usize| x as int) + newline_ends_from(text@, i as int)
                    == line_starts(text@),
            decreases n - i,
        {
            let ghost prev = starts@.map_values(|x: usize| x as int);
            let c = text.get_char(i);
            if c == '\n' {
                starts.push(i + 1);
                proof {
                    assert(starts@.map_values(|x: usize| x as int) =~= prev.push(i + 1));
                    assert(prev.push(i + 1) + newline_ends_from(text@, i + 1) =~= prev
                        + newline_ends_from(text@, i as int));
                }
            }
            i = i + 1;
        }
        proof {
            assert(starts@.map_values(|x: usize| x as int) =~= line_starts(text@));
        }
        LineIndex { starts }
    }

    /// How many lines the text has (one more than its newlines).
    pub fn line_count(&self) -> (r: usize)
        ensures
            r == self@.len(),
    {
        self.starts.len()
    }

    /// The start offset of line `line` (zero-based).
    pub fn line_start(&self, line: usize) -> (r: usize)
        requires
            line < self@.len(),
        ensures
            r == self@[line as int],
    {
        self.starts[line]
    }
}

} // verus!
