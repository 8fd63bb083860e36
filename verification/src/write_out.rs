//! What is to be written out, as data: the color palette, resolved render
//! lines, and the per-character highlighting of quoted speech. The actual
//! typing to the terminal is the surrounding application's work.

use vstd::prelude::*;

verus! {

/// The available text colors.
#[derive(Debug, Clone, Copy, PartialEq, Eq, Structural)]
pub enum Color {
    /// The color for lines marked `-b`.
    Blue,
    /// The color of question prompts.
    Cyan,
    /// The color for lines marked `-g`.
    Green,
    /// A further highlight color.
    Purple,
    /// The color for lines marked `-r`.
    Red,
    /// The default text color.
    White,
    /// The color for lines marked `-y`.
    Yellow,
}

/// One resolved line of output: its text, its color, and whether it is a
/// question prompt, which is set off by a blank line before it.
#[derive(Debug, Clone, PartialEq)]
pub struct RenderLine {
    /// The text to write.
    pub text: String,
    /// The color to write it in.
    pub color: Color,
    /// Whether the line is a question prompt.
    pub question: bool,
}

/// The value of a render line.
pub struct LineV {
    /// The text to write.
    pub text: Seq<char>,
    /// The color to write it in.
    pub color: Color,
    /// Whether the line is a question prompt.
    pub question: bool,
}

impl View for RenderLine {
    type V = LineV;

    open spec fn view(&self) -> LineV {
        LineV { text: self.text@, color: self.color, question: self.question }
    }
}

/// How many quotation marks `s` holds.
pub open spec fn quote_count(s: Seq<char>) -> int
    decreases s.len(),
{
    if s.len() == 0 {
        0
    } else {
        quote_count(s.drop_last()) + (if s.last() == '"' {
            1int
        } else {
            0int
        })
    }
}

/// Whether the line holds a quotation: two or more quotation marks. Such a
/// line takes its color only on the quoted spans.
pub fn contains_quote(line: &str) -> (r: bool)
    ensures
        r == (quote_count(line@) >= 2),
{
    let n = line.unicode_len();
    let mut count: usize = 0;
    let mut i: usize = 0;
    while i < n
        invariant
            i <= n,
            n == line@.len(),
            count <= i,
            count == quote_count(line@.subrange(0, i as int)),
        decreases n - i,
    {
        if line.get_char(i) == '"' {
            count += 1;
        }
        proof {
            assert(line@.subrange(0, i + 1).drop_last() =~= line@.subrange(0, i as int));
            assert(line@.subrange(0, i + 1).last() == line@[i as int]);
        }
        i += 1;
    }
    proof {
        assert(line@.subrange(0, n as int) =~= line@);
    }
    count >= 2
}

/// Whether the character at position `i` takes the highlight color when the
/// line is written as a quotation: the quotation marks themselves, and the
/// characters standing after an odd number of marks.
pub open spec fn highlighted_at(s: Seq<char>, i: int) -> bool {
    s[i] == '"' || quote_count(s.subrange(0, i)) % 2 == 1
}

/// For each character of the line, whether it takes the highlight color when
/// the line is written as a quotation.
pub fn highlight_mask(line: &str) -> (r: Vec<bool>)
    ensures
        r@.len() == line@.len(),
        forall|i: int| 0 <= i < line@.len() ==> r@[i] == highlighted_at(line@, i),
{
    let n = line.unicode_len();
    let mut mask: Vec<bool> = Vec::new();
    let mut in_quote = false;
    let mut i: usize = 0;
    while i < n
        invariant
            i <= n,
            n == line@.len(),
            mask@.len() == i,
            in_quote == (quote_count(line@.subrange(0, i as int)) % 2 == 1),
            forall|j: int| 0 <= j < i ==> mask@[j] == highlighted_at(line@, j),
        decreases n - i,
    {
        let c = line.get_char(i);
        if c == '"' {
            mask.push(true);
            in_quote = !in_quote;
        } else {
            mask.push(in_quote);
        }
        proof {
            assert(line@.subrange(0, i + 1).drop_last() =~= line@.subrange(0, i as int));
            assert(line@.subrange(0, i + 1).last() == line@[i as int]);
        }
        i += 1;
    }
    mask
}

} // verus!
