//! Glyph layout: from the characters of a line to its display columns.

use vstd::prelude::*;
use crate::text::decode;

verus! {

/// Number of cells in a row.
pub const COLUMNS: usize = 80;

/// Number of columns that a tab takes, wherever it stands.
pub const TAB_WIDTH: u8 = 8;

/// The character held by a column that continues the glyph to its left.
pub const CONTINUATION: char = '\0';

/// One display column of a laid-out line.
///
/// A glyph stands in the column where it rests, with its width; each
/// further column that it covers holds a continuation entry of width 0.
#[derive(Clone, Copy, Debug, PartialEq, Eq, Structural)]
pub struct Entry {
    pub width: u8,
    pub ch: char,
}

/// The width in columns that the Unicode tables give a character, or `None`
/// for a control character.
pub uninterp spec fn measured_width(ch: char) -> Option<usize>;

/// Calls `unicode_width::UnicodeWidthChar::width`. The result is taken to be
/// a function of the character alone; nothing is claimed of its value.
#[verifier::external_body]
fn measure(ch: char) -> (r: Option<usize>)
    ensures
        r == measured_width(ch),
{
    unicode_width::UnicodeWidthChar::width(ch)
}

/// The width of a glyph: 8 for a tab, 2 for a character measured as 2 wide,
/// and 1 for every other character, one without a measure included.
pub open spec fn glyph_width_of(ch: char, measured: Option<usize>) -> u8 {
    if ch == '\t' {
        TAB_WIDTH
    } else if measured == Some(2usize) {
        2u8
    } else {
        1u8
    }
}

/// The continuation entry.
pub open spec fn continuation() -> Entry {
    Entry { width: 0, ch: CONTINUATION }
}

/// The entries of one glyph: the glyph itself, then one continuation entry
/// for every further column of its width.
pub open spec fn glyph_entries(ch: char, measured: Option<usize>) -> Seq<Entry> {
    seq![Entry { width: glyph_width_of(ch, measured), ch: ch }] + Seq::new(
        (glyph_width_of(ch, measured) - 1) as nat,
        |k: int| continuation(),
    )
}

/// The layout of a line: the entries of its glyphs, in the order of the
/// characters.
pub open spec fn layout_of(line: Seq<char>) -> Seq<Entry>
    decreases line.len(),
{
    if line.len() == 0 {
        Seq::empty()
    } else {
        layout_of(line.drop_last()) + glyph_entries(line.last(), measured_width(line.last()))
    }
}

/// Sum of the widths of all entries.
pub open spec fn total_width(entries: Seq<Entry>) -> nat
    decreases entries.len(),
{
    if entries.len() == 0 {
        0
    } else {
        total_width(entries.drop_last()) + entries.last().width as nat
    }
}

/// Number of entries of width 0.
pub open spec fn continuation_count(entries: Seq<Entry>) -> nat
    decreases entries.len(),
{
    if entries.len() == 0 {
        0
    } else {
        continuation_count(entries.drop_last()) + if entries.last().width == 0 {
            1nat
        } else {
            0nat
        }
    }
}

/// Number of entries of width 1 or more.
pub open spec fn glyph_count(entries: Seq<Entry>) -> nat
    decreases entries.len(),
{
    if entries.len() == 0 {
        0
    } else {
        glyph_count(entries.drop_last()) + if entries.last().width == 0 {
            0nat
        } else {
            1nat
        }
    }
}

/// The width of a glyph, from the character and its measured width.
pub fn glyph_width(ch: char, measured: Option<usize>) -> (w: u8)
    ensures
        w == glyph_width_of(ch, measured),
{
    if ch == '\t' {
        TAB_WIDTH
    } else {
        match measured {
            Some(m) => if m == 2 {
                2
            } else {
                1
            },
            None => 1,
        }
    }
}

/// Appends the entries of one glyph to a layout.
pub fn push_glyph(out: &mut Vec<Entry>, ch: char, measured: Option<usize>)
    ensures
        final(out)@ == old(out)@ + glyph_entries(ch, measured),
{
    let w: u8 = glyph_width(ch, measured);
    out.push(Entry { width: w, ch: ch });
    let mut k: u8 = 1;
    while k < w
        invariant
            1 <= k,
            1 <= w,
            k <= w,
            w == glyph_width_of(ch, measured),
            out@ == old(out)@ + seq![Entry { width: w, ch: ch }] + Seq::new(
                (k - 1) as nat,
                |q: int| continuation(),
            ),
        decreases w - k,
    {
        out.push(Entry { width: 0, ch: CONTINUATION });
        k = k + 1;
        assert(out@ =~= old(out)@ + seq![Entry { width: w, ch: ch }] + Seq::new(
            (k - 1) as nat,
            |q: int| continuation(),
        ));
    }
    assert(out@ =~= old(out)@ + glyph_entries(ch, measured));
}

/// Lays out the characters of one line. The layout is a function of the
/// characters alone: the same line has the same layout on every call.
pub fn layout_chars(line: &[char]) -> (entries: Vec<Entry>)
    ensures
        entries@ == layout_of(line@),
{
    let mut entries: Vec<Entry> = Vec::new();
    let mut k: usize = 0;
    while k < line.len()
        invariant
            k <= line.len(),
            entries@ == layout_of(line@.take(k as int)),
        decreases line.len() - k,
    {
        let ch: char = line[k];
        let measured: Option<usize> = measure(ch);
        push_glyph(&mut entries, ch, measured);
        k = k + 1;
        assert(line@.take(k as int).drop_last() =~= line@.take(k - 1));
    }
    assert(line@.take(k as int) =~= line@);
    entries
}

/// Lays out one line of text. The layout is a function of the line alone.
pub fn layout(line: &str) -> (entries: Vec<Entry>)
    ensures
        entries@ == layout_of(line@),
{
    let chars: Vec<char> = decode(line);
    layout_chars(chars.as_slice())
}

/// The layout of two pieces of a line, one after the other, is the layout
/// of the first followed by the layout of the second.
pub proof fn lemma_layout_of_concat(a: Seq<char>, b: Seq<char>)
    ensures
        layout_of(a + b) == layout_of(a) + layout_of(b),
    decreases b.len(),
{
    if b.len() == 0 {
        assert(a + b =~= a);
        assert(layout_of(a) + layout_of(b) =~= layout_of(a));
    } else {
        assert((a + b).drop_last() =~= a + b.drop_last());
        lemma_layout_of_concat(a, b.drop_last());
        let tail = glyph_entries(b.last(), measured_width(b.last()));
        assert((layout_of(a) + layout_of(b.drop_last())) + tail =~= layout_of(a) + (layout_of(
            b.drop_last(),
        ) + tail));
    }
}

/// The three counts add up over concatenation.
pub proof fn lemma_counts_of_concat(a: Seq<Entry>, b: Seq<Entry>)
    ensures
        total_width(a + b) == total_width(a) + total_width(b),
        continuation_count(a + b) == continuation_count(a) + continuation_count(b),
        glyph_count(a + b) == glyph_count(a) + glyph_count(b),
    decreases b.len(),
{
    if b.len() == 0 {
        assert(a + b =~= a);
    } else {
        assert((a + b).drop_last() =~= a + b.drop_last());
        lemma_counts_of_concat(a, b.drop_last());
    }
}

/// The counts of a run of continuation entries.
pub proof fn lemma_counts_of_continuations(n: nat)
    ensures
        total_width(Seq::new(n, |k: int| continuation())) == 0,
        continuation_count(Seq::new(n, |k: int| continuation())) == n,
        glyph_count(Seq::new(n, |k: int| continuation())) == 0,
    decreases n,
{
    let run = Seq::new(n, |k: int| continuation());
    if n > 0 {
        assert(run.drop_last() =~= Seq::new((n - 1) as nat, |k: int| continuation()));
        lemma_counts_of_continuations((n - 1) as nat);
    }
}

/// The counts of the entries of one glyph: its width is the number of its
/// entries, one of them the glyph and the rest continuations.
pub proof fn lemma_counts_of_glyph(ch: char, measured: Option<usize>)
    ensures
        glyph_entries(ch, measured).len() == glyph_width_of(ch, measured),
        total_width(glyph_entries(ch, measured)) == glyph_width_of(ch, measured),
        glyph_count(glyph_entries(ch, measured)) == 1,
        continuation_count(glyph_entries(ch, measured)) == glyph_width_of(ch, measured) - 1,
{
    let w = glyph_width_of(ch, measured);
    let head = seq![Entry { width: w, ch: ch }];
    let tail = Seq::new((w - 1) as nat, |k: int| continuation());
    assert(head.drop_last() =~= Seq::<Entry>::empty());
    assert(total_width(head) == w) by {
        assert(total_width(head.drop_last()) == 0);
    }
    assert(glyph_count(head) == 1) by {
        assert(glyph_count(head.drop_last()) == 0);
    }
    assert(continuation_count(head) == 0) by {
        assert(continuation_count(head.drop_last()) == 0);
    }
    lemma_counts_of_continuations((w - 1) as nat);
    lemma_counts_of_concat(head, tail);
}

/// Width accounting. In the layout of any line, the widths of the entries
/// sum to the number of columns that the layout takes, which is the number
/// of its entries; and every entry is a glyph or a continuation, so the
/// continuations are the columns that the glyphs cover beyond their first.
pub proof fn lemma_width_accounting(line: Seq<char>)
    ensures
        total_width(layout_of(line)) == layout_of(line).len(),
        glyph_count(layout_of(line)) + continuation_count(layout_of(line)) == layout_of(
            line,
        ).len(),
        glyph_count(layout_of(line)) == line.len(),
    decreases line.len(),
{
    if line.len() > 0 {
        let ch = line.last();
        lemma_width_accounting(line.drop_last());
        lemma_counts_of_glyph(ch, measured_width(ch));
        lemma_counts_of_concat(
            layout_of(line.drop_last()),
            glyph_entries(ch, measured_width(ch)),
        );
    }
}

/// A layout with no continuation entry: there the widths of the glyphs and
/// the number of continuations sum to the columns taken, and a layout of at
/// most `COLUMNS` entries stays within the row.
pub proof fn lemma_width_accounting_narrow(line: Seq<char>)
    requires
        continuation_count(layout_of(line)) == 0,
        layout_of(line).len() <= COLUMNS,
    ensures
        total_width(layout_of(line)) + continuation_count(layout_of(line)) == layout_of(
            line,
        ).len(),
        total_width(layout_of(line)) + continuation_count(layout_of(line)) <= COLUMNS,
{
    lemma_width_accounting(line);
}

} // verus!
