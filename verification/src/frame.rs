//! Frame composition: the rows of one frame, and whether another is due.

use vstd::prelude::*;
use crate::layout::{
    glyph_entries, glyph_width_of, layout_of, lemma_counts_of_glyph, measured_width, Entry,
    COLUMNS, CONTINUATION,
};
use crate::timing::{
    column_at, lemma_eased_offset_range, local_time, pending_at, phase, Phase, FRAME_STEP,
    LINE_DELAY, UNIT,
};

verus! {

/// The rows of one frame, and whether any glyph is still on its way.
#[derive(Debug)]
pub struct Frame {
    /// One printed row for each line, continuation cells taken out.
    pub rows: Vec<Vec<char>>,
    /// Whether a glyph has not yet passed local time 1.
    pub pending: bool,
}

/// The views of the vectors of a sequence.
pub open spec fn views<T>(v: Seq<Vec<T>>) -> Seq<Seq<T>> {
    Seq::new(v.len(), |k: int| v[k]@)
}

/// A row of `COLUMNS` spaces.
pub open spec fn blank_row() -> Seq<char> {
    Seq::new(COLUMNS as nat, |k: int| ' ')
}

/// The row with a glyph written at column `at`: its character there, and a
/// continuation in each further column of its width. A glyph that does not
/// fit within the row leaves the row as it is.
pub open spec fn placed(row: Seq<char>, at: int, e: Entry) -> Seq<char> {
    if 0 <= at < row.len() && at + e.width <= row.len() {
        Seq::new(
            row.len(),
            |k: int|
                if k == at {
                    e.ch
                } else if at < k < at + e.width {
                    CONTINUATION
                } else {
                    row[k]
                },
        )
    } else {
        row
    }
}

/// The row after the entry at index `j` has had its turn. An entry that
/// holds the continuation character writes nothing, nor does a glyph that
/// is waiting.
pub open spec fn with_glyph(
    row: Seq<char>,
    entries: Seq<Entry>,
    j: int,
    i: int,
    l: int,
    char_delay: int,
) -> Seq<char> {
    if entries[j].ch == CONTINUATION {
        row
    } else {
        match column_at(j, local_time(i, j, l, char_delay)) {
            Some(at) => placed(row, at, entries[j]),
            None => row,
        }
    }
}

/// The cells of a row after the first `n` entries have had their turn, in
/// order: a later glyph overwrites an earlier one.
pub open spec fn cells(entries: Seq<Entry>, n: nat, i: int, l: int, char_delay: int) -> Seq<char>
    decreases n,
{
    if n == 0 {
        blank_row()
    } else {
        with_glyph(cells(entries, (n - 1) as nat, i, l, char_delay), entries, n - 1, i, l, char_delay)
    }
}

/// The cells of a row without the continuation cells.
pub open spec fn printed(row: Seq<char>) -> Seq<char>
    decreases row.len(),
{
    if row.len() == 0 {
        Seq::empty()
    } else if row.last() == CONTINUATION {
        printed(row.drop_last())
    } else {
        printed(row.drop_last()).push(row.last())
    }
}

/// The printed row of line `l` in frame `i`.
pub open spec fn row_of(entries: Seq<Entry>, i: int, l: int, char_delay: int) -> Seq<char> {
    printed(cells(entries, entries.len(), i, l, char_delay))
}

/// The entry at index `j` is a glyph that has not yet passed local time 1.
pub open spec fn glyph_pending(entries: Seq<Entry>, j: int, i: int, l: int, char_delay: int) -> bool {
    entries[j].ch != CONTINUATION && pending_at(local_time(i, j, l, char_delay))
}

/// One of the first `n` entries is a pending glyph.
pub open spec fn pending_among(entries: Seq<Entry>, n: int, i: int, l: int, char_delay: int) -> bool {
    exists|j: int| 0 <= j < n && glyph_pending(entries, j, i, l, char_delay)
}

/// A glyph of line `l` is pending in frame `i`.
pub open spec fn row_pending(entries: Seq<Entry>, i: int, l: int, char_delay: int) -> bool {
    pending_among(entries, entries.len() as int, i, l, char_delay)
}

/// The printed rows of frame `i`, one for each line.
pub open spec fn frame_rows(lines: Seq<Seq<Entry>>, i: int, char_delay: int) -> Seq<Seq<char>> {
    Seq::new(lines.len(), |l: int| row_of(lines[l], i, l, char_delay))
}

/// One of the first `n` lines has a pending glyph in frame `i`.
pub open spec fn pending_within(lines: Seq<Seq<Entry>>, n: int, i: int, char_delay: int) -> bool {
    exists|l: int| 0 <= l < n && #[trigger] row_pending(lines[l], i, l, char_delay)
}

/// A glyph of some line is pending in frame `i`: another frame is due.
pub open spec fn frame_pending(lines: Seq<Seq<Entry>>, i: int, char_delay: int) -> bool {
    pending_within(lines, lines.len() as int, i, char_delay)
}

/// Every entry is a glyph of width 1, and none holds the continuation
/// character.
pub open spec fn narrow(entries: Seq<Entry>) -> bool {
    forall|k: int|
        0 <= k < entries.len() ==> (#[trigger] entries[k]).width == 1 && entries[k].ch
            != CONTINUATION
}

/// The characters of the entries, then spaces up to `COLUMNS` cells.
pub open spec fn padded(entries: Seq<Entry>) -> Seq<char> {
    Seq::new(
        COLUMNS as nat,
        |k: int|
            if k < entries.len() {
                entries[k].ch
            } else {
                ' '
            },
    )
}

/// The glyph that a character is laid out to.
pub open spec fn glyph_of(ch: char) -> Entry {
    Entry { width: glyph_width_of(ch, measured_width(ch)), ch: ch }
}

/// The cells of a line at rest: its glyphs written one after the other,
/// each at the column where its layout puts it. A continuation character
/// in the line writes nothing, and a glyph that does not fit is left out.
pub open spec fn resting_cells(line: Seq<char>) -> Seq<char>
    decreases line.len(),
{
    if line.len() == 0 {
        blank_row()
    } else if line.last() == CONTINUATION {
        resting_cells(line.drop_last())
    } else {
        placed(
            resting_cells(line.drop_last()),
            layout_of(line.drop_last()).len() as int,
            glyph_of(line.last()),
        )
    }
}

/// A frame index from which no glyph is pending, for `rows` lines of at
/// most `width` entries each.
pub open spec fn settle_bound(rows: nat, width: nat, char_delay: nat) -> nat {
    ((UNIT + width * char_delay + rows * LINE_DELAY) / (FRAME_STEP as int) + 1) as nat
}

/// Writes a glyph into a row at column `at`, if it fits.
pub fn place(row: &mut Vec<char>, at: usize, e: Entry)
    ensures
        final(row)@ == placed(old(row)@, at as int, e),
{
    let n: usize = row.len();
    let w: usize = e.width as usize;
    if at >= n || w > n - at {
        return ;
    }
    let ghost before = row@;
    row.set(at, e.ch);
    let mut k: usize = 1;
    while k < w
        invariant
            1 <= k,
            at < n,
            at + w <= n,
            w == e.width,
            before.len() == n,
            row@.len() == n,
            k <= w || k == 1,
            forall|q: int|
                0 <= q < n ==> #[trigger] row@[q] == if q == at {
                    e.ch
                } else if at < q < at + k {
                    CONTINUATION
                } else {
                    before[q]
                },
        decreases w - k,
    {
        row.set(at + k, CONTINUATION);
        k = k + 1;
    }
    assert(row@ =~= placed(before, at as int, e));
}

/// Takes the continuation cells out of a row.
pub fn strip(row: &Vec<char>) -> (line: Vec<char>)
    ensures
        line@ == printed(row@),
{
    let mut line: Vec<char> = Vec::new();
    let mut k: usize = 0;
    while k < row.len()
        invariant
            k <= row.len(),
            line@ == printed(row@.take(k as int)),
        decreases row.len() - k,
    {
        let c: char = row[k];
        if c != CONTINUATION {
            line.push(c);
        }
        k = k + 1;
        assert(row@.take(k as int).drop_last() =~= row@.take(k - 1));
    }
    assert(row@.take(k as int) =~= row@);
    line
}

/// Composes the row of line `l` for frame `i` from the layout of the line.
/// Returns the printed row, and whether a glyph of the line is pending.
pub fn render_row(entries: &[Entry], i: usize, l: usize, char_delay: u64) -> (r: (Vec<char>, bool))
    ensures
        r.0@ == row_of(entries@, i as int, l as int, char_delay as int),
        r.1 == row_pending(entries@, i as int, l as int, char_delay as int),
        r.0@.len() <= COLUMNS,
{
    proof {
        lemma_row_length(entries@, entries@.len(), i as int, l as int, char_delay as int);
    }
    let mut row: Vec<char> = Vec::new();
    let mut c: usize = 0;
    while c < COLUMNS
        invariant
            c <= COLUMNS,
            row@ =~= Seq::new(c as nat, |k: int| ' '),
        decreases COLUMNS - c,
    {
        row.push(' ');
        c = c + 1;
    }
    let mut pending: bool = false;
    let mut j: usize = 0;
    while j < entries.len()
        invariant
            j <= entries.len(),
            row@.len() == COLUMNS,
            row@ == cells(entries@, j as nat, i as int, l as int, char_delay as int),
            pending == pending_among(entries@, j as int, i as int, l as int, char_delay as int),
        decreases entries.len() - j,
    {
        let e: Entry = entries[j];
        let ghost before = pending;
        if e.ch != CONTINUATION {
            match phase(i, j, l, char_delay) {
                Phase::Settled => {
                    place(&mut row, j, e);
                },
                Phase::Waiting => {
                    pending = true;
                },
                Phase::Moving(n) => {
                    proof {
                        lemma_eased_offset_range(
                            local_time(i as int, j as int, l as int, char_delay as int),
                        );
                    }
                    pending = true;
                    if j < COLUMNS {
                        place(&mut row, j + n, e);
                    }
                },
            }
        }
        proof {
            let gp = glyph_pending(entries@, j as int, i as int, l as int, char_delay as int);
            assert(pending == (before || gp));
            if before {
                let w = choose|q: int|
                    0 <= q < j && glyph_pending(
                        entries@,
                        q,
                        i as int,
                        l as int,
                        char_delay as int,
                    );
                assert(0 <= w < j + 1 && glyph_pending(
                    entries@,
                    w,
                    i as int,
                    l as int,
                    char_delay as int,
                ));
            }
        }
        j = j + 1;
    }
    (strip(&row), pending)
}

/// Composes frame `i` from the layouts of the lines.
pub fn render_lines(lines: &Vec<Vec<Entry>>, i: usize, char_delay: u64) -> (f: Frame)
    ensures
        views(f.rows@) == frame_rows(views(lines@), i as int, char_delay as int),
        f.pending == frame_pending(views(lines@), i as int, char_delay as int),
{
    let mut rows: Vec<Vec<char>> = Vec::new();
    let mut pending: bool = false;
    let mut l: usize = 0;
    while l < lines.len()
        invariant
            l <= lines.len(),
            rows@.len() == l,
            forall|k: int|
                0 <= k < l ==> (#[trigger] rows@[k])@ == row_of(
                    lines@[k]@,
                    i as int,
                    k,
                    char_delay as int,
                ),
            pending == pending_within(views(lines@), l as int, i as int, char_delay as int),
        decreases lines.len() - l,
    {
        let r: (Vec<char>, bool) = render_row(lines[l].as_slice(), i, l, char_delay);
        let ghost before = pending;
        let ghost all = views(lines@);
        rows.push(r.0);
        pending = pending || r.1;
        proof {
            assert(all[l as int] == lines@[l as int]@);
            if before {
                let w = choose|q: int|
                    0 <= q < l && #[trigger] row_pending(all[q], i as int, q, char_delay as int);
                assert(0 <= w < l + 1 && row_pending(all[w], i as int, w, char_delay as int));
            }
            if r.1 {
                assert(row_pending(all[l as int], i as int, l as int, char_delay as int));
            }
        }
        l = l + 1;
    }
    assert(views(rows@) =~= frame_rows(views(lines@), i as int, char_delay as int));
    Frame { rows: rows, pending: pending }
}

/// Pending never returns. If no glyph is pending in a frame, none is
/// pending in any later frame.
pub proof fn lemma_pending_never_returns(lines: Seq<Seq<Entry>>, i1: int, i2: int, char_delay: int)
    requires
        i1 <= i2,
        !frame_pending(lines, i1, char_delay),
    ensures
        !frame_pending(lines, i2, char_delay),
{
    if frame_pending(lines, i2, char_delay) {
        let l = choose|l: int|
            0 <= l < lines.len() && #[trigger] row_pending(lines[l], i2, l, char_delay);
        let j = choose|j: int|
            0 <= j < lines[l].len() && glyph_pending(lines[l], j, i2, l, char_delay);
        assert(glyph_pending(lines[l], j, i1, l, char_delay));
        assert(row_pending(lines[l], i1, l, char_delay));
    }
}

/// Completion. For lines of at most `width` entries each, no glyph is
/// pending in any frame from `settle_bound` on: a bound that depends on the
/// number of lines, the width and the delay alone.
pub proof fn lemma_completion(lines: Seq<Seq<Entry>>, width: nat, i: int, char_delay: nat)
    requires
        forall|l: int| 0 <= l < lines.len() ==> (#[trigger] lines[l]).len() <= width,
        i >= settle_bound(lines.len(), width, char_delay),
    ensures
        !frame_pending(lines, i, char_delay as int),
{
    if frame_pending(lines, i, char_delay as int) {
        let l = choose|l: int|
            0 <= l < lines.len() && #[trigger] row_pending(lines[l], i, l, char_delay as int);
        let j = choose|j: int|
            0 <= j < lines[l].len() && glyph_pending(lines[l], j, i, l, char_delay as int);
        assert(lines[l].len() <= width);
        assert(j * char_delay <= width * char_delay) by (nonlinear_arith)
            requires
                0 <= j <= width,
                0 <= char_delay,
        ;
        assert(0 <= width * char_delay) by (nonlinear_arith)
            requires
                0 <= width,
                0 <= char_delay,
        ;
        assert(false);
    }
}

/// The cells of a row whose glyphs have all passed local time 1 are the
/// same in every later frame.
pub proof fn lemma_settled_cells_are_stable(
    entries: Seq<Entry>,
    n: nat,
    i1: int,
    i2: int,
    l: int,
    char_delay: int,
)
    requires
        i1 <= i2,
        n <= entries.len(),
        !row_pending(entries, i1, l, char_delay),
    ensures
        cells(entries, n, i2, l, char_delay) == cells(entries, n, i1, l, char_delay),
    decreases n,
{
    if n > 0 {
        lemma_settled_cells_are_stable(entries, (n - 1) as nat, i1, i2, l, char_delay);
        assert(!glyph_pending(entries, n - 1, i1, l, char_delay));
    }
}

/// Resting rows are stable. Once no glyph is pending, every later frame
/// has the same rows.
pub proof fn lemma_settled_frame_is_stable(
    lines: Seq<Seq<Entry>>,
    i1: int,
    i2: int,
    char_delay: int,
)
    requires
        i1 <= i2,
        !frame_pending(lines, i1, char_delay),
    ensures
        frame_rows(lines, i2, char_delay) == frame_rows(lines, i1, char_delay),
{
    assert forall|l: int| 0 <= l < lines.len() implies row_of(lines[l], i2, l, char_delay)
        == row_of(lines[l], i1, l, char_delay) by {
        assert(!row_pending(lines[l], i1, l, char_delay));
        lemma_settled_cells_are_stable(lines[l], lines[l].len(), i1, i2, l, char_delay);
    }
    assert(frame_rows(lines, i2, char_delay) =~= frame_rows(lines, i1, char_delay));
}

/// Every row of cells has `COLUMNS` cells, and its printed form has no
/// more.
pub proof fn lemma_row_length(entries: Seq<Entry>, n: nat, i: int, l: int, char_delay: int)
    requires
        n <= entries.len(),
    ensures
        cells(entries, n, i, l, char_delay).len() == COLUMNS,
        printed(cells(entries, n, i, l, char_delay)).len() <= COLUMNS,
    decreases n,
{
    if n > 0 {
        lemma_row_length(entries, (n - 1) as nat, i, l, char_delay);
    }
    lemma_printed_length(cells(entries, n, i, l, char_delay));
}

/// Stripping never lengthens a row.
pub proof fn lemma_printed_length(row: Seq<char>)
    ensures
        printed(row).len() <= row.len(),
    decreases row.len(),
{
    if row.len() > 0 {
        lemma_printed_length(row.drop_last());
    }
}

/// A row without a continuation cell is printed as it is.
pub proof fn lemma_printed_keeps_plain_rows(row: Seq<char>)
    requires
        forall|k: int| 0 <= k < row.len() ==> row[k] != CONTINUATION,
    ensures
        printed(row) == row,
    decreases row.len(),
{
    if row.len() > 0 {
        lemma_printed_keeps_plain_rows(row.drop_last());
        assert(row.drop_last().push(row.last()) =~= row);
    } else {
        assert(row =~= Seq::<char>::empty());
    }
}

/// Once the first `n` glyphs of a narrow line have come to rest, the first
/// `n` cells hold their characters and the others are blank.
pub proof fn lemma_narrow_cells_at_rest(
    entries: Seq<Entry>,
    n: nat,
    i: int,
    l: int,
    char_delay: int,
)
    requires
        narrow(entries),
        n <= entries.len() <= COLUMNS,
        !row_pending(entries, i, l, char_delay),
    ensures
        cells(entries, n, i, l, char_delay) == Seq::new(
            COLUMNS as nat,
            |k: int|
                if k < n {
                    entries[k].ch
                } else {
                    ' '
                },
        ),
    decreases n,
{
    let want = Seq::new(
        COLUMNS as nat,
        |k: int|
            if k < n {
                entries[k].ch
            } else {
                ' '
            },
    );
    if n > 0 {
        lemma_narrow_cells_at_rest(entries, (n - 1) as nat, i, l, char_delay);
        assert(!glyph_pending(entries, n - 1, i, l, char_delay));
        assert(entries[n - 1].width == 1);
        assert(cells(entries, n, i, l, char_delay) =~= want);
    } else {
        assert(cells(entries, n, i, l, char_delay) =~= want);
    }
}

/// A narrow line at rest. Where every glyph of a line has width 1, the line
/// fits the row and no glyph is pending, the printed row is the line itself
/// followed by spaces up to `COLUMNS` cells.
pub proof fn lemma_narrow_row_at_rest(entries: Seq<Entry>, i: int, l: int, char_delay: int)
    requires
        narrow(entries),
        entries.len() <= COLUMNS,
        !row_pending(entries, i, l, char_delay),
    ensures
        row_of(entries, i, l, char_delay) == padded(entries),
{
    lemma_narrow_cells_at_rest(entries, entries.len(), i, l, char_delay);
    assert(cells(entries, entries.len(), i, l, char_delay) =~= padded(entries));
    lemma_printed_keeps_plain_rows(padded(entries));
}

/// The cells after the first `n` entries do not depend on the entries that
/// follow them.
pub proof fn lemma_cells_of_prefix(
    head: Seq<Entry>,
    tail: Seq<Entry>,
    n: nat,
    i: int,
    l: int,
    char_delay: int,
)
    requires
        n <= head.len(),
    ensures
        cells(head + tail, n, i, l, char_delay) == cells(head, n, i, l, char_delay),
    decreases n,
{
    if n > 0 {
        lemma_cells_of_prefix(head, tail, (n - 1) as nat, i, l, char_delay);
        assert((head + tail)[n - 1] == head[n - 1]);
    }
}

/// Entries that hold the continuation character leave the cells as they
/// are.
pub proof fn lemma_cells_skip_continuations(
    entries: Seq<Entry>,
    m: nat,
    n: nat,
    i: int,
    l: int,
    char_delay: int,
)
    requires
        m <= n <= entries.len(),
        forall|k: int| m <= k < n ==> (#[trigger] entries[k]).ch == CONTINUATION,
    ensures
        cells(entries, n, i, l, char_delay) == cells(entries, m, i, l, char_delay),
    decreases n,
{
    if n > m {
        lemma_cells_skip_continuations(entries, m, (n - 1) as nat, i, l, char_delay);
        assert(entries[n - 1].ch == CONTINUATION);
    }
}

/// A line at rest. Once no glyph of a line is pending, the cells of its
/// row are the resting cells of the line, whatever the frame.
pub proof fn lemma_row_at_rest(line: Seq<char>, i: int, l: int, char_delay: int)
    requires
        !row_pending(layout_of(line), i, l, char_delay),
    ensures
        cells(layout_of(line), layout_of(line).len(), i, l, char_delay) == resting_cells(line),
        row_of(layout_of(line), i, l, char_delay) == printed(resting_cells(line)),
    decreases line.len(),
{
    if line.len() > 0 {
        let c = line.last();
        let head = layout_of(line.drop_last());
        let tail = glyph_entries(c, measured_width(c));
        let all = layout_of(line);
        let at = head.len();
        assert(all == head + tail);
        if row_pending(head, i, l, char_delay) {
            let j = choose|j: int| 0 <= j < head.len() && glyph_pending(head, j, i, l, char_delay);
            assert(all[j] == head[j]);
            assert(glyph_pending(all, j, i, l, char_delay));
        }
        lemma_row_at_rest(line.drop_last(), i, l, char_delay);
        lemma_cells_of_prefix(head, tail, at, i, l, char_delay);
        lemma_counts_of_glyph(c, measured_width(c));
        assert(all[at as int] == tail[0]);
        assert(tail[0] == glyph_of(c));
        assert(!glyph_pending(all, at as int, i, l, char_delay));
        assert(cells(all, at + 1, i, l, char_delay) == resting_cells(line));
        assert forall|k: int| at + 1 <= k < all.len() implies (#[trigger] all[k]).ch
            == CONTINUATION by {
            assert(all[k] == tail[k - at]);
        }
        lemma_cells_skip_continuations(all, at + 1, all.len(), i, l, char_delay);
    }
}

} // verus!
