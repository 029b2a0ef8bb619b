//! Text: lines, the scene that a text lays out to, and the marker that a
//! code sample holds in place of the first line of the localized text.

use vstd::prelude::*;
use crate::layout::{layout_chars, layout_of, Entry};
use crate::frame::{frame_pending, frame_rows, render_lines, views, Frame};

verus! {

/// A line without the carriage return at its end, if it has one.
pub open spec fn without_cr(line: Seq<char>) -> Seq<char> {
    if line.len() > 0 && line.last() == '\r' {
        line.drop_last()
    } else {
        line
    }
}

/// The text cut at every line feed. A segment that a line feed ends loses
/// a carriage return just before it; the last segment is what follows the
/// last line feed, and is empty where the text ends in one.
pub open spec fn segments(text: Seq<char>) -> Seq<Seq<char>>
    decreases text.len(),
{
    if text.len() == 0 {
        seq![Seq::empty()]
    } else {
        let before = segments(text.drop_last());
        if text.last() == '\n' {
            before.update(before.len() - 1, without_cr(before.last())).push(Seq::empty())
        } else {
            before.update(before.len() - 1, before.last().push(text.last()))
        }
    }
}

/// The lines of a text: its segments, without the last one where that is
/// empty. The line feed at the end of a text is optional.
pub open spec fn lines_of(text: Seq<char>) -> Seq<Seq<char>> {
    if segments(text).last().len() == 0 {
        segments(text).drop_last()
    } else {
        segments(text)
    }
}

/// The parts put together again, with a line feed between one and the next.
pub open spec fn joined(parts: Seq<Seq<char>>) -> Seq<char>
    decreases parts.len(),
{
    if parts.len() == 0 {
        Seq::empty()
    } else if parts.len() == 1 {
        parts[0]
    } else {
        joined(parts.drop_last()) + seq!['\n'] + parts.last()
    }
}

/// The first line of a text, empty where the text has no line.
pub open spec fn first_line_of(text: Seq<char>) -> Seq<char> {
    if lines_of(text).len() == 0 {
        Seq::empty()
    } else {
        lines_of(text)[0]
    }
}

/// The layouts of the lines of a text.
pub open spec fn scene_of(text: Seq<char>) -> Seq<Seq<Entry>> {
    Seq::new(lines_of(text).len(), |l: int| layout_of(lines_of(text)[l]))
}

/// The marker that a code sample holds: three dollar signs.
pub open spec fn marker() -> Seq<char> {
    seq!['$', '$', '$']
}

/// The text with every occurrence of `pattern` replaced by `with`, found
/// from left to right, none overlapping another. An empty pattern occurs
/// nowhere.
pub open spec fn replaced(text: Seq<char>, pattern: Seq<char>, with: Seq<char>) -> Seq<char>
    decreases text.len(),
{
    if text.len() == 0 {
        Seq::empty()
    } else if pattern.len() > 0 && pattern.is_prefix_of(text) {
        with + replaced(text.skip(pattern.len() as int), pattern, with)
    } else {
        seq![text[0]] + replaced(text.skip(1), pattern, with)
    }
}

/// No segment holds a line feed.
pub proof fn lemma_segments_hold_no_line_feed(text: Seq<char>)
    ensures
        segments(text).len() >= 1,
        forall|l: int, q: int|
            0 <= l < segments(text).len() && 0 <= q < segments(text)[l].len() ==> segments(
                text,
            )[l][q] != '\n',
    decreases text.len(),
{
    if text.len() > 0 {
        lemma_segments_hold_no_line_feed(text.drop_last());
    }
}

/// The segments of a text without carriage returns hold none, and joined
/// by line feeds they are the text again: the text is cut at its line
/// feeds, and nowhere else.
pub proof fn lemma_segments_join_back(text: Seq<char>)
    requires
        forall|k: int| 0 <= k < text.len() ==> text[k] != '\r',
    ensures
        forall|l: int, q: int|
            0 <= l < segments(text).len() && 0 <= q < segments(text)[l].len() ==> segments(
                text,
            )[l][q] != '\r',
        joined(segments(text)) == text,
    decreases text.len(),
{
    if text.len() == 0 {
        assert(joined(segments(text)) =~= text);
    } else {
        let before = segments(text.drop_last());
        let last = before.len() - 1;
        lemma_segments_join_back(text.drop_last());
        lemma_segments_hold_no_line_feed(text.drop_last());
        if text.last() == '\n' {
            if before[last].len() > 0 {
                assert(before[last][before[last].len() - 1] != '\r');
            }
            assert(before.update(last, without_cr(before.last())) =~= before);
            assert(segments(text).drop_last() =~= before);
            assert(joined(segments(text)) =~= text.drop_last().push(text.last()));
        } else {
            let grown = before.last().push(text.last());
            assert(segments(text) == before.update(last, grown));
            if before.len() == 1 {
                assert(joined(segments(text)) =~= text.drop_last().push(text.last()));
            } else {
                assert(segments(text).drop_last() =~= before.drop_last());
                assert(joined(segments(text)) =~= (joined(before.drop_last()) + seq!['\n']
                    + before.last()).push(text.last()));
            }
        }
        assert(text.drop_last().push(text.last()) =~= text);
    }
}

/// Replacing a pattern by itself leaves the text as it is.
pub proof fn lemma_replaced_by_itself(text: Seq<char>, pattern: Seq<char>)
    ensures
        replaced(text, pattern, pattern) == text,
    decreases text.len(),
{
    if text.len() == 0 {
        assert(replaced(text, pattern, pattern) =~= text);
    } else if pattern.len() > 0 && pattern.is_prefix_of(text) {
        lemma_replaced_by_itself(text.skip(pattern.len() as int), pattern);
        assert(pattern + text.skip(pattern.len() as int) =~= text);
    } else {
        lemma_replaced_by_itself(text.skip(1), pattern);
        assert(seq![text[0]] + text.skip(1) =~= text);
    }
}

/// No line of a text holds a line feed.
pub proof fn lemma_lines_hold_no_line_feed(text: Seq<char>)
    ensures
        forall|l: int, q: int|
            0 <= l < lines_of(text).len() && 0 <= q < lines_of(text)[l].len() ==> lines_of(
                text,
            )[l][q] != '\n',
{
    lemma_segments_hold_no_line_feed(text);
}

/// The characters of a string slice.
pub fn decode(text: &str) -> (chars: Vec<char>)
    ensures
        chars@ == text@,
{
    let n: usize = text.unicode_len();
    let mut chars: Vec<char> = Vec::new();
    let mut k: usize = 0;
    while k < n
        invariant
            k <= n,
            n == text@.len(),
            chars@ == text@.take(k as int),
        decreases n - k,
    {
        chars.push(text.get_char(k));
        k = k + 1;
        assert(chars@ =~= text@.take(k as int));
    }
    assert(text@.take(n as int) =~= text@);
    chars
}

/// Splits a text into its lines.
pub fn split_lines(text: &[char]) -> (lines: Vec<Vec<char>>)
    ensures
        views(lines@) == lines_of(text@),
{
    let mut done: Vec<Vec<char>> = Vec::new();
    let mut cur: Vec<char> = Vec::new();
    let mut k: usize = 0;
    assert(views(done@).push(cur@) =~~= segments(text@.take(0)));
    while k < text.len()
        invariant
            k <= text.len(),
            segments(text@.take(k as int)) == views(done@).push(cur@),
        decreases text.len() - k,
    {
        let c: char = text[k];
        let ghost before = segments(text@.take(k as int));
        proof {
            assert(text@.take(k + 1).drop_last() =~= text@.take(k as int));
            assert(before.last() == cur@);
            assert(before.len() == done@.len() + 1);
        }
        if c == '\n' {
            let n: usize = cur.len();
            if n > 0 && cur[n - 1] == '\r' {
                cur.pop();
            }
            assert(cur@ =~= without_cr(before.last()));
            done.push(cur);
            cur = Vec::new();
        } else {
            cur.push(c);
        }
        k = k + 1;
        assert(segments(text@.take(k as int)) =~~= views(done@).push(cur@));
    }
    assert(text@.take(k as int) =~= text@);
    if cur.len() > 0 {
        done.push(cur);
        assert(views(done@) =~~= lines_of(text@));
    } else {
        assert(views(done@) =~~= lines_of(text@));
    }
    done
}

/// The first line of a text, empty where the text has no line.
pub fn first_line(text: &[char]) -> (line: Vec<char>)
    ensures
        line@ == first_line_of(text@),
{
    let mut lines: Vec<Vec<char>> = split_lines(text);
    if lines.len() == 0 {
        Vec::new()
    } else {
        assert(views(lines@)[0] == lines@[0]@);
        lines.swap_remove(0)
    }
}

/// Lays out every line of a text.
pub fn prepare(text: &[char]) -> (scene: Vec<Vec<Entry>>)
    ensures
        views(scene@) == scene_of(text@),
{
    let lines: Vec<Vec<char>> = split_lines(text);
    let mut scene: Vec<Vec<Entry>> = Vec::new();
    let mut l: usize = 0;
    while l < lines.len()
        invariant
            l <= lines.len(),
            scene@.len() == l,
            views(lines@) == lines_of(text@),
            forall|k: int| 0 <= k < l ==> (#[trigger] scene@[k])@ == layout_of(lines@[k]@),
        decreases lines.len() - l,
    {
        scene.push(layout_chars(lines[l].as_slice()));
        l = l + 1;
    }
    assert forall|k: int| 0 <= k < lines@.len() implies lines@[k]@ == lines_of(text@)[k] by {
        assert(views(lines@)[k] == lines@[k]@);
    }
    assert(views(scene@) =~= scene_of(text@));
    scene
}

/// Composes frame `i` of a text: for each line its printed row, and
/// whether any glyph is still pending, so that another frame is due.
pub fn render_frame(text: &str, i: usize, char_delay: u64) -> (f: Frame)
    ensures
        views(f.rows@) == frame_rows(scene_of(text@), i as int, char_delay as int),
        f.pending == frame_pending(scene_of(text@), i as int, char_delay as int),
{
    let chars: Vec<char> = decode(text);
    let scene: Vec<Vec<Entry>> = prepare(chars.as_slice());
    render_lines(&scene, i, char_delay)
}

/// Whether `pattern` stands in `text` at index `at`.
pub fn occurs_at(text: &[char], at: usize, pattern: &[char]) -> (found: bool)
    requires
        at <= text.len(),
    ensures
        found == pattern@.is_prefix_of(text@.skip(at as int)),
{
    let m: usize = pattern.len();
    if m > text.len() - at {
        return false;
    }
    let mut k: usize = 0;
    while k < m
        invariant
            k <= m,
            m == pattern.len(),
            at + m <= text.len(),
            forall|q: int| 0 <= q < k ==> pattern@[q] == text@[at + q],
        decreases m - k,
    {
        if pattern[k] != text[at + k] {
            assert(text@.skip(at as int)[k as int] != pattern@[k as int]);
            return false;
        }
        k = k + 1;
    }
    assert(pattern@ =~= text@.skip(at as int).subrange(0, m as int));
    true
}

/// Replaces every occurrence of `pattern` in `text`.
pub fn substitute(text: &[char], pattern: &[char], with: &[char]) -> (out: Vec<char>)
    ensures
        out@ == replaced(text@, pattern@, with@),
{
    let mut out: Vec<char> = Vec::new();
    let mut k: usize = 0;
    assert(text@.skip(0) =~= text@);
    while k < text.len()
        invariant
            k <= text.len(),
            out@ + replaced(text@.skip(k as int), pattern@, with@) == replaced(
                text@,
                pattern@,
                with@,
            ),
        decreases text.len() - k,
    {
        let ghost rest = text@.skip(k as int);
        let ghost prefix = out@;
        if pattern.len() > 0 && occurs_at(text, k, pattern) {
            let mut q: usize = 0;
            while q < with.len()
                invariant
                    q <= with.len(),
                    out@ == prefix + with@.take(q as int),
                decreases with.len() - q,
            {
                out.push(with[q]);
                q = q + 1;
                assert(out@ =~= prefix + with@.take(q as int));
            }
            assert(with@.take(q as int) =~= with@);
            k = k + pattern.len();
            assert(rest.skip(pattern@.len() as int) =~= text@.skip(k as int));
            assert(out@ + replaced(text@.skip(k as int), pattern@, with@) =~= prefix + replaced(
                rest,
                pattern@,
                with@,
            ));
        } else {
            out.push(text[k]);
            k = k + 1;
            assert(rest.skip(1) =~= text@.skip(k as int));
            assert(out@ + replaced(text@.skip(k as int), pattern@, with@) =~= prefix + replaced(
                rest,
                pattern@,
                with@,
            ));
        }
    }
    assert(out@ + Seq::<char>::empty() =~= out@);
    out
}

/// A code sample with every marker replaced by the first line of the
/// localized text.
pub fn fill_sample(code: &str, texts: &str) -> (out: Vec<char>)
    ensures
        out@ == replaced(code@, marker(), first_line_of(texts@)),
{
    let code_chars: Vec<char> = decode(code);
    let text_chars: Vec<char> = decode(texts);
    let first: Vec<char> = first_line(text_chars.as_slice());
    let mark: [char; 3] = ['$', '$', '$'];
    assert(mark@ =~= marker());
    substitute(code_chars.as_slice(), mark.as_slice(), first.as_slice())
}

} // verus!
