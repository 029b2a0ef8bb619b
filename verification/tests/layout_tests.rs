use flyin::layout::{glyph_width, layout, layout_chars, push_glyph, Entry, COLUMNS, CONTINUATION};

fn glyph(width: u8, ch: char) -> Entry {
    Entry { width, ch }
}

fn cont() -> Entry {
    Entry { width: 0, ch: CONTINUATION }
}

#[test]
fn plain_characters_take_one_column_each() {
    assert_eq!(layout("AB"), vec![glyph(1, 'A'), glyph(1, 'B')]);
}

#[test]
fn empty_line_has_empty_layout() {
    assert_eq!(layout(""), Vec::<Entry>::new());
}

#[test]
fn tab_takes_eight_columns() {
    let entries = layout("\t");
    assert_eq!(entries.len(), 8);
    assert_eq!(entries[0], glyph(8, '\t'));
    for k in 1..8 {
        assert_eq!(entries[k], cont());
    }
}

#[test]
fn tab_is_not_aligned_to_a_stop() {
    let entries = layout("abc\tz");
    assert_eq!(entries.len(), 3 + 8 + 1);
    assert_eq!(entries[3], glyph(8, '\t'));
    assert_eq!(entries[10], cont());
    assert_eq!(entries[11], glyph(1, 'z'));
}

#[test]
fn wide_character_takes_two_columns() {
    assert_eq!(layout("\u{6f22}"), vec![glyph(2, '\u{6f22}'), cont()]);
    assert_eq!(
        layout("a\u{3042}b"),
        vec![glyph(1, 'a'), glyph(2, '\u{3042}'), cont(), glyph(1, 'b')]
    );
}

#[test]
fn control_and_zero_width_characters_take_one_column() {
    // a control character has no measured width, a combining mark measures 0
    assert_eq!(layout("\u{7}"), vec![glyph(1, '\u{7}')]);
    assert_eq!(layout("\u{301}"), vec![glyph(1, '\u{301}')]);
}

#[test]
fn glyph_width_by_measure() {
    assert_eq!(glyph_width('\t', None), 8);
    assert_eq!(glyph_width('\t', Some(2)), 8);
    assert_eq!(glyph_width('x', Some(2)), 2);
    assert_eq!(glyph_width('x', Some(1)), 1);
    assert_eq!(glyph_width('x', Some(0)), 1);
    assert_eq!(glyph_width('x', Some(3)), 1);
    assert_eq!(glyph_width('x', None), 1);
}

#[test]
fn push_glyph_appends_glyph_and_continuations() {
    let mut out = vec![glyph(1, 'a')];
    push_glyph(&mut out, 'w', Some(2));
    assert_eq!(out, vec![glyph(1, 'a'), glyph(2, 'w'), cont()]);
    push_glyph(&mut out, 'n', None);
    assert_eq!(out, vec![glyph(1, 'a'), glyph(2, 'w'), cont(), glyph(1, 'n')]);
}

#[test]
fn layout_is_the_same_on_every_call() {
    let line = "fn main() {\t\u{6f22}\u{5b57} }";
    let first = layout(line);
    for _ in 0..5 {
        assert_eq!(layout(line), first);
    }
    let chars: Vec<char> = line.chars().collect();
    assert_eq!(layout_chars(&chars), first);
}

#[test]
fn widths_sum_to_the_columns_taken() {
    let entries = layout("a\t\u{6f22}b");
    let total: usize = entries.iter().map(|e| e.width as usize).sum();
    let glyphs = entries.iter().filter(|e| e.width != 0).count();
    let continuations = entries.iter().filter(|e| e.width == 0).count();
    assert_eq!(total, 1 + 8 + 2 + 1);
    assert_eq!(entries.len(), total);
    assert_eq!(glyphs, 4);
    assert_eq!(continuations, 7 + 1);
    assert_eq!(glyphs + continuations, entries.len());
    assert!(entries.len() <= COLUMNS);
}
