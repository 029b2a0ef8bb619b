use flyin::layout::layout;
use flyin::locale::{locale_tag, tag_stem};
use flyin::sample::{chosen, pick_sample, PickError};
use flyin::text::{decode, fill_sample, first_line, occurs_at, prepare, split_lines, substitute};

fn chars(s: &str) -> Vec<char> {
    s.chars().collect()
}

fn lines(s: &str) -> Vec<String> {
    split_lines(&chars(s)).iter().map(|l| l.iter().collect()).collect()
}

#[test]
fn decode_gives_the_characters() {
    assert_eq!(decode("a\u{6f22}\n"), vec!['a', '\u{6f22}', '\n']);
    assert_eq!(decode(""), Vec::<char>::new());
}

#[test]
fn split_lines_cases() {
    assert_eq!(lines(""), Vec::<String>::new());
    assert_eq!(lines("a"), vec!["a"]);
    assert_eq!(lines("a\n"), vec!["a"]);
    assert_eq!(lines("a\nb"), vec!["a", "b"]);
    assert_eq!(lines("a\n\nb\n"), vec!["a", "", "b"]);
    assert_eq!(lines("\n"), vec![""]);
    assert_eq!(lines("\n\n"), vec!["", ""]);
    assert_eq!(lines("a\r\nb\r\n"), vec!["a", "b"]);
    assert_eq!(lines("a\r"), vec!["a\r"]);
    assert_eq!(lines("a\rb\n"), vec!["a\rb"]);
    assert_eq!(lines("a\r\r\n"), vec!["a\r"]);
    assert_eq!(lines("\r\n"), vec![""]);
}

#[test]
fn split_lines_agrees_with_std() {
    for text in ["", "x", "x\ny\n", "\n\nx", "x\r\ny\r", "\r", "\r\n\r\n", "a\n\r\nb", "tab\there\n"] {
        let want: Vec<String> = text.lines().map(|l| l.to_string()).collect();
        assert_eq!(lines(text), want);
    }
}

#[test]
fn first_line_cases() {
    assert_eq!(first_line(&chars("Hello\nWorld")), chars("Hello"));
    assert_eq!(first_line(&chars("")), chars(""));
    assert_eq!(first_line(&chars("\nWorld")), chars(""));
    assert_eq!(first_line(&chars("only")), chars("only"));
}

#[test]
fn prepare_lays_out_every_line() {
    let scene = prepare(&chars("ab\n\t\n\u{6f22}"));
    assert_eq!(scene, vec![layout("ab"), layout("\t"), layout("\u{6f22}")]);
    assert!(prepare(&chars("")).is_empty());
}

#[test]
fn marker_twice_is_replaced_twice() {
    let out = fill_sample("say $$$ and $$$ again", "Hello\nsecond line");
    assert_eq!(out, chars("say Hello and Hello again"));
}

#[test]
fn sample_without_marker_is_unchanged() {
    assert_eq!(fill_sample("let x = $$;", "Hello"), chars("let x = $$;"));
    assert_eq!(fill_sample("", "Hello"), chars(""));
}

#[test]
fn marker_with_empty_text_is_removed() {
    assert_eq!(fill_sample("a$$$b", ""), chars("ab"));
}

#[test]
fn markers_are_found_left_to_right_without_overlap() {
    assert_eq!(fill_sample("$$$$", "x"), chars("x$"));
    assert_eq!(fill_sample("$$$$$$", "x"), chars("xx"));
    assert_eq!(fill_sample("$$$$$$$", "$"), chars("$$$"));
    assert_eq!(substitute(&chars("aaa"), &chars("aa"), &chars("b")), chars("ba"));
}

#[test]
fn substitute_agrees_with_std_replace() {
    for (text, pat, with) in [
        ("x $$$ y $$$", "$$$", "Hello"),
        ("abcabc", "bc", ""),
        ("abcabc", "abcabc", "z"),
        ("abc", "abcd", "z"),
        ("", "a", "z"),
        ("\u{6f22}a\u{6f22}", "\u{6f22}", "kan"),
    ] {
        let got: String = substitute(&chars(text), &chars(pat), &chars(with)).iter().collect();
        assert_eq!(got, text.replace(pat, with));
    }
}

#[test]
fn empty_pattern_occurs_nowhere() {
    assert_eq!(substitute(&chars("abc"), &chars(""), &chars("x")), chars("abc"));
}

#[test]
fn occurs_at_cases() {
    let text = chars("ab$$$");
    assert!(occurs_at(&text, 2, &chars("$$$")));
    assert!(!occurs_at(&text, 1, &chars("$$$")));
    assert!(!occurs_at(&text, 3, &chars("$$$")));
    assert!(occurs_at(&text, 5, &chars("")));
    assert!(!occurs_at(&text, 5, &chars("$")));
}

#[test]
fn locale_tag_cases() {
    assert_eq!(locale_tag(Some("en_US.UTF-8")), "en-us");
    assert_eq!(locale_tag(Some("zh_CN")), "zh-cn");
    assert_eq!(locale_tag(Some("C")), "c");
    assert_eq!(locale_tag(Some("")), "");
    assert_eq!(locale_tag(Some(".UTF-8")), "");
    assert_eq!(locale_tag(Some("sr_RS.UTF-8@latin")), "sr-rs");
    assert_eq!(locale_tag(Some("a.b.c")), "a");
    assert_eq!(locale_tag(None), "en-us");
}

#[test]
fn tag_stem_keeps_case() {
    assert_eq!(tag_stem(&chars("pt_BR.ISO_8859-1")), chars("pt-BR"));
    assert_eq!(tag_stem(&chars("de__x")), chars("de--x"));
    assert_eq!(tag_stem(&chars("")), chars(""));
}

#[test]
fn no_samples_is_an_error() {
    assert_eq!(pick_sample(&Vec::new()), Err(PickError::NoSamples));
    assert_eq!(chosen(None), Err(PickError::NoSamples));
}

#[test]
fn a_sample_is_one_of_the_list() {
    let one = vec![String::from("code/a.rs")];
    assert_eq!(pick_sample(&one), Ok(String::from("code/a.rs")));
    let many: Vec<String> = (0..7).map(|k| format!("code/{k}.rs")).collect();
    for _ in 0..50 {
        let got = pick_sample(&many).unwrap();
        assert!(many.contains(&got));
    }
    assert_eq!(chosen(Some(&many[3])), Ok(String::from("code/3.rs")));
}
