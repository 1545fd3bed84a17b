use lnmai::text::{
    chars_of, extract_between, find, parse_usize_exec, same_chars, split, split_lines,
    split_words, string_of, trim_exec,
};

fn cv(s: &str) -> Vec<char> {
    s.chars().collect()
}

fn sv(v: &Vec<Vec<char>>) -> Vec<String> {
    v.iter().map(|x| x.iter().collect()).collect()
}

#[test]
fn chars_of_keeps_every_character() {
    assert_eq!(chars_of("a\u{e9}b"), vec!['a', '\u{e9}', 'b']);
    assert_eq!(chars_of(""), Vec::<char>::new());
}

#[test]
fn find_gives_first_occurrence_from_position() {
    let s = cv("abcabc");
    assert_eq!(find(&s, &cv("bc"), 0), Some(1));
    assert_eq!(find(&s, &cv("bc"), 2), Some(4));
    assert_eq!(find(&s, &cv("bc"), 5), None);
    assert_eq!(find(&s, &cv(""), 3), Some(3));
    assert_eq!(find(&s, &cv("abcabcd"), 0), None);
}

#[test]
fn split_matches_str_split() {
    for (text, pat) in [("a,b,,c", ","), (",a,", ","), ("", ","), ("x--- !u!1 y--- !u!1 ", "--- !u!1 "), ("abc", "z")] {
        let expected: Vec<String> = text.split(pat).map(|p| p.to_string()).collect();
        assert_eq!(sv(&split(&cv(text), &cv(pat))), expected);
    }
}

#[test]
fn split_lines_matches_str_lines() {
    for text in ["a\nb", "a\r\nb\r\n", "\n\n", "", "x\r", "one\n\ntwo\n", "\r\n"] {
        let expected: Vec<String> = text.lines().map(|p| p.to_string()).collect();
        assert_eq!(sv(&split_lines(&cv(text))), expected, "text {:?}", text);
    }
}

#[test]
fn split_words_matches_split_whitespace() {
    for text in ["  v 1.0  2\t3 ", "", "   ", "a\u{a0}b\u{3000}c", "f 1/2/3 4//5"] {
        let expected: Vec<String> = text.split_whitespace().map(|p| p.to_string()).collect();
        assert_eq!(sv(&split_words(&cv(text))), expected, "text {:?}", text);
    }
}

#[test]
fn trim_matches_str_trim() {
    for text in ["  -45 ", "", "   ", "\u{2003}x y\t", "0"] {
        let got: String = trim_exec(&cv(text)).iter().collect();
        assert_eq!(got, text.trim());
    }
}

#[test]
fn parse_usize_matches_str_parse() {
    for text in ["12", "+7", "+", "-1", "", "007", "1a", "18446744073709551615", "18446744073709551616", "99999999999999999999999"] {
        assert_eq!(parse_usize_exec(&cv(text)), text.parse::<usize>().ok(), "text {:?}", text);
    }
}

#[test]
fn extract_between_takes_text_after_first_start() {
    let text = cv("m_Mesh: {fileID: 42, guid: abc} m_Mesh: {fileID: 7, guid: x}");
    let got = extract_between(&text, &cv("m_Mesh: {fileID: "), &cv(", guid:"));
    assert_eq!(got, Some(cv("42")));
    assert_eq!(extract_between(&text, &cv("nothing"), &cv(",")), None);
    assert_eq!(extract_between(&cv("start but no end"), &cv("start"), &cv("}")), None);
    assert_eq!(extract_between(&cv("a{}b"), &cv("{"), &cv("}")), Some(vec![]));
}

#[test]
fn same_chars_compares_contents() {
    assert!(same_chars(&cv("C1"), &cv("C1")));
    assert!(!same_chars(&cv("C1"), &cv("C")));
    assert!(!same_chars(&cv("C1"), &cv("C2")));
}

#[test]
fn string_of_builds_the_same_text() {
    assert_eq!(string_of(&cv("A3")), "A3");
    assert_eq!(string_of(&vec![]), "");
}
