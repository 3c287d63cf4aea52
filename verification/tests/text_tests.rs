use grid_challenge::text::{
    chars_of, contains_chars, ends_with_chars, parse_int_chars, same_text, split_chars, string_of,
    trim_chars,
};

fn v(s: &str) -> Vec<char> {
    chars_of(s)
}

#[test]
fn parse_integers_like_std() {
    for s in ["0", "42", "-7", "+7", "007", "-9223372036854775808", "9223372036854775807"] {
        assert_eq!(parse_int_chars(&v(s)), s.parse::<i64>().ok(), "{s}");
    }
    for s in ["", "+", "-", "1a", " 1", "9223372036854775808", "-9223372036854775809", "1_0"] {
        assert_eq!(parse_int_chars(&v(s)), None, "{s}");
    }
}

#[test]
fn split_like_std() {
    for (s, sep) in [("a-b-c", '-'), ("", '-'), ("-", '-'), ("ab", '-'), ("a--", '-')] {
        let got: Vec<String> = split_chars(&v(s), sep).iter().map(|p| string_of(p)).collect();
        let want: Vec<String> = s.split(sep).map(|p| p.to_string()).collect();
        assert_eq!(got, want);
    }
}

#[test]
fn trim_like_std() {
    for s in ["  a b  ", "\t\r\nx\u{3000}", "", "   ", "\u{a0}y\u{2028}"] {
        assert_eq!(string_of(&trim_chars(&v(s))), s.trim());
    }
}

#[test]
fn compare_and_search() {
    assert!(same_text("abc", "abc"));
    assert!(!same_text("abc", "abd"));
    assert!(contains_chars(&v("File already uploaded"), &v("already uploaded")));
    assert!(!contains_chars(&v("already"), &v("already uploaded")));
    assert!(ends_with_chars(&v("run.gpx"), &v(".gpx")));
    assert!(!ends_with_chars(&v("run.gpxx"), &v(".gpx")));
}
