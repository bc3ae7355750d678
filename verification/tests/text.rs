use rmtg::text::{
    join_exec, lines_exec, parse_unsigned_exec, replace_exec, rsplit_once_exec, split_exec,
    split_once_exec, string_of, to_ascii_lowercase, trim_exec, without_char_exec,
};

fn cs(s: &str) -> Vec<char> {
    s.chars().collect()
}

fn st(v: &[char]) -> String {
    v.iter().collect()
}

#[test]
fn split_like_str_split() {
    let parts = split_exec(&cs("a, b,, c"), &cs(", "));
    assert_eq!(parts.iter().map(|p| st(p)).collect::<Vec<_>>(), "a, b,, c".split(", ").collect::<Vec<_>>());
    let parts = split_exec(&cs(""), &cs(","));
    assert_eq!(parts.len(), 1);
}

#[test]
fn split_once_and_rsplit_once() {
    let (a, b) = split_once_exec(&cs("k: v: w"), &cs(": ")).unwrap();
    assert_eq!((st(&a), st(&b)), ("k".to_string(), "v: w".to_string()));
    let (a, b) = rsplit_once_exec(&cs("k: v: w"), &cs(": ")).unwrap();
    assert_eq!((st(&a), st(&b)), ("k: v".to_string(), "w".to_string()));
    assert!(split_once_exec(&cs("kv"), &cs(": ")).is_none());
    assert!(rsplit_once_exec(&cs(""), &cs("/")).is_none());
}

#[test]
fn replace_like_str_replace() {
    for (s, p, r) in [("a and b and c", " and ", " "), ("aaaa", "aa", "b"), ("x", "y", "z")] {
        assert_eq!(st(&replace_exec(&cs(s), &cs(p), &cs(r))), s.replace(p, r));
    }
}

#[test]
fn join_and_remove_chars() {
    let parts = vec![cs("a"), cs("b"), cs("c")];
    assert_eq!(st(&join_exec(&parts, &cs("-"))), "a-b-c");
    assert_eq!(st(&join_exec(&vec![], &cs("-"))), "");
    assert_eq!(st(&without_char_exec(&cs("a.b.c."), '.')), "abc");
}

#[test]
fn lines_like_str_lines() {
    for s in ["a\nb", "a\r\nb\r\n", "", "\n", "a\n\nb", "x\r"] {
        let got: Vec<String> = lines_exec(&cs(s)).iter().map(|l| st(l)).collect();
        let want: Vec<String> = s.lines().map(|l| l.to_string()).collect();
        assert_eq!(got, want, "{s:?}");
    }
}

#[test]
fn trim_like_str_trim() {
    for s in ["  a b  ", "\u{3000}x\t", "", "   ", "a"] {
        assert_eq!(st(&trim_exec(&cs(s))), s.trim());
    }
}

#[test]
fn parse_unsigned_like_str_parse() {
    assert_eq!(parse_unsigned_exec(&cs("42"), 255), Some(42));
    assert_eq!(parse_unsigned_exec(&cs("+7"), 255), Some(7));
    assert_eq!(parse_unsigned_exec(&cs("256"), 255), None);
    assert_eq!(parse_unsigned_exec(&cs(""), 255), None);
    assert_eq!(parse_unsigned_exec(&cs("1a"), 255), None);
    assert_eq!(parse_unsigned_exec(&cs("+"), 255), None);
}

#[test]
fn lowercase_and_strings() {
    assert_eq!(st(&to_ascii_lowercase(&cs("AbC-É"))), "abc-É");
    assert_eq!(string_of(&cs("héllo")), "héllo");
}
