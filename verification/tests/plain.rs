use ritz::notify::notify_args;
use ritz::number::{decimal, parse_unsigned};
use ritz::ordered::OrderedMap;
use ritz::resources::{export_temp, exports};
use ritz::sorting::{sort, text_at_most};
use ritz::template::{read_piece, Piece};
use ritz::text::{
    alnum, chars_of, contains_text, find, join, lines, replace, same_text, seek, split_char,
    split_once, split_words, starts_with, strip_prefix, text_of, trim, white,
};
use ritz::value::{bool_to_text, parse_json, same_value, to_json, value_to_string, Json, Number};

fn toks(s: &[&str]) -> Vec<String> {
    s.iter().map(|x| x.to_string()).collect()
}

#[test]
fn characters_are_classed_as_std_does() {
    for n in 0..=0x10FFFFu32 {
        if let Some(c) = char::from_u32(n) {
            assert_eq!(white(c), c.is_whitespace(), "{n:x}");
            assert_eq!(alnum(c), c.is_ascii_alphanumeric(), "{n:x}");
        }
    }
}

#[test]
fn texts_are_cut_as_std_does() {
    for s in ["", " ", "a", " a b ", "\u{3000}x\u{a0}", "\t\n", "é é", "a\u{200b} "] {
        assert_eq!(trim(s), s.trim());
        assert_eq!(split_words(s), s.split_whitespace().collect::<Vec<_>>());
    }
    for s in ["", "\n", "a", "a\n", "a\r\nb", "a\n\nb\n", "\r", "a\rb\n"] {
        assert_eq!(lines(s), s.lines().collect::<Vec<_>>());
        assert_eq!(split_char(s, '\n'), s.split('\n').collect::<Vec<_>>());
    }
    for s in ["", "=", "a=b=c", "ab", "=x", "x="] {
        let std = s.split_once('=').map(|(a, b)| (a.to_string(), b.to_string()));
        assert_eq!(split_once(s, '='), std);
    }
}

#[test]
fn texts_are_searched_as_std_does() {
    for (s, p) in [("abcabc", "bc"), ("aaa", "aa"), ("", "a"), ("abc", "abc"), ("äbä", "ä")] {
        assert_eq!(starts_with(s, p), s.starts_with(p));
        assert_eq!(strip_prefix(s, p), s.strip_prefix(p).map(|x| x.to_string()));
        assert_eq!(replace(s, p, "-"), s.replace(p, "-"));
        let at = find(&chars_of(s), &chars_of(p));
        assert_eq!(at.is_some(), s.contains(p));
    }
    assert_eq!(find(&chars_of("abcabc"), &chars_of("bc")), Some(1));
    assert_eq!(find(&chars_of("ab"), &chars_of("")), Some(0));
    assert_eq!(seek(&chars_of("a=b"), '=', 0), 1);
    assert_eq!(seek(&chars_of("ab"), '=', 1), 2);
    assert_eq!(text_of(&chars_of("héllo"), 1, 3), "él");
    assert!(same_text("a", "a") && !same_text("a", "b"));
    assert!(contains_text(&toks(&["a", "b"]), "b"));
    assert!(!contains_text(&toks(&["a", "b"]), "c"));
    assert_eq!(join(&toks(&["a", "", "b"]), ", "), "a, , b");
    assert_eq!(join(&toks(&[]), ","), "");
}

#[test]
fn numbers_are_read_as_std_does() {
    for s in [
        "", "+", "-", "0", "+7", "-0", "00012", " 1", "1 ", "4294967295", "4294967296",
        "18446744073709551615", "18446744073709551616", "99999999999999999999999", "12a", "++1",
        "१",
    ] {
        assert_eq!(parse_unsigned(s, u64::MAX), s.parse::<u64>().ok(), "{s}");
        let narrow = parse_unsigned(s, u32::MAX as u64);
        assert_eq!(narrow, s.parse::<u32>().ok().map(u64::from), "{s}");
    }
    for n in [0, 9, 10, 4096, u64::MAX] {
        assert_eq!(decimal(n), n.to_string());
        assert_eq!(parse_unsigned(&decimal(n), u64::MAX), Some(n));
    }
}

#[test]
fn entries_keep_their_order() {
    let mut m: OrderedMap<u64> = OrderedMap::new();
    assert!(m.is_empty());
    m.insert("b".into(), 1);
    m.insert("a".into(), 2);
    m.insert("c".into(), 3);
    m.insert("b".into(), 4);
    assert_eq!(m.len(), 3);
    assert_eq!(m.key_at(0), "b");
    assert_eq!(m.get("b"), Some(&4));
    assert_eq!(*m.value_at(2), 3);
    assert_eq!(m.index_of("c"), Some(2));
    assert_eq!(m.index_of("d"), None);
    assert_eq!(m.shift_remove("b"), Some(4));
    assert_eq!(m.shift_remove("b"), None);
    assert_eq!(m.key_at(0), "a");
    assert_eq!(m.get("a"), Some(&2));
    assert_eq!(m.get("c"), Some(&3));
    assert!(!m.contains_key("b"));
    let copy = m.clone();
    assert_eq!(copy.len(), 2);
    assert_eq!(copy.key_at(1), "c");
}

#[test]
fn sorting_is_that_of_std() {
    let v = toks(&["b", "", "B", "a", "é", "ab", "z", "\u{10000}", "\u{ffff}", "ab"]);
    let mut std = v.clone();
    std.sort();
    assert_eq!(sort(v.clone()), std);
    for a in &v {
        for b in &v {
            assert_eq!(text_at_most(a, b), a <= b);
        }
    }
}

#[test]
fn templates_are_read_piece_by_piece() {
    let chars = chars_of("{{a}{b}");
    let (piece, next) = read_piece(&chars, 0);
    assert!(matches!(piece, Piece::Open));
    assert_eq!(next, 2);
    assert!(matches!(read_piece(&chars, 2), (Piece::Char('a'), 3)));
    assert!(matches!(read_piece(&chars, 3), (Piece::Char('}'), 4)));
    let (piece, next) = read_piece(&chars, 4);
    assert!(matches!(piece, Piece::Slot(ref name) if name == "b"));
    assert_eq!(next, 7);
}

fn converted(v: &Json) -> serde_json::Value {
    match v {
        Json::Null => serde_json::Value::Null,
        Json::Bool(b) => serde_json::Value::Bool(*b),
        Json::Number(n) => serde_json::from_str(&n.text).unwrap(),
        Json::String(s) => serde_json::Value::String(s.clone()),
        Json::Array(a) => serde_json::Value::Array(a.iter().map(converted).collect()),
        Json::Object(o) => {
            serde_json::Value::Object(o.iter().map(|(k, v)| (k.clone(), converted(v))).collect())
        }
    }
}

#[test]
fn json_is_written_as_serde_json_does() {
    let text = |s: &str| Json::String(s.to_string());
    let num = |s: &str| Json::Number(Number { text: s.to_string() });
    let all: String = (0..0x250u32).filter_map(char::from_u32).collect();
    let v = Json::Object(vec![
        ("a\"b".into(), Json::Array(vec![])),
        ("b".into(), Json::Array(vec![Json::Null, Json::Bool(true), num("-1.5"), num("7")])),
        ("c".into(), text(&all)),
        ("d".into(), Json::Object(vec![])),
        ("e".into(), text("\u{2028}\u{1F600}/")),
    ]);
    assert_eq!(to_json(&v), converted(&v).to_string());
    assert!(same_value(&v, &v.clone()));
    assert!(!same_value(&v, &Json::Null));
}

#[test]
fn values_become_plain_text() {
    let text = |s: &str| Json::String(s.to_string());
    assert_eq!(value_to_string(&text("a \"b\"")), "a \"b\"");
    assert_eq!(value_to_string(&Json::Bool(false)), "false");
    assert_eq!(value_to_string(&Json::Number(Number { text: "3".into() })), "3");
    assert_eq!(bool_to_text(true), "true");
}

#[test]
fn bundled_files_do_not_overwrite() {
    let new: &[u8] = b"new";
    assert!(exports(false, false, None, new));
    assert!(!exports(false, true, Some(b"old"), new));
    assert!(exports(true, true, Some(b"old"), new));
    assert!(!exports(true, true, Some(b"new"), new));
    assert!(!exports(false, true, None, new));
    assert!(exports(true, true, Some(b"ne"), new));
}

#[test]
fn notifications() {
    assert_eq!(
        notify_args(Some("/i.png"), "s", "b"),
        toks(&["-a", "Ritz Launcher", "-i", "/i.png", "s", "b"])
    );
    assert_eq!(notify_args(None, "s", "b"), toks(&["-a", "Ritz Launcher", "s", "b"]));
}

#[test]
fn files_are_written_under_a_free_name() {
    assert_eq!(export_temp("/c/a.json", &toks(&["/c/a.json", "/c/a.tmp"])), "/c/a.json.tmp");
    let taken = toks(&["/c/a.json.tmp", "/c/a.json.tmp~"]);
    assert_eq!(export_temp("/c/a.json", &taken), "/c/a.json.tmp~~");
}

#[test]
fn json_is_read_and_written_back() {
    let v = parse_json(br#" {"b": [1, true, null], "a": "x\ny"} "#).unwrap();
    assert_eq!(to_json(&v), r#"{"a":"x\ny","b":[1,true,null]}"#);
    assert!(parse_json(b"{").is_none());
}
