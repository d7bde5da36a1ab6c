use connector_cloudflare::entries::{find_entry, put_entry};
use connector_cloudflare::json::Json;
use connector_cloudflare::text::{
    contains, cut_bytes, ends_with, find, find_last, join, less, replace, split_lines,
    split_white, starts_with, strip_all, to_decimal, to_lowercase, trim, trim_end,
};

#[test]
fn text_is_searched() {
    assert_eq!(find("a=b=c", "="), Some(1));
    assert_eq!(find("abc", ""), Some(0));
    assert_eq!(find("ab", "abc"), None);
    assert_eq!(find_last("a.b.c", '.'), Some(3));
    assert_eq!(find_last("abc", '.'), None);
    assert!(contains("a..b", ".."));
    assert!(!contains("a.b", ".."));
    assert!(starts_with("/etc", "/"));
    assert!(!starts_with("", "/"));
    assert!(ends_with("keyRef", "Ref"));
    assert!(!ends_with("Reference", "Ref"));
}

#[test]
fn text_is_compared_as_its_bytes_are() {
    for (a, b) in [("", "a"), ("a", "ab"), ("Z", "a"), ("\u{ffff}", "\u{10000}")] {
        assert!(less(a, b));
        assert!(!less(b, a));
        assert!(a < b);
    }
    assert!(!less("same", "same"));
}

#[test]
fn text_is_trimmed_and_cut() {
    assert_eq!(trim("\u{3000} a b \n"), "a b");
    assert_eq!(trim_end(" a\u{85}\t\r\n"), " a");
    assert_eq!(trim(" \t"), "");
    assert_eq!(strip_all("preview_preview_x", "preview_"), "x");
    assert_eq!(cut_bytes("h\u{e9}llo", 3), "h\u{e9}");
    assert_eq!(cut_bytes("h\u{e9}llo", 2), "h\u{e9}llo");
    assert_eq!(cut_bytes("abc", 9), "abc");
}

#[test]
fn text_is_rewritten() {
    assert_eq!(to_lowercase("AbC-\u{c9}"), "abc-\u{c9}");
    assert_eq!(replace("a\\b\\c", '\\', '/'), "a/b/c");
}

#[test]
fn text_is_split_and_joined() {
    let text = "one\r\ntwo\n\nlast\r";
    assert_eq!(split_lines(text), text.lines().map(|line| line.to_string()).collect::<Vec<_>>());
    assert!(split_lines("").is_empty());
    let words: Vec<String> =
        split_white(" a\u{2003}b\n").into_iter().filter(|word| !word.is_empty()).collect();
    assert_eq!(words, ["a", "b"]);
    assert_eq!(join(&vec!["a".to_string(), "b".to_string()], ", "), "a, b");
    assert_eq!(join(&Vec::new(), ", "), "");
}

#[test]
fn numbers_are_written_in_decimal() {
    for n in [0, 9, 10, 65535, u64::MAX] {
        assert_eq!(to_decimal(n), n.to_string());
    }
}

#[test]
fn documents_are_written_as_serde_writes_them() {
    let mut text = String::new();
    for c in '\0'..='\u{ff}' {
        text.push(c);
    }
    let document = Json::Array(vec![
        Json::Null,
        Json::Number(7),
        Json::Text(text.clone()),
        Json::Object(vec![("a\"".to_string(), Json::Array(Vec::new()))]),
        Json::Object(Vec::new()),
    ]);
    let written = document.to_text();
    let value: serde_json::Value = serde_json::from_str(&written).unwrap();
    assert_eq!(value[2], text.as_str());
    assert_eq!(serde_json::to_string(&value).unwrap(), written);
    assert_eq!(document.at(1), Some(&Json::Number(7)));
    assert_eq!(document.at(5), None);
    assert_eq!(document.at(3).unwrap().get("a\""), Some(&Json::Array(Vec::new())));
    assert_eq!(document.at(3).unwrap().get("b"), None);
    assert_eq!(document.get("a"), None);
}

#[test]
fn entries_are_kept_by_name() {
    let mut entries: Vec<(String, u32)> = Vec::new();
    for (name, value) in [("b", 1), ("a", 2), ("c", 3), ("b", 4)] {
        put_entry(&mut entries, name.to_string(), value);
    }
    assert_eq!(
        entries,
        vec![("a".to_string(), 2), ("b".to_string(), 4), ("c".to_string(), 3)]
    );
    assert_eq!(find_entry(&entries, "b"), Some(1));
    assert_eq!(find_entry(&entries, "d"), None);
}
