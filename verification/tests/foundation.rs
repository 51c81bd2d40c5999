//! Texts, JSON and order.
use ronin::json::{
    parse_json, parse_json_bytes, read_json, ArrayBuilder, Json, JsonNumber, ObjectBuilder,
};
use ronin::order::{sort_texts, text_before};
use ronin::text::{
    cat2, cat3, cat4, cat5, chars_of, contains, count_chars, count_occurrences, ends_with, is_blank,
    is_white_space, join, lower_ascii, lower_ascii_char, number_text, pad_end, pad_start,
    push_times, replace_char, replace_first, same, signed_text, split_char, split_lines,
    split_words, starts_with, strip_prefix, take_chars, text_of, text_of_all, trim, trim_end,
    trim_start,
};

#[test]
fn white_space_is_what_the_standard_says() {
    for n in 0..=0x10ffff {
        if let Some(c) = char::from_u32(n) {
            assert_eq!(is_white_space(c), c.is_whitespace(), "{n:x}");
        }
    }
}

#[test]
fn texts_are_trimmed_and_split_as_the_standard_does() {
    for text in ["", " ", " a ", "\u{3000}a\tb \n", "a\r\nb\nc", "\r\n", "a\r", "x\n\n", "ab  cd"] {
        assert_eq!(trim(text), text.trim());
        assert_eq!(trim_start(text), text.trim_start());
        assert_eq!(trim_end(text), text.trim_end());
        assert_eq!(is_blank(text), text.trim().is_empty());
        assert_eq!(split_words(text), text.split_whitespace().collect::<Vec<_>>());
        assert_eq!(split_lines(text), text.lines().collect::<Vec<_>>());
        assert_eq!(split_char(text, ' '), text.split(' ').collect::<Vec<_>>());
        assert_eq!(count_chars(text), text.chars().count());
        assert_eq!(lower_ascii(text), text.to_ascii_lowercase());
        for part in ["a", "b", "ab", "\n", ""] {
            assert_eq!(starts_with(text, part), text.starts_with(part));
            assert_eq!(ends_with(text, part), text.ends_with(part));
            assert_eq!(contains(text, part), text.contains(part));
            assert_eq!(strip_prefix(text, part), text.strip_prefix(part).map(str::to_string));
            if !part.is_empty() {
                assert_eq!(count_occurrences(text, part), text.matches(part).count());
                assert_eq!(replace_first(text, part, "+"), text.replacen(part, "+", 1));
            }
        }
    }
}

#[test]
fn texts_are_built() {
    assert_eq!(cat2("a", "b"), "ab");
    assert_eq!(cat3("a", "b", "c"), "abc");
    assert_eq!(cat4("a", "b", "c", "d"), "abcd");
    assert_eq!(cat5("a", "b", "c", "d", "é"), "abcdé");
    assert!(same("é", "é") && !same("e", "é"));
    let v = chars_of("héllo");
    assert_eq!(text_of(&v, 1, 3), "él");
    assert_eq!(text_of_all(&v), "héllo");
    assert_eq!(take_chars("héllo", 2), "hé");
    assert_eq!(take_chars("h", 2), "h");
    assert_eq!(replace_char("a-b-c", '-', '+'), "a+b+c");
    let mut s = "a".to_string();
    push_times(&mut s, 'é', 3);
    assert_eq!(s, "aééé");
    assert_eq!(pad_end("é", 3), format!("{:<3}", "é"));
    assert_eq!(pad_start("é", 3), format!("{:>3}", "é"));
    assert_eq!(pad_end("long", 3), "long");
    assert_eq!(lower_ascii_char('É'), 'É');
    assert_eq!(lower_ascii_char('Z'), 'z');
    assert_eq!(join(&vec!["a".to_string(), "b".to_string()], ", "), "a, b");
    assert_eq!(join(&vec![], ", "), "");
}

#[test]
fn numbers_are_written_in_decimal() {
    for n in [0, 7, 10, 99, 100, 1_234_567_890, u64::MAX] {
        assert_eq!(number_text(n), n.to_string());
    }
    for n in [0, -1, 5, i64::MAX, i64::MIN] {
        assert_eq!(signed_text(n), n.to_string());
    }
}

#[test]
fn json_is_read_and_written() {
    let value = parse_json("{\"b\":[1,-2,null,true,\"x\\n\"],\"a\":0.5,\"b\":{}}").unwrap();
    assert_eq!(value.get("a"), Some(&Json::Number(JsonNumber::Decimal("0.5".to_string()))));
    assert_eq!(value.get("b"), Some(&Json::Object(vec![])));
    assert_eq!(value.get("c"), None);
    let list = parse_json("[1,-2,null,true,\"x\\n\"]").unwrap();
    let items = list.as_array().unwrap();
    assert_eq!(items[0].as_u64(), Some(1));
    assert_eq!(items[1].as_i64(), Some(-2));
    assert_eq!(items[1].as_u64(), None);
    assert_eq!(items[3].as_bool(), Some(true));
    assert_eq!(items[4].as_str(), Some("x\n"));
    assert_eq!(list.to_text(), "[1,-2,null,true,\"x\\n\"]");
    assert_eq!(parse_json("{"), None);
    assert_eq!(
        read_json("{").unwrap_err(),
        serde_json::from_str::<serde_json::Value>("{").unwrap_err().to_string()
    );
    assert_eq!(parse_json_bytes(b"[\"\xc3\xa9\"]"), parse_json("[\"é\"]"));
    assert_eq!(parse_json_bytes(b"[\"\xff\"]"), None);
}

#[test]
fn json_is_built() {
    let mut list = ArrayBuilder::new();
    list.push_text("a");
    list.push(Json::Null);
    let mut object = ObjectBuilder::new();
    object.put("list", list.finish());
    object.put_text("t", "first");
    object.put_text("t", "x\"y");
    let value = object.finish();
    assert_eq!(value.to_text(), "{\"list\":[\"a\",null],\"t\":\"x\\\"y\"}");
}

#[test]
fn texts_are_sorted_as_the_standard_does() {
    let texts: Vec<String> =
        ["b", "", "a", "ab", "é", "z", "\u{10000}", "\u{ffff}", "a"].iter().map(|s| s.to_string()).collect();
    let mut expected = texts.clone();
    expected.sort();
    assert_eq!(sort_texts(&texts), expected);
    for a in &texts {
        for b in &texts {
            assert_eq!(text_before(a, b), a <= b);
        }
    }
}
