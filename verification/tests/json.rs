//! Reading JSON.

use proxypilot::update::json::{parse, parse_string, Json, MAX_DEPTH};

#[test]
fn parses_an_empty_object() {
    assert_eq!(parse("{}").unwrap(), Json::Object(Vec::new()));
}

#[test]
fn parses_a_flat_object() {
    let v = parse(r#"{"tag_name": "v1.2.3", "draft": false}"#).unwrap();
    assert_eq!(v.get("tag_name").and_then(Json::as_str), Some("v1.2.3"));
    assert_eq!(v.get("draft"), Some(&Json::Bool(false)));
}

#[test]
fn parses_nested_arrays_of_objects_like_the_real_api_shape() {
    let v = parse(
        r#"{
            "tag_name": "v0.2.0",
            "prerelease": false,
            "assets": [
                {"name": "proxypilot-bridge.exe", "browser_download_url": "https://example.internal/bridge.exe"},
                {"name": "proxypilot.exe", "browser_download_url": "https://example.internal/app.exe"}
            ]
        }"#,
    )
    .unwrap();
    assert_eq!(v.get("tag_name").and_then(Json::as_str), Some("v0.2.0"));
    let assets = v.get("assets").and_then(Json::as_array).unwrap();
    assert_eq!(assets.len(), 2);
    let app = assets
        .iter()
        .find(|a| a.get("name").and_then(Json::as_str) == Some("proxypilot.exe"))
        .expect("наш ассет обязан найтись");
    assert_eq!(
        app.get("browser_download_url").and_then(Json::as_str),
        Some("https://example.internal/app.exe")
    );
}

#[test]
fn unescapes_standard_sequences() {
    let v = parse(r#""line1\nline2\t\"quoted\"\\end""#).unwrap();
    assert_eq!(v.as_str(), Some("line1\nline2\t\"quoted\"\\end"));
}

#[test]
fn unescapes_unicode_code_points() {
    let v = parse(r#""Привет""#).unwrap();
    assert_eq!(v.as_str(), Some("Привет"));
}

#[test]
fn unescapes_a_surrogate_pair() {
    let v = parse(r#""😀""#).unwrap();
    assert_eq!(v.as_str(), Some("😀"));
}

#[test]
fn a_literal_multibyte_utf8_string_is_copied_through() {
    let v = parse("\"Привет 😀\"").unwrap();
    assert_eq!(v.as_str(), Some("Привет 😀"));
}

#[test]
fn rejects_truncated_json() {
    assert!(parse(r#"{"tag_name": "v1.0.0""#).is_err());
}

#[test]
fn rejects_trailing_garbage() {
    assert!(parse(r#"{"a": 1} garbage"#).is_err());
}

#[test]
fn rejects_an_unterminated_string() {
    assert!(parse(r#"{"a": "unterminated"#).is_err());
}

#[test]
fn parses_numbers_bool_and_null() {
    let v = parse(r#"{"n": -12.5e2, "t": true, "f": false, "z": null}"#).unwrap();
    assert_eq!(v.get("n"), Some(&Json::Number("-1250.0".into())));
    assert_eq!(v.get("t"), Some(&Json::Bool(true)));
    assert_eq!(v.get("f"), Some(&Json::Bool(false)));
    assert_eq!(v.get("z"), Some(&Json::Null));
}

#[test]
fn a_confusing_string_field_does_not_fool_key_lookup() {
    let v = parse(r#"{"name": "\"tag_name\": \"fake\"", "tag_name": "v1.0.0"}"#).unwrap();
    assert_eq!(v.get("tag_name").and_then(Json::as_str), Some("v1.0.0"));
}

#[test]
fn an_empty_array_response_parses_as_an_array() {
    let v = parse("[]").unwrap();
    assert_eq!(v.as_array(), Some(&[][..]));
}

#[test]
fn nesting_exactly_at_the_limit_still_parses() {
    let opens = "[".repeat(MAX_DEPTH as usize);
    let closes = "]".repeat(MAX_DEPTH as usize);
    let doc = format!("{opens}{closes}");
    assert!(parse(&doc).is_ok(), "ровно предел обязан разбираться");
}

#[test]
fn nesting_one_level_past_the_limit_is_a_clean_error() {
    let opens = "[".repeat(MAX_DEPTH as usize + 1);
    let closes = "]".repeat(MAX_DEPTH as usize + 1);
    let doc = format!("{opens}{closes}");
    assert!(
        parse(&doc).is_err(),
        "предел+1 обязан быть отклонён явной ошибкой"
    );
}

#[test]
fn nesting_far_past_the_limit_is_rejected_not_a_stack_overflow() {
    let opens = "[".repeat(50_000);
    assert!(parse(&opens).is_err());
}

#[test]
fn deeply_nested_objects_are_bounded_the_same_way_as_arrays() {
    let mut doc = String::new();
    for i in 0..(MAX_DEPTH as usize + 5) {
        doc.push_str(&format!("{{\"a{i}\":"));
    }
    doc.push_str("null");
    for _ in 0..(MAX_DEPTH as usize + 5) {
        doc.push('}');
    }
    assert!(parse(&doc).is_err());
}

#[test]
fn a_bare_minus_is_a_parse_error_not_a_panic() {
    assert!(parse("-").is_err());
}

#[test]
fn a_lone_high_surrogate_does_not_panic() {
    assert!(parse(r#""\ud800""#).is_ok(), "не должно паниковать");
}

#[test]
fn a_lone_low_surrogate_does_not_panic() {
    assert!(parse(r#""\udc00""#).is_ok(), "не должно паниковать");
}

#[test]
fn a_truncated_unicode_escape_is_an_error_not_a_panic() {
    assert!(parse("\"\\u12").is_err());
    assert!(parse("\"\\u\"").is_err());
    assert!(parse("\"\\uZZZZ\"").is_err());
}

#[test]
fn an_unknown_escape_is_an_error_not_a_panic() {
    assert!(parse(r#""\q""#).is_err());
}

#[test]
fn a_trailing_backslash_is_an_error_not_a_panic() {
    assert!(parse("\"a\\").is_err());
}

#[test]
fn an_absurdly_long_number_does_not_panic() {
    let huge = "9".repeat(400);
    assert!(parse(&huge).is_ok(), "переполнение f64 — не ошибка формата");
}

#[test]
fn truncations_of_a_valid_document_at_every_byte_offset_never_panic() {
    let full = r#"{"tag_name": "v1.2.3", "assets": [{"name": "proxypilot.exe", "browser_download_url": "https://example.internal/a.exe", "meta": {"a": [1,2,3], "b": "x\ny", "u": "\ud83d\ude00"}}], "n": -12.5e-2}"#;
    assert!(full.is_ascii(), "тест полагается на срез по любому байту");
    for i in 0..=full.len() {
        let _ = parse(&full[..i]);
    }
}

struct Xorshift64(u64);

impl Xorshift64 {
    fn next(&mut self) -> u64 {
        let mut x = self.0;
        x ^= x << 13;
        x ^= x >> 7;
        x ^= x << 17;
        self.0 = x;
        x
    }
}

#[test]
fn random_json_flavoured_byte_soup_never_panics_or_hangs() {
    const ALPHABET: &[u8] = b"{}[]\":,truefalsenull0123456789.-eE \t\\/uU-+";
    let mut rng = Xorshift64(0x9E37_79B9_7F4A_7C15);
    for _ in 0..5_000 {
        let len = (rng.next() % 80) as usize;
        let mut s = String::with_capacity(len);
        for _ in 0..len {
            let idx = (rng.next() as usize) % ALPHABET.len();
            s.push(ALPHABET[idx] as char);
        }
        let _ = parse(&s);
    }
}

#[test]
fn random_byte_soup_outside_the_json_alphabet_never_panics() {
    let mut rng = Xorshift64(0x2545_F491_4F6C_DD1D);
    for _ in 0..5_000 {
        let len = (rng.next() % 80) as usize;
        let mut s = String::with_capacity(len);
        for _ in 0..len {
            let byte = 0x20 + (rng.next() % 95) as u8; // печатный ASCII
            s.push(byte as char);
        }
        let _ = parse(&s);
    }
}

#[test]
fn each_failure_names_itself() {
    let text = |doc: &str| parse(doc).unwrap_err();
    assert!(!text("").is_empty());
    assert_ne!(text("{\"a\" 1}"), text("[1 2]"));
    assert!(parse("{\"a\": 1,}").is_err());
    assert!(parse("[1,]").is_err());
    assert!(parse("tru").is_err());
    assert!(parse("nul").is_err());
    assert!(parse("{1: 2}").is_err());
}

#[test]
fn the_last_of_equal_keys_wins() {
    let v = parse(r#"{"a": 1, "b": 2, "a": 3}"#).unwrap();
    assert_eq!(v.get("a"), Some(&Json::Number("3".into())));
    assert_eq!(v.get("b"), Some(&Json::Number("2".into())));
    assert_eq!(v.get("c"), None);
}

#[test]
fn an_escaped_pair_of_surrogates_is_one_character() {
    let v = parse("\"\\ud83d\\ude00\"").unwrap();
    assert_eq!(v.as_str(), Some("😀"));
    let v = parse("\"\\u0041\\u043f\"").unwrap();
    assert_eq!(v.as_str(), Some("Aп"));
}

#[test]
fn only_objects_have_members_and_only_arrays_have_items() {
    let v = parse("[true, null]").unwrap();
    assert_eq!(v.get("a"), None);
    assert_eq!(v.as_str(), None);
    assert_eq!(v.as_array().map(|a| a.len()), Some(2));
    assert_eq!(parse("\"x\"").unwrap().as_array(), None);
}

#[test]
fn white_space_round_values_is_skipped() {
    let v = parse(" \t\r\n{ \"a\" : [ 1 , 2 ] } \n").unwrap();
    assert_eq!(v.get("a").and_then(Json::as_array).map(|a| a.len()), Some(2));
}

#[test]
fn a_numeral_is_what_a_floating_point_number_reads() {
    let alphabet = ['0', '7', '.', 'e', 'E', '+', '-'];
    let mut texts: Vec<String> = vec![String::new()];
    for _ in 0..6 {
        let mut longer = Vec::new();
        for text in &texts {
            for c in alphabet {
                longer.push(format!("{text}{c}"));
            }
        }
        for text in &longer {
            if !text.starts_with(|c: char| c == '-' || c.is_ascii_digit()) {
                continue;
            }
            match parse(text) {
                Ok(Json::Number(numeral)) => {
                    assert_eq!(&numeral, text);
                    assert!(text.parse::<f64>().is_ok(), "{text}");
                }
                Ok(other) => panic!("{text}: {other:?}"),
                Err(why) => {
                    let whole = why.starts_with("не число: «");
                    assert!(!whole || text.parse::<f64>().is_err(), "{text}: {why}");
                    assert!(whole || why.starts_with("лишние данные"), "{text}: {why}");
                }
            }
        }
        texts = longer;
        if texts.len() > 20_000 {
            break;
        }
    }
}

#[test]
fn an_escape_takes_four_hexadecimal_digits() {
    for text in ["\"\\u+041\"", "\"\\u-041\"", "\"\\u 041\"", "\"\\u004g\""] {
        assert_eq!(
            parse(text),
            Err("«\\uXXXX» не шестнадцатеричное число".to_string()),
            "{text}"
        );
    }
    assert_eq!(parse("\"\\u004A\""), Ok(Json::String("J".into())));
    assert_eq!(
        parse("\"\\u041\""),
        Err("«\\uXXXX» не шестнадцатеричное число".to_string())
    );
    assert_eq!(
        parse("\"\\u04"),
        Err("«\\u» без четырёх шестнадцатеричных знаков".to_string())
    );
}

#[test]
fn a_copy_of_a_document_is_the_document() {
    let v = parse("{\"b\": [1, null, {\"x\": \"y\"}], \"a\": true}").unwrap();
    assert_eq!(v.clone(), v);
    assert_eq!(v.clone().get("a"), Some(&Json::Bool(true)));
}

fn quoted(text: &str) -> String {
    format!("\"{}\"", text.replace('\\', "\\\\").replace('"', "\\\""))
}

#[test]
fn a_quoted_text_is_read_back() {
    for text in ["", "\"", "\\", "\\\"", "a\\n\"Ж😀\"", "\n\u{0}"] {
        assert_eq!(parse(&quoted(text)), Ok(Json::String(text.into())), "{text}");
        let two = format!("[{},{}]", quoted(text), quoted("\"x\\"));
        let v = parse(&two).unwrap();
        let items = v.as_array().unwrap();
        assert_eq!(items[0].as_str(), Some(text));
        assert_eq!(items[1].as_str(), Some("\"x\\"));
    }
}

#[test]
fn literals_in_a_row_are_read_one_by_one() {
    for (s, t) in [("", "Ж\"\\"), ("a\\\"😀", ""), ("x", "y")] {
        let b = format!("{}{}", quoted(s), quoted(t));
        let middle = quoted(s).len();
        assert_eq!(parse_string(b.as_bytes(), 0), Ok((s.to_string(), middle)));
        assert_eq!(parse_string(b.as_bytes(), middle), Ok((t.to_string(), b.len())));
        assert_eq!(
            parse_string(b.as_bytes(), b.len()),
            Err("строка оборвалась до закрывающей кавычки".to_string())
        );
    }
}

#[test]
fn no_proper_prefix_of_a_document_is_accepted() {
    for text in [
        "{\"a\": [1, 2.5e3, true, null], \"b\": {\"c\": \"\\u0041\\n\"}}",
        "[]",
        "[12]",
        "{}",
        "\"Жук \\\" \\\\\"",
        " [ \"x\" , false ]",
    ] {
        assert!(parse(text).is_ok(), "{text}");
        for (i, _) in text.char_indices() {
            assert!(parse(&text[..i]).is_err(), "{}", &text[..i]);
        }
    }
}

#[test]
fn documents_are_equal_where_they_mean_the_same() {
    let equal = |a: &str, b: &str| parse(a).unwrap() == parse(b).unwrap();
    assert!(equal("1", "1.0"));
    assert!(equal("[1, {\"a\": 20}]", "[10e-1, {\"a\": 2E+1}]"));
    assert!(!equal("[1]", "[1, 1]"));
    assert!(!equal("[1]", "[2]"));
    assert!(!equal("{\"a\": 1}", "{\"b\": 1}"));
    assert!(!equal("{\"a\": 1}", "{\"a\": true}"));
    assert!(equal("{\"a\": null, \"b\": \"x\"}", "{\"b\": \"x\", \"a\": null}"));
    assert!(!equal("\"1\"", "1"));
}
