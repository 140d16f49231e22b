use codexbot::clock::{
    local_time, parse_finite_seconds, parse_seconds, seconds_fixed_text, seconds_number_text, seconds_of, seconds_text,
    SECOND,
};
use codexbot::digest::{constant_time_eq, digest_text, sha256_hex};
use codexbot::formatting::{bisect_segment, render_segment, split_text, FormattingError};
use codexbot::json::{
    compact_text, parse_json, parse_json_or_fault, python_text, text_ordered, texts_text,
    write_json, Json, JsonFault, JsonNumber,
};
use codexbot::ranking::rank;
use codexbot::store_rows::stored_texts;
use codexbot::security::{
    generate_pairing_code, hash_pairing_code, pairing_code, prompt_preview, redact_secrets,
    safe_words_text,
};
use codexbot::text::{
    compact, contains, decimal_text, parse_signed, parse_unsigned, split_char, split_words, trim,
    windows_basename,
};

fn json(text: &str) -> Json {
    parse_json(text.as_bytes()).unwrap()
}

#[test]
fn digests_are_hexadecimal() {
    assert_eq!(
        sha256_hex(b"abc"),
        "ba7816bf8f01cfea414140de5dae2223b00361a396177a9cb410ff61f20015ad"
    );
    assert_eq!(digest_text("abc"), sha256_hex(b"abc"));
    assert!(constant_time_eq(b"a", b"a"));
    assert!(!constant_time_eq(b"a", b"ab"));
}

#[test]
fn values_are_read_and_written() {
    let value = json("{\"b\":[1,-2,1.5,true,null],\"a\":\"x\\n\"}");
    assert_eq!(
        compact_text(&value),
        "{\"a\":\"x\\n\",\"b\":[1,-2,1.5,true,null]}"
    );
    assert_eq!(
        write_json(&value, ",", ":", true),
        "{\"a\":\"x\\n\",\"b\":[1,-2,1.5,true,null]}"
    );
    assert_eq!(
        python_text(&json("{\"b\":1,\"a\":[1,2]}")),
        "{\"a\": [1, 2], \"b\": 1}"
    );
    assert_eq!(value.copy(), value);
    assert_eq!(
        json("-7"),
        Json::Number(JsonNumber::Negative(-7))
    );
    assert_eq!(json("1e2"), Json::Number(JsonNumber::Float("100.0".to_owned())));
    assert_eq!(json("7").as_signed(), Some(7));
    assert_eq!(json("-7").as_unsigned(), None);
}

#[test]
fn faults_are_told_apart() {
    assert!(matches!(
        parse_json_or_fault(b"{"),
        Err((JsonFault::Eof, _))
    ));
    let (fault, shown) = parse_json_or_fault(b"{]").unwrap_err();
    assert_eq!(fault, JsonFault::Syntax);
    assert!(shown.contains("line 1"));
    assert!(parse_json(b"").is_none());
    assert!(parse_json(b"1 2").is_none());
}

#[test]
fn names_are_ordered_by_their_code_points() {
    assert!(text_ordered("a", "b"));
    assert!(text_ordered("a", "a"));
    assert!(text_ordered("", "a"));
    assert!(!text_ordered("b", "a"));
}

#[test]
fn texts_are_split_and_rendered() {
    let pieces = split_text("abcdef", 4).unwrap();
    assert_eq!(pieces.concat(), "abcdef");
    assert!(pieces.iter().all(|piece| piece.chars().count() <= 4));
    assert_eq!(split_text("x", 0), Err(FormattingError::EmptyChunkSize));
    assert_eq!(
        render_segment(&vec!["only".to_owned()], 0).unwrap(),
        "only"
    );
    assert!(render_segment(&pieces, 0).unwrap().contains("1/2"));
    assert_eq!(
        render_segment(&pieces, 9),
        Err(FormattingError::SegmentOutOfRange)
    );
    assert_eq!(
        bisect_segment("abc").unwrap(),
        ("a".to_owned(), "bc".to_owned())
    );
    assert_eq!(
        bisect_segment("a"),
        Err(FormattingError::IndivisibleSegment)
    );
}

#[test]
fn secrets_are_redacted() {
    let shown = redact_secrets("token=abcdefghijk plain");
    assert!(!shown.contains("abcdefghijk"));
    assert!(shown.contains("plain"));
    assert_eq!(redact_secrets("nothing here"), "nothing here");
    assert_eq!(safe_words_text("a  b", 10), "a b");
    assert!(prompt_preview(&"x".repeat(500), 80).chars().count() <= 81);
}

#[test]
fn codes_are_made_of_their_draws() {
    let code = pairing_code(&vec![0, 0, 0, 0, 1, 1, 1, 1]);
    assert_eq!(code.len(), 9);
    assert_eq!(&code[4..5], "-");
    assert_ne!(&code[0..1], &code[5..6]);
    assert_ne!(generate_pairing_code(), generate_pairing_code());
    assert_eq!(
        hash_pairing_code("ABCD-EF23"),
        hash_pairing_code("abcd ef23")
    );
}

#[test]
fn seconds_are_written_and_read_back() {
    for micros in [0, 1, 1_500_000, 1_700_000_000 * SECOND + 250_000] {
        assert_eq!(parse_seconds(&seconds_text(micros)), Some(micros));
    }
    assert_eq!(seconds_text(1_500_000), "1.5");
    assert_eq!(seconds_number_text(2 * SECOND), "2.0");
    assert_eq!(seconds_fixed_text(1_500_000), "1.500000");
    assert_eq!(seconds_of(1_999_999), 1);
    assert_eq!(parse_seconds("x"), None);
    assert_eq!(parse_seconds("1e3"), Some(1_000 * SECOND));
    assert_eq!(parse_seconds("-1.25E2"), Some(-125 * SECOND));
    assert_eq!(parse_seconds("1.7e+09"), Some(1_700_000_000 * SECOND));
    assert_eq!(parse_seconds("1500e-3"), Some(1_500_000));
    assert_eq!(parse_seconds("1e-7"), Some(0));
    assert_eq!(parse_seconds("1e20"), Some(i64::MAX));
    assert_eq!(parse_seconds("-1e20"), Some(i64::MIN));
    assert_eq!(parse_seconds("9223372036854.775807"), Some(i64::MAX));
    assert_eq!(parse_seconds("1e-99999999999999999999"), Some(0));
    assert_eq!(parse_seconds("0e99999999999999999999"), Some(0));
    assert_eq!(parse_seconds("1e99999999999999999999"), Some(i64::MAX));
    assert_eq!(parse_seconds("inf"), Some(i64::MAX));
    assert_eq!(parse_seconds("-Infinity"), Some(i64::MIN));
    assert_eq!(parse_seconds("NaN"), None);
    assert_eq!(parse_finite_seconds("1.5"), Some(1_500_000));
    assert_eq!(parse_finite_seconds("1e20"), Some(i64::MAX));
    assert_eq!(parse_finite_seconds("inf"), None);
    assert_eq!(parse_finite_seconds("1e400"), None);
    assert_eq!(parse_seconds("1e"), None);
    assert_eq!(parse_seconds("e3"), None);
}

#[test]
fn stored_segments_are_read_back() {
    let parts: Vec<String> = ["甲", "a\"b\\c", "\u{1}\n", ""]
        .iter()
        .map(|part| (*part).to_owned())
        .collect();
    let raw = texts_text(&parts);
    assert_eq!(raw, "[\"甲\",\"a\\\"b\\\\c\",\"\\u0001\\n\",\"\"]");
    let (payload, segments, fault) = stored_texts("{\"a\":1}", Some(&raw));
    assert_eq!(payload, Some(json("{\"a\":1}")));
    assert_eq!(segments, Some(parts));
    assert_eq!(fault, None);
    assert_eq!(texts_text(&Vec::new()), "[]");
    assert_eq!(stored_texts("7", None), (Some(json("7")), None, None));
}

#[test]
fn the_fault_of_a_payload_comes_before_that_of_its_segments() {
    let (payload, segments, fault) = stored_texts("{", Some("[1]"));
    assert_eq!((payload, segments), (None, None));
    assert!(fault.unwrap().starts_with("EOF while parsing an object"));
    let (payload, segments, fault) = stored_texts("{", Some("[\"a\"]"));
    assert_eq!(payload, None);
    assert_eq!(segments, Some(vec!["a".to_owned()]));
    assert!(fault.unwrap().starts_with("EOF while parsing an object"));
    let (payload, segments, fault) = stored_texts("null", Some("[1]"));
    assert_eq!((payload, segments), (Some(Json::Null), None));
    assert!(fault.unwrap().contains("expected a string"));
}

#[test]
fn positions_are_ranked() {
    assert_eq!(rank(&vec![(1, 0), (3, 0), (2, 0)]), vec![1, 2, 0]);
}

#[test]
fn words_and_numbers() {
    assert_eq!(trim("\u{3000} a b \n"), "a b");
    assert_eq!(split_words(" a \t b "), vec!["a", "b"]);
    assert_eq!(compact(" a \n b "), "a b");
    assert_eq!(split_char("a,,b", ','), vec!["a", "", "b"]);
    assert!(contains("hello", "ell"));
    assert_eq!(windows_basename(r"C:\a/b.exe"), "b.exe");
    assert_eq!(parse_unsigned("+42", 100), Some(42));
    assert_eq!(parse_unsigned("101", 100), None);
    assert_eq!(parse_signed("-9223372036854775808"), Some(i64::MIN));
    assert_eq!(parse_signed("9223372036854775808"), None);
    assert_eq!(decimal_text(u64::MAX), "18446744073709551615");
}

#[test]
fn a_secret_does_not_show() {
    let first = redact_secrets("api_key=first, then more");
    let second = redact_secrets("api_key=other-value, then more");
    assert_eq!(first, "api_key=[REDACTED], then more");
    assert_eq!(first, second);
    assert_eq!(
        redact_secrets("Authorization: Bearer abc.def"),
        "Authorization: Bearer [REDACTED]"
    );
}

#[test]
fn shown_errors_are_short_lines() {
    let shown = safe_words_text("a\r\n\tb \u{3000} c", 4);
    assert_eq!(shown, "a b ");
    assert_eq!(safe_words_text("", 4), "");
}

#[test]
fn a_local_time_is_shown_by_its_pattern() {
    let at = 1_700_000_000 * SECOND + 999_999;
    let day = local_time(at, "%H:%M:%S").unwrap();
    assert_eq!(day.len(), 8);
    assert!(day.ends_with(":20"));
    let full = local_time(at, "%Y-%m-%d %H:%M:%S").unwrap();
    assert!(full.starts_with("2023-11-1"));
    assert!(full.ends_with(&day));
    assert!(local_time(at, "%m-%d %H:%M:%S").unwrap().ends_with(&day));
    assert_eq!(local_time(i64::MAX, "%H:%M:%S"), None);
    assert_eq!(local_time(i64::MIN, "%H:%M:%S"), None);
    for edge in [8_210_266_876_799, -8_334_601_228_800] {
        assert!(local_time(edge * SECOND, "%H:%M:%S").is_some());
        assert_eq!(local_time((edge + edge.signum()) * SECOND, "%H:%M:%S"), None);
    }
}
