use webtools::charset::{classify, decode, decode_cp1252, from_content_type, Charset};

#[test]
fn utf8_labels_need_no_special_handling() {
    assert_eq!(classify("utf-8"), Charset::Utf8);
    assert_eq!(classify("UTF-8"), Charset::Utf8);
    assert_eq!(classify(" \"utf8\" "), Charset::Utf8);
    assert_eq!(classify("us-ascii"), Charset::Utf8);
}

#[test]
fn latin_labels_all_decode_as_cp1252() {
    for label in ["ISO-8859-1", "iso_8859-1", "latin1", "windows-1252", "CP1252"] {
        assert_eq!(classify(label), Charset::Cp1252, "{label}");
    }
}

#[test]
fn a_latin1_body_decodes_correctly() {
    // "Café — naïve" in windows-1252: é=0xE9, em dash=0x97, ï=0xEF.
    let bytes = b"Caf\xe9 \x97 na\xefve";
    let (text, reported) = decode(bytes, Some("ISO-8859-1"));
    assert_eq!(text, "Café — naïve");
    assert_eq!(reported, None, "an exact decode reports no problem");
}

#[test]
fn cp1252_smart_quotes_survive() {
    let bytes = b"\x93quoted\x94 \x85";
    assert_eq!(decode_cp1252(bytes), "“quoted” …");
}

#[test]
fn an_unsupported_charset_is_reported_rather_than_hidden() {
    let (_, reported) = decode(b"\x82\xa0", Some("Shift_JIS"));
    assert_eq!(reported.as_deref(), Some("Shift_JIS"));
}

#[test]
fn utf8_bodies_round_trip() {
    let (text, reported) = decode("Café — naïve".as_bytes(), Some("utf-8"));
    assert_eq!(text, "Café — naïve");
    assert!(reported.is_none());
}

#[test]
fn charset_is_read_out_of_a_content_type() {
    assert_eq!(
        from_content_type("text/html; charset=ISO-8859-1").as_deref(),
        Some("ISO-8859-1")
    );
    assert_eq!(
        from_content_type("text/html;charset=\"utf-8\"").as_deref(),
        Some("utf-8")
    );
    assert_eq!(from_content_type("text/html").as_deref(), None);
}

#[test]
fn an_uppercase_charset_parameter_is_found_after_other_parameters() {
    assert_eq!(
        from_content_type("text/html; q=1; CHARSET=  windows-1252 ").as_deref(),
        Some("windows-1252")
    );
    assert_eq!(from_content_type("text/html; charset=\"\"").as_deref(), None);
}

#[test]
fn an_empty_label_means_utf8_and_undefined_cp1252_bytes_are_replaced() {
    assert_eq!(classify("  "), Charset::Utf8);
    assert_eq!(classify("\"x-made-up\""), Charset::Unsupported("x-made-up".into()));
    assert_eq!(decode_cp1252(&[0x81, 0x41, 0xff]), "\u{FFFD}Aÿ");
}

#[test]
fn classification_ignores_case_underscores_and_quoting() {
    assert_eq!(classify("UTF-8"), Charset::Utf8);
    assert_eq!(classify("Windows_1252"), Charset::Cp1252);
    assert_eq!(classify("ISO_8859-1"), Charset::Cp1252);
    assert_eq!(classify("  \"latin1\"  "), Charset::Cp1252);
    assert_eq!(classify(""), Charset::Utf8);
    assert_eq!(classify(" \"Shift_JIS\" "), Charset::Unsupported("Shift_JIS".to_string()));
}
