use jinji::guard::{
    decode, decode_payload, encode, encode_expression, find_end, find_span, matches_at, to_chars,
    DecodeError,
};

const BEGIN: &str = "_JINJI_ENC_BEGIN_MARK_";
const END: &str = "_JINJI_ENC_END_MARK_";

#[test]
fn encode_replaces_one_expression() {
    assert_eq!(encode("a {{ x }} b"), format!("a {BEGIN}e3sgeCB9fQ{END} b"));
}

#[test]
fn encode_replaces_every_expression() {
    assert_eq!(
        encode("{{a}}-{{ b }}"),
        format!("{BEGIN}e3thfX0{END}-{BEGIN}e3sgYiB9fQ{END}")
    );
}

#[test]
fn encode_leaves_plain_text() {
    assert_eq!(encode("name: Ann"), "name: Ann");
    assert_eq!(encode(""), "");
    assert_eq!(encode("{ { x } }"), "{ { x } }");
    assert_eq!(encode("{{ open only"), "{{ open only");
}

#[test]
fn encode_does_not_span_lines() {
    assert_eq!(encode("{{ a\n}}"), "{{ a\n}}");
    assert_eq!(
        encode("{{ a\n{{ x }}"),
        format!("{{{{ a\n{BEGIN}e3sgeCB9fQ{END}")
    );
}

#[test]
fn encode_takes_the_shortest_match() {
    assert_eq!(
        encode("{{ x }} }}"),
        format!("{BEGIN}e3sgeCB9fQ{END} }}}}")
    );
}

#[test]
fn encode_expression_is_base64_without_padding() {
    assert_eq!(encode_expression("{{ name }}"), "e3sgbmFtZSB9fQ");
    assert_eq!(encode_expression(""), "");
}

#[test]
fn decode_payload_restores_the_expression() {
    assert_eq!(decode_payload("e3sgbmFtZSB9fQ"), Ok("{{ name }}".to_string()));
}

#[test]
fn decode_payload_rejects_malformed_base64() {
    assert_eq!(decode_payload("!!!"), Err(DecodeError::Payload));
    assert_eq!(decode_payload("e3sgbmFtZSB9fQ=="), Err(DecodeError::Payload));
}

#[test]
fn decode_payload_rejects_bytes_that_are_not_text() {
    assert_eq!(decode_payload("//4"), Err(DecodeError::Text));
}

#[test]
fn decode_restores_every_run() {
    let hidden = format!("{BEGIN}e3thfX0{END}-{BEGIN}e3sgYiB9fQ{END}!");
    assert_eq!(decode(&hidden), Ok("{{a}}-{{ b }}!".to_string()));
}

#[test]
fn decode_leaves_plain_text() {
    assert_eq!(decode("Ann"), Ok("Ann".to_string()));
    assert_eq!(decode(BEGIN), Ok(BEGIN.to_string()));
}

#[test]
fn decode_fails_on_a_malformed_payload() {
    let hidden = format!("ok {BEGIN}e3thfX0{END} bad {BEGIN}***{END}");
    assert_eq!(decode(&hidden), Err(DecodeError::Payload));
}

#[test]
fn decode_inverts_encode() {
    let samples = [
        "",
        "plain",
        "{{ x }}",
        "a {{ x }} b {{ y | upper }} c",
        "greeting: \"{{ name }}!\"",
        "{{}}{{}}",
        "caf\u{e9} {{ \u{1F34C} }} \u{fc}",
        "{{ a }",
        "snake_case: {{ my_var }}",
    ];
    for s in samples {
        assert_eq!(decode(&encode(s)), Ok(s.to_string()), "sample {s:?}");
    }
}

#[test]
fn encode_changes_text_with_an_expression() {
    let s = "x: {{ y }}";
    assert_ne!(encode(s), s);
    assert!(!encode(s).contains("{{"));
}

#[test]
fn to_chars_lists_the_characters() {
    assert_eq!(to_chars("a\u{e9}b"), vec!['a', '\u{e9}', 'b']);
}

#[test]
fn matches_at_compares_in_place() {
    let text = to_chars("ab{{c");
    let open = to_chars("{{");
    assert!(matches_at(&text, 2, &open));
    assert!(!matches_at(&text, 1, &open));
    assert!(!matches_at(&text, 4, &open));
    assert!(!matches_at(&text, 9, &open));
}

#[test]
fn find_end_stops_at_a_line_feed() {
    let close = to_chars("}}");
    assert_eq!(find_end(&to_chars("ab}}c"), 0, &close), Some(2));
    assert_eq!(find_end(&to_chars("a\nb}}"), 0, &close), None);
    assert_eq!(find_end(&to_chars("a\nb}}"), 2, &close), Some(3));
    assert_eq!(find_end(&to_chars("abc"), 0, &close), None);
}

#[test]
fn find_span_is_leftmost_and_shortest() {
    let open = to_chars("{{");
    let close = to_chars("}}");
    assert_eq!(find_span(&to_chars("a{{b}}c}}"), &open, &close), Some((1, 4)));
    assert_eq!(find_span(&to_chars("{{{{}}"), &open, &close), Some((0, 4)));
    assert_eq!(find_span(&to_chars("{{\n{{}}"), &open, &close), Some((3, 5)));
    assert_eq!(find_span(&to_chars("{{}"), &open, &close), None);
}

#[test]
fn decode_inverts_encode_with_marker_text_inside_an_expression() {
    let s = "a: {{ \"_JINJI_ENC_BEGIN_MARK_\" }} and {{ _JINJI_ENC_END_MARK_ }}";
    assert_eq!(decode(&encode(s)), Ok(s.to_string()));
}

#[test]
fn marker_text_outside_an_expression_is_taken_for_a_run() {
    let s = "_JINJI_ENC_BEGIN_MARK_x_JINJI_ENC_END_MARK_";
    assert_eq!(encode(s), s);
    assert_eq!(decode(&encode(s)), Err(DecodeError::Payload));
    let straddling = "_JINJI_ENC_BEGIN_MARK{{ a }}";
    assert_ne!(decode(&encode(straddling)), Ok(straddling.to_string()));
}

#[test]
fn decode_does_not_span_lines() {
    let s = "_JINJI_ENC_BEGIN_MARK_e3thfX0\n_JINJI_ENC_END_MARK_";
    assert_eq!(decode(s), Ok(s.to_string()));
}
