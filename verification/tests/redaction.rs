use tlsn_disclosure::disclosure::Disclosure;
use tlsn_disclosure::error::RedactionError;
use tlsn_disclosure::member::find_member;
use tlsn_disclosure::pattern::{classify_capture, find_capture};
use tlsn_disclosure::policy::{
    evaluate, evaluate_rule, evaluate_rules, locate_field, widen_field, DisclosurePolicy,
    LocatedField, RedactionRule, StructuredBody,
};
use tlsn_disclosure::range_set::ByteRange;
use tlsn_disclosure::text::redact;
use tlsn_disclosure::transcript::Transcript;

fn range(start: usize, end: usize) -> ByteRange {
    ByteRange { start, end }
}

fn literal(needle: &str) -> RedactionRule {
    RedactionRule::LiteralMatch { needle: needle.as_bytes().to_vec() }
}

fn field(path: &str, prefix_len: usize, suffix_len: usize) -> RedactionRule {
    RedactionRule::FieldPath { path: path.to_string(), prefix_len, suffix_len }
}

fn regex(pattern: &str, group: usize) -> RedactionRule {
    RedactionRule::RegexCapture { pattern: pattern.to_string(), group }
}

fn no_body() -> StructuredBody {
    StructuredBody { offset: 0, fields: Vec::new() }
}

/// The span of the first `value` in `body`, under `path`.
fn located(body: &str, path: &str, value: &str) -> LocatedField {
    let start = body.find(value).unwrap();
    LocatedField { path: path.to_string(), start, end: start + value.len() }
}

#[test]
fn literal_rule_hides_exactly_the_secret() {
    let buffer = b"prefixTOPSECRETsuffix";
    let hidden = evaluate_rules(&vec![literal("TOPSECRET")], buffer, &no_body()).unwrap();
    assert_eq!(hidden.ranges(), vec![range(6, 15)]);
    assert_eq!(hidden.buffer_len(), buffer.len());
    let revealed = hidden.complement(buffer.len());
    assert_eq!(revealed.ranges(), vec![range(0, 6), range(15, 21)]);
    assert_eq!(redact(buffer, &revealed, b'*'), b"prefix*********suffix".to_vec());
}

#[test]
fn literal_rule_hides_the_leftmost_occurrence() {
    let hidden = evaluate_rules(&vec![literal("ab")], b"ab--ab", &no_body()).unwrap();
    assert_eq!(hidden.ranges(), vec![range(0, 2)]);
    // A secret that already stands in the prefix is found there.
    assert_eq!(evaluate_rule(&literal("p"), b"prefixpsuffix", &no_body()), Ok(range(0, 1)));
}

#[test]
fn missing_secret_is_a_hard_failure() {
    let result = evaluate_rules(&vec![literal("XYZ")], b"abc", &no_body());
    assert_eq!(result.err(), Some(RedactionError::PatternNotFound));
    assert_eq!(
        evaluate_rule(&literal("XYZ"), b"abc", &no_body()),
        Err(RedactionError::PatternNotFound)
    );
    let policy = DisclosurePolicy { sent: vec![literal("XYZ")], received: vec![], reveal_identity: true };
    let transcript = Transcript::new(b"abc".to_vec(), b"".to_vec());
    assert_eq!(
        Disclosure::build(&policy, &transcript, &no_body(), &no_body()).err(),
        Some(RedactionError::PatternNotFound)
    );
}

#[test]
fn empty_literal_hides_nothing() {
    let hidden = evaluate_rules(&vec![literal("")], b"abc", &no_body()).unwrap();
    assert_eq!(hidden.ranges(), Vec::<ByteRange>::new());
}

#[test]
fn no_rules_hide_nothing() {
    let hidden = evaluate_rules(&Vec::new(), b"abc", &no_body()).unwrap();
    assert_eq!(hidden.ranges(), Vec::<ByteRange>::new());
    assert_eq!(hidden.complement(3).ranges(), vec![range(0, 3)]);
}

#[test]
fn field_path_hides_exactly_key_and_value() {
    let body = r#"{"information":{"name":"John"}}"#;
    let fields = StructuredBody {
        offset: 0,
        fields: vec![located(body, "information.name", "John")],
    };
    let hidden =
        evaluate_rules(&vec![field("information.name", 8, 1)], body.as_bytes(), &fields).unwrap();
    let start = body.find(r#""name":"John""#).unwrap();
    let end = start + r#""name":"John""#.len();
    assert_eq!((start, end), (16, 29));
    assert_eq!(hidden.ranges(), vec![range(16, 29)]);
    let shown = redact(body.as_bytes(), &hidden.complement(body.len()), b'#');
    assert_eq!(shown, br##"{"information":{#############}}"##.to_vec());
}

#[test]
fn field_path_is_counted_from_the_start_of_the_body() {
    let head = "HTTP/1.1 200 OK\r\nContent-Type: application/json\r\n\r\n";
    let body = r#"{"information": {"name": "John Doe", "address": {"street": "123 Elm Street"}}}"#;
    let buffer = format!("{head}{body}");
    let fields = StructuredBody {
        offset: head.len(),
        fields: vec![
            located(body, "information.name", "John Doe"),
            located(body, "information.address.street", "123 Elm Street"),
        ],
    };
    let rules = vec![field("information.name", 9, 1), field("information.address.street", 11, 1)];
    let hidden = evaluate_rules(&rules, buffer.as_bytes(), &fields).unwrap();
    let name = buffer.find(r#""name": "John Doe""#).unwrap();
    let street = buffer.find(r#""street": "123 Elm Street""#).unwrap();
    assert_eq!(
        hidden.ranges(),
        vec![range(name, name + 18), range(street, street + 26)]
    );
}

#[test]
fn unknown_field_is_a_hard_failure() {
    let body = r#"{"information":{"name":"John"}}"#;
    let fields = StructuredBody {
        offset: 0,
        fields: vec![located(body, "information.name", "John")],
    };
    assert_eq!(
        evaluate_rule(&field("information.age", 7, 1), body.as_bytes(), &fields),
        Err(RedactionError::FieldNotFound)
    );
    assert_eq!(
        evaluate_rule(&field("information.name", 8, 1), body.as_bytes(), &no_body()),
        Err(RedactionError::FieldNotFound)
    );
}

#[test]
fn field_correction_that_leaves_the_buffer_is_an_invalid_range() {
    let body = r#"{"a":"b"}"#;
    let fields = StructuredBody { offset: 0, fields: vec![located(body, "a", "b")] };
    assert_eq!(
        evaluate_rule(&field("a", 7, 1), body.as_bytes(), &fields),
        Err(RedactionError::InvalidRange)
    );
    assert_eq!(
        evaluate_rule(&field("a", 5, 3), body.as_bytes(), &fields),
        Err(RedactionError::InvalidRange)
    );
    assert_eq!(evaluate_rule(&field("a", 6, 2), body.as_bytes(), &fields), Ok(range(0, 9)));
}

#[test]
fn widen_field_checks_every_bound() {
    assert_eq!(widen_field((10, 14), 5, 3, 1, 100), Ok(range(12, 20)));
    assert_eq!(widen_field((10, 14), 0, 10, 0, 14), Ok(range(0, 14)));
    assert_eq!(widen_field((10, 14), 0, 11, 0, 14), Err(RedactionError::InvalidRange));
    assert_eq!(widen_field((10, 14), 0, 0, 1, 14), Err(RedactionError::InvalidRange));
    assert_eq!(widen_field((14, 10), 0, 0, 0, 100), Err(RedactionError::InvalidRange));
    assert_eq!(widen_field((10, 14), usize::MAX, 0, 0, 100), Err(RedactionError::InvalidRange));
    assert_eq!(widen_field((10, 14), 5, 0, usize::MAX, 100), Err(RedactionError::InvalidRange));
    assert_eq!(widen_field((3, 3), 2, 0, 0, 5), Ok(range(5, 5)));
}

#[test]
fn locate_field_takes_the_first_entry_of_a_path() {
    let fields = vec![
        LocatedField { path: "a.b".to_string(), start: 1, end: 2 },
        LocatedField { path: "a.c".to_string(), start: 3, end: 4 },
        LocatedField { path: "a.b".to_string(), start: 5, end: 6 },
    ];
    assert_eq!(locate_field(&fields, &"a.b".to_string()), Some((1, 2)));
    assert_eq!(locate_field(&fields, &"a.c".to_string()), Some((3, 4)));
    assert_eq!(locate_field(&fields, &"a".to_string()), None);
    assert_eq!(locate_field(&Vec::new(), &"a".to_string()), None);
}

#[test]
fn regex_capture_hides_exactly_the_group() {
    let buffer = r#"{"name":"Luke","homeworld": "https://swapi.dev/api/planets/1/","mass":"77"}"#;
    let rule = regex(r#""homeworld"\s?:\s?"(.*?)""#, 1);
    let hidden = evaluate_rules(&vec![rule], buffer.as_bytes(), &no_body()).unwrap();
    let start = buffer.find("https://").unwrap();
    let end = start + "https://swapi.dev/api/planets/1/".len();
    assert_eq!(hidden.ranges(), vec![range(start, end)]);
    let whole = regex(r#""homeworld"\s?:\s?"(.*?)""#, 0);
    let hidden = evaluate_rules(&vec![whole], buffer.as_bytes(), &no_body()).unwrap();
    assert_eq!(hidden.ranges(), vec![range(buffer.find("\"homeworld\"").unwrap(), end + 1)]);
}

#[test]
fn regex_offsets_are_byte_offsets() {
    // Ten characters stand in front of the digits, in fourteen bytes.
    let buffer = "caf\u{e9} \u{1f921} id=42;";
    assert_eq!(buffer.chars().position(|c| c == '4'), Some(10));
    assert_eq!(find_capture(r"id=(\d+)", buffer, 1), Ok((14, 16)));
    assert_eq!(
        evaluate_rule(&regex(r"id=(\d+)", 1), buffer.as_bytes(), &no_body()),
        Ok(range(14, 16))
    );
}

#[test]
fn regex_without_a_match_is_a_hard_failure() {
    assert_eq!(
        evaluate_rule(&regex(r"id=(\d+)", 1), b"no identifier", &no_body()),
        Err(RedactionError::PatternNotFound)
    );
    // The pattern matches, but the group takes no part in the match.
    assert_eq!(
        evaluate_rule(&regex(r"a(b)?c", 1), b"xacx", &no_body()),
        Err(RedactionError::PatternNotFound)
    );
    // The pattern has no such group.
    assert_eq!(
        evaluate_rule(&regex(r"a(b)?c", 2), b"xabcx", &no_body()),
        Err(RedactionError::PatternNotFound)
    );
}

#[test]
fn regex_that_does_not_compile_is_an_invalid_pattern() {
    assert_eq!(
        evaluate_rule(&regex(r"(unclosed", 0), b"(unclosed", &no_body()),
        Err(RedactionError::InvalidPattern)
    );
    assert_eq!(find_capture(r"[", "[", 0), Err(RedactionError::InvalidPattern));
}

#[test]
fn classify_capture_maps_every_outcome() {
    let error = regex::Regex::new("(").unwrap_err();
    assert_eq!(classify_capture(Err(error)), Err(RedactionError::InvalidPattern));
    assert_eq!(classify_capture(Ok(None)), Err(RedactionError::PatternNotFound));
    assert_eq!(classify_capture(Ok(Some((3, 9)))), Ok((3, 9)));
}

#[test]
fn text_rules_reject_invalid_utf8() {
    let buffer = [b'i', b'd', b'=', b'4', 0xff];
    assert_eq!(
        evaluate_rule(&regex(r"id=(\d+)", 1), &buffer, &no_body()),
        Err(RedactionError::InvalidUtf8)
    );
    let fields = StructuredBody {
        offset: 0,
        fields: vec![LocatedField { path: "id".to_string(), start: 3, end: 4 }],
    };
    assert_eq!(evaluate_rule(&field("id", 0, 0), &buffer, &fields), Err(RedactionError::InvalidUtf8));
    // A literal is matched byte for byte, whatever the bytes are.
    assert_eq!(evaluate_rule(&literal("d=4"), &buffer, &no_body()), Ok(range(1, 4)));
}

#[test]
fn rules_of_a_direction_are_unioned() {
    let buffer = b"user=alice; token=abc123; session=abc";
    let rules = vec![literal("alice"), regex(r"token=(\w+)", 1), literal("abc")];
    let hidden = evaluate_rules(&rules, buffer, &no_body()).unwrap();
    assert_eq!(hidden.ranges(), vec![range(5, 10), range(18, 24)]);
}

#[test]
fn the_first_failing_rule_gives_the_error() {
    let rules = vec![literal("a"), regex("(", 0), literal("zzz")];
    assert_eq!(
        evaluate_rules(&rules, b"abc", &no_body()).err(),
        Some(RedactionError::InvalidPattern)
    );
    let rules = vec![literal("zzz"), regex("(", 0)];
    assert_eq!(
        evaluate_rules(&rules, b"abc", &no_body()).err(),
        Some(RedactionError::PatternNotFound)
    );
}

#[test]
fn evaluate_gives_both_directions() {
    let policy = DisclosurePolicy {
        sent: vec![literal("hunter2")],
        received: vec![regex(r"balance=(\d+)", 1)],
        reveal_identity: true,
    };
    let transcript = Transcript::new(b"login hunter2 now".to_vec(), b"ok balance=1200".to_vec());
    let (sent, received) = evaluate(&policy, &transcript, &no_body(), &no_body()).unwrap();
    assert_eq!(sent.ranges(), vec![range(6, 13)]);
    assert_eq!(sent.buffer_len(), 17);
    assert_eq!(received.ranges(), vec![range(11, 15)]);
    assert_eq!(received.buffer_len(), 15);
}

#[test]
fn evaluate_reports_the_sent_direction_first() {
    let policy = DisclosurePolicy {
        sent: vec![literal("missing")],
        received: vec![regex("(", 0)],
        reveal_identity: false,
    };
    let transcript = Transcript::new(b"sent".to_vec(), b"received".to_vec());
    assert_eq!(
        evaluate(&policy, &transcript, &no_body(), &no_body()).err(),
        Some(RedactionError::PatternNotFound)
    );
    let policy = DisclosurePolicy { sent: vec![], received: vec![regex("(", 0)], reveal_identity: false };
    assert_eq!(
        evaluate(&policy, &transcript, &no_body(), &no_body()).err(),
        Some(RedactionError::InvalidPattern)
    );
}

#[test]
fn disclosure_reveals_the_complement() {
    let policy = DisclosurePolicy {
        sent: vec![literal("hunter2")],
        received: vec![],
        reveal_identity: true,
    };
    let transcript = Transcript::new(b"login hunter2 now".to_vec(), b"welcome".to_vec());
    let disclosure = Disclosure::build(&policy, &transcript, &no_body(), &no_body()).unwrap();
    assert_eq!(disclosure.sent().ranges(), vec![range(0, 6), range(13, 17)]);
    assert_eq!(disclosure.received().ranges(), vec![range(0, 7)]);
    assert!(disclosure.reveal_identity());
    let (sent, received, reveal_identity) = disclosure.into_parts();
    assert_eq!(sent.ranges(), vec![range(0, 6), range(13, 17)]);
    assert_eq!(received.ranges(), vec![range(0, 7)]);
    assert!(reveal_identity);
}

#[test]
fn disclosure_from_hidden_sets() {
    let policy = DisclosurePolicy {
        sent: vec![literal("bc")],
        received: vec![literal("x"), literal("z")],
        reveal_identity: false,
    };
    let transcript = Transcript::new(b"abcd".to_vec(), b"xyz".to_vec());
    let (sent, received) = evaluate(&policy, &transcript, &no_body(), &no_body()).unwrap();
    let disclosure = Disclosure::from_hidden(&sent, &received, false);
    assert_eq!(disclosure.sent().ranges(), vec![range(0, 1), range(3, 4)]);
    assert_eq!(disclosure.received().ranges(), vec![range(1, 2)]);
    assert!(!disclosure.reveal_identity());
    assert!(disclosure.sent().is_disjoint_from(&sent));
    assert!(disclosure.received().is_disjoint_from(&received));
}

fn member(path: &str, key: &str) -> RedactionRule {
    RedactionRule::FieldMember { path: path.to_string(), key: key.as_bytes().to_vec() }
}

#[test]
fn field_member_hides_key_and_value_whatever_the_spacing() {
    for body in [
        r#"{"information":{"name":"John"}}"#,
        r#"{"information": {"name": "John"}}"#,
        r#"{"information": {"name" : "John"}}"#,
        "{\"information\":{\"name\"\t:\r\n   \"John\"}}",
        "{ \"information\" : { \"name\"   :\"John\" } }",
    ] {
        let fields = StructuredBody {
            offset: 0,
            fields: vec![located(body, "information.name", "John")],
        };
        let hidden = evaluate_rules(
            &vec![member("information.name", "name")],
            body.as_bytes(),
            &fields,
        )
        .unwrap();
        let start = body.find("\"name\"").unwrap();
        let end = body.find("John\"").unwrap() + 5;
        assert_eq!(hidden.ranges(), vec![range(start, end)], "{body}");
        assert_eq!(body.as_bytes()[start], b'"');
        assert_eq!(body.as_bytes()[end - 1], b'"');
        let shown = redact(body.as_bytes(), &hidden.complement(body.len()), b'#');
        assert_eq!(&shown[..start], &body.as_bytes()[..start]);
        assert_eq!(&shown[end..], &body.as_bytes()[end..]);
        assert!(shown[start..end].iter().all(|b| *b == b'#'));
    }
    let compact = r#"{"information":{"name":"John"}}"#;
    let fields = StructuredBody { offset: 0, fields: vec![located(compact, "information.name", "John")] };
    assert_eq!(
        evaluate_rule(&member("information.name", "name"), compact.as_bytes(), &fields),
        Ok(range(16, 29))
    );
}

#[test]
fn field_member_is_counted_from_the_start_of_the_body() {
    let head = "HTTP/1.1 200 OK\r\n\r\n";
    let body = r#"{"information": {"name": "John Doe", "address": {"street": "123 Elm Street"}}}"#;
    let buffer = format!("{head}{body}");
    let fields = StructuredBody {
        offset: head.len(),
        fields: vec![
            located(body, "information.name", "John Doe"),
            located(body, "information.address.street", "123 Elm Street"),
        ],
    };
    let rules =
        vec![member("information.name", "name"), member("information.address.street", "street")];
    let hidden = evaluate_rules(&rules, buffer.as_bytes(), &fields).unwrap();
    let name = buffer.find(r#""name": "John Doe""#).unwrap();
    let street = buffer.find(r#""street": "123 Elm Street""#).unwrap();
    assert_eq!(hidden.ranges(), vec![range(name, name + 18), range(street, street + 26)]);
}

#[test]
fn field_member_that_is_not_written_so_is_not_found() {
    let body = r#"{"age": 42, "name": "John", "n": "x"}"#;
    let at = |value: &str| {
        let start = body.find(value).unwrap();
        LocatedField { path: "p".to_string(), start, end: start + value.len() }
    };
    let with = |field: LocatedField| StructuredBody { offset: 0, fields: vec![field] };
    // The value is no string.
    assert_eq!(
        evaluate_rule(&member("p", "age"), body.as_bytes(), &with(at("42"))),
        Err(RedactionError::FieldNotFound)
    );
    // The key in front of the value is another one.
    assert_eq!(
        evaluate_rule(&member("p", "nam"), body.as_bytes(), &with(at("John"))),
        Err(RedactionError::FieldNotFound)
    );
    assert_eq!(
        evaluate_rule(&member("p", "ame"), body.as_bytes(), &with(at("John"))),
        Err(RedactionError::FieldNotFound)
    );
    // The span is not that of the whole value.
    assert_eq!(
        evaluate_rule(&member("p", "name"), body.as_bytes(), &with(at("Joh"))),
        Err(RedactionError::FieldNotFound)
    );
    // The path is not in the body.
    assert_eq!(
        evaluate_rule(&member("q", "name"), body.as_bytes(), &with(at("John"))),
        Err(RedactionError::FieldNotFound)
    );
    // The span leaves the buffer.
    let outside = LocatedField { path: "p".to_string(), start: usize::MAX, end: usize::MAX };
    assert_eq!(
        evaluate_rule(&member("p", "name"), body.as_bytes(), &with(outside)),
        Err(RedactionError::FieldNotFound)
    );
    let far = StructuredBody { offset: usize::MAX, fields: vec![at("John")] };
    assert_eq!(
        evaluate_rule(&member("p", "name"), body.as_bytes(), &far),
        Err(RedactionError::FieldNotFound)
    );
    assert_eq!(
        evaluate_rule(&member("p", "name"), body.as_bytes(), &with(at("John"))),
        Ok(range(12, 26))
    );
    assert_eq!(
        evaluate_rule(&member("p", "name"), b"\"name\": \"Jo\xff\"", &with(at("John"))),
        Err(RedactionError::InvalidUtf8)
    );
}

#[test]
fn find_member_reads_back_from_the_value() {
    assert_eq!(find_member(br#""k":"v""#, b"k", 5, 6), Some(range(0, 7)));
    assert_eq!(find_member(br#""k" : "v""#, b"k", 7, 8), Some(range(0, 9)));
    assert_eq!(find_member(br#"{"":""}"#, b"", 5, 5), Some(range(1, 6)));
    assert_eq!(find_member(br#"x"key":  "value"y"#, b"key", 10, 15), Some(range(1, 16)));
    // No quote around the value, no colon, no key, or no room for them.
    assert_eq!(find_member(br#""k":v ,"#, b"k", 4, 5), None);
    assert_eq!(find_member(br#""k":"v,"#, b"k", 5, 6), None);
    assert_eq!(find_member(br#""k" "v""#, b"k", 5, 6), None);
    assert_eq!(find_member(br#""k";"v""#, b"k", 5, 6), None);
    assert_eq!(find_member(br#"k":"v""#, b"k", 4, 5), None);
    assert_eq!(find_member(br#":"v""#, b"k", 2, 3), None);
    assert_eq!(find_member(br#" :"v""#, b"", 3, 4), None);
    assert_eq!(find_member(br#""v""#, b"k", 1, 2), None);
    assert_eq!(find_member(br#""k":"v""#, b"k", 6, 5), None);
    assert_eq!(find_member(br#""k":"v""#, b"k", 5, 7), None);
    assert_eq!(find_member(br#""k":"v""#, b"k", 0, 1), None);
    assert_eq!(find_member(b"", b"k", 0, 0), None);
    assert_eq!(find_member(br#""kk":"v""#, b"k", 6, 7), None);
    assert_eq!(find_member(br#""k":"v""#, b"kk", 5, 6), None);
}

#[test]
fn a_field_range_does_not_start_in_front_of_the_body() {
    let head = "HTTP/1.1 200 OK\r\n\r\n";
    let body = r#"{"a":"b"}"#;
    let buffer = format!("{head}{body}");
    let fields = StructuredBody { offset: head.len(), fields: vec![located(body, "a", "b")] };
    // The whole body may be hidden, and not one byte of the head.
    assert_eq!(
        evaluate_rule(&field("a", 6, 2), buffer.as_bytes(), &fields),
        Ok(range(head.len(), buffer.len()))
    );
    assert_eq!(
        evaluate_rule(&field("a", 7, 2), buffer.as_bytes(), &fields),
        Err(RedactionError::InvalidRange)
    );
    assert_eq!(
        evaluate_rule(&field("a", 6 + head.len(), 2), buffer.as_bytes(), &fields),
        Err(RedactionError::InvalidRange)
    );
    assert_eq!(widen_field((3, 5), 10, 3, 0, 100), Ok(range(10, 15)));
    assert_eq!(widen_field((3, 5), 10, 4, 0, 100), Err(RedactionError::InvalidRange));
    assert_eq!(widen_field((3, 5), 10, 13, 0, 100), Err(RedactionError::InvalidRange));
}

#[test]
fn a_member_does_not_start_in_front_of_the_body() {
    // The key is written in the buffer, but the body is said to start behind it.
    let buffer = r#""name": "John""#;
    let value = buffer.find("John").unwrap();
    let at = |offset: usize| StructuredBody {
        offset,
        fields: vec![LocatedField { path: "p".to_string(), start: value - offset, end: value + 4 - offset }],
    };
    assert_eq!(evaluate_rule(&member("p", "name"), buffer.as_bytes(), &at(0)), Ok(range(0, 14)));
    assert_eq!(
        evaluate_rule(&member("p", "name"), buffer.as_bytes(), &at(1)),
        Err(RedactionError::InvalidRange)
    );
    assert_eq!(
        evaluate_rule(&member("p", "name"), buffer.as_bytes(), &at(value)),
        Err(RedactionError::InvalidRange)
    );
}

#[test]
fn a_regex_range_lies_in_the_buffer() {
    for (pattern, group, text) in [
        (r"", 0, ""),
        (r"$", 0, "abc"),
        (r"(c)$", 1, "abc"),
        (r"\u{1f921}()", 1, "x\u{1f921}"),
        (r"(?s).*", 0, "caf\u{e9}\n"),
    ] {
        let found = evaluate_rule(&regex(pattern, group), text.as_bytes(), &no_body()).unwrap();
        assert!(found.start <= found.end && found.end <= text.len());
    }
    assert_eq!(evaluate_rule(&regex(r"$", 0), b"abc", &no_body()), Ok(range(3, 3)));
}
