use tlsn_disclosure::disclosure::Disclosure;
use tlsn_disclosure::endpoint::exchange_request;
use tlsn_disclosure::policy::{DisclosurePolicy, LocatedField, RedactionRule, StructuredBody};
use tlsn_disclosure::text::{redact, REDACTION_MARKER, UNREVEALED};
use tlsn_disclosure::transcript::{RevealedBytes, RevealedTranscript, Transcript};
use tlsn_disclosure::verification::{
    verifier_checks, EngineOutput, Expectations, Predicate, RejectReason,
};

const DOMAIN: &str = "data.example.com";
const SECRET_VALUE: &str = "correct horse battery staple";
const BODY: &str = r#"{"information":{"name":"John","address":{"street":"123 Elm"}}}"#;

fn sent_bytes() -> Vec<u8> {
    let request = exchange_request("/data", DOMAIN, SECRET_VALUE, &Vec::new());
    let mut text = format!("{} {} HTTP/1.1\r\n", request.method, request.uri);
    for (name, value) in &request.headers {
        text.push_str(&format!("{name}: {value}\r\n"));
    }
    text.push_str("\r\n");
    text.into_bytes()
}

fn received_bytes() -> Vec<u8> {
    format!("HTTP/1.1 200 OK\r\nX-Api-Version: v0.1.0\r\n\r\n{BODY}").into_bytes()
}

fn received_body() -> StructuredBody {
    let offset = received_bytes().len() - BODY.len();
    let at = |value: &str| BODY.find(value).unwrap();
    StructuredBody {
        offset,
        fields: vec![
            LocatedField { path: "information.name".to_string(), start: at("John"), end: at("John") + 4 },
            LocatedField {
                path: "information.address.street".to_string(),
                start: at("123 Elm"),
                end: at("123 Elm") + 7,
            },
        ],
    }
}

fn policy() -> DisclosurePolicy {
    DisclosurePolicy {
        sent: vec![RedactionRule::LiteralMatch { needle: SECRET_VALUE.as_bytes().to_vec() }],
        received: vec![
            RedactionRule::FieldPath { path: "information.name".to_string(), prefix_len: 8, suffix_len: 1 },
            RedactionRule::FieldMember {
                path: "information.address.street".to_string(),
                key: b"street".to_vec(),
            },
        ],
        reveal_identity: true,
    }
}

/// What the verifier holds once the prover has revealed `disclosure`: of
/// every byte whether it was revealed, and NUL where it was not.
fn revealed(disclosure: &Disclosure, identity: &str) -> EngineOutput {
    let sent = redact(&sent_bytes(), disclosure.sent(), UNREVEALED);
    let received = redact(&received_bytes(), disclosure.received(), UNREVEALED);
    EngineOutput {
        server_identity: if disclosure.reveal_identity() { Some(identity.to_string()) } else { None },
        transcript: Some(RevealedTranscript {
            sent: RevealedBytes::new(sent, &disclosure.sent().ranges()).unwrap(),
            received: RevealedBytes::new(received, &disclosure.received().ranges()).unwrap(),
        }),
    }
}

fn expectations() -> Expectations {
    Expectations {
        server_identity: DOMAIN.to_string(),
        require_identity: true,
        sent: vec![
            Predicate::Contains { needle: DOMAIN.as_bytes().to_vec() },
            Predicate::Absent { needle: SECRET_VALUE.as_bytes().to_vec() },
        ],
        received: vec![
            Predicate::Contains { needle: b"v0.1.0".to_vec() },
            Predicate::Absent { needle: b"John".to_vec() },
            Predicate::Absent { needle: b"123 Elm".to_vec() },
        ],
    }
}

#[test]
fn a_session_from_request_to_report() {
    let transcript = Transcript::new(sent_bytes(), received_bytes());
    let none = StructuredBody { offset: 0, fields: Vec::new() };
    let disclosure = Disclosure::build(&policy(), &transcript, &none, &received_body()).unwrap();
    let report = verifier_checks(&expectations(), &revealed(&disclosure, DOMAIN)).unwrap();

    let hidden_secret = REDACTION_MARKER.repeat(SECRET_VALUE.len());
    assert_eq!(
        report.sent,
        format!(
            "GET /data HTTP/1.1\r\nHost: {DOMAIN}\r\nConnection: close\r\nSecret: {hidden_secret}\r\n\r\n"
        )
    );
    assert!(report.sent.contains(DOMAIN));
    assert!(!report.sent.contains(SECRET_VALUE));

    let name = REDACTION_MARKER.repeat(r#""name":"John""#.len());
    let street = REDACTION_MARKER.repeat(r#""street":"123 Elm""#.len());
    assert_eq!(
        report.received,
        format!(
            "HTTP/1.1 200 OK\r\nX-Api-Version: v0.1.0\r\n\r\n{{\"information\":{{{name},\"address\":{{{street}}}}}}}"
        )
    );
}

#[test]
fn a_session_with_another_server_is_rejected() {
    let transcript = Transcript::new(sent_bytes(), received_bytes());
    let none = StructuredBody { offset: 0, fields: Vec::new() };
    let disclosure = Disclosure::build(&policy(), &transcript, &none, &received_body()).unwrap();
    let result = verifier_checks(&expectations(), &revealed(&disclosure, "other.example.com"));
    assert_eq!(result.err(), Some(RejectReason::IdentityMismatch));
}

#[test]
fn a_session_that_reveals_the_secret_is_rejected() {
    let transcript = Transcript::new(sent_bytes(), received_bytes());
    let none = StructuredBody { offset: 0, fields: Vec::new() };
    let mut careless = policy();
    careless.sent = Vec::new();
    let disclosure = Disclosure::build(&careless, &transcript, &none, &received_body()).unwrap();
    let result = verifier_checks(&expectations(), &revealed(&disclosure, DOMAIN));
    assert_eq!(result.err(), Some(RejectReason::PredicateNotSatisfied));
}

#[test]
fn a_session_without_identity_is_rejected_by_default() {
    let transcript = Transcript::new(sent_bytes(), received_bytes());
    let none = StructuredBody { offset: 0, fields: Vec::new() };
    let mut anonymous = policy();
    anonymous.reveal_identity = false;
    let disclosure = Disclosure::build(&anonymous, &transcript, &none, &received_body()).unwrap();
    let result = verifier_checks(&expectations(), &revealed(&disclosure, DOMAIN));
    assert_eq!(result.err(), Some(RejectReason::MissingRequiredDisclosure));
}
