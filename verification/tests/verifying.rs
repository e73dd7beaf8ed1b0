use tlsn_disclosure::range_set::{ByteRange, ByteRangeSet};
use tlsn_disclosure::text::{bytes_to_redacted_string, InvalidUtf8, REDACTION_MARKER};
use tlsn_disclosure::error::RedactionError;
use tlsn_disclosure::transcript::{RevealedBytes, RevealedTranscript};
use tlsn_disclosure::verification::{
    check_direction, check_identity, check_predicates, verifier_checks, verifier_step, verify,
    EngineOutput, Expectations, Predicate, RejectReason, VerifierAction, VerifierEvent,
    VerifierSession, VerifierState, REDACTED_BYTE,
};

fn contains(needle: &str) -> Predicate {
    Predicate::Contains { needle: needle.as_bytes().to_vec() }
}

fn absent(needle: &str) -> Predicate {
    Predicate::Absent { needle: needle.as_bytes().to_vec() }
}

fn expectations(domain: &str) -> Expectations {
    Expectations {
        server_identity: domain.to_string(),
        require_identity: true,
        sent: vec![contains(domain)],
        received: vec![contains("123 Elm Street")],
    }
}

/// The ranges of the bytes of `bytes` that are not NUL.
fn ranges_without_nul(bytes: &[u8]) -> Vec<ByteRange> {
    let mut ranges = Vec::new();
    let mut start = None;
    for (i, byte) in bytes.iter().enumerate() {
        match (start, *byte != 0) {
            (None, true) => start = Some(i),
            (Some(s), false) => {
                ranges.push(ByteRange { start: s, end: i });
                start = None;
            }
            _ => {}
        }
    }
    if let Some(s) = start {
        ranges.push(ByteRange { start: s, end: bytes.len() });
    }
    ranges
}

/// One direction in which everything but the NUL bytes was revealed.
fn shown(bytes: &[u8]) -> RevealedBytes {
    RevealedBytes::new(bytes.to_vec(), &ranges_without_nul(bytes)).unwrap()
}

/// One direction of which `ranges` were revealed.
fn shown_at(bytes: &[u8], ranges: &[(usize, usize)]) -> RevealedBytes {
    let ranges = ranges.iter().map(|(start, end)| ByteRange { start: *start, end: *end }).collect();
    RevealedBytes::new(bytes.to_vec(), &ranges).unwrap()
}

fn output(identity: Option<&str>, sent: &[u8], received: &[u8]) -> EngineOutput {
    EngineOutput {
        server_identity: identity.map(|name| name.to_string()),
        transcript: Some(RevealedTranscript { sent: shown(sent), received: shown(received) }),
    }
}

const SENT: &[u8] = b"GET /data HTTP/1.1\r\nHost: example.com\r\nSecret: \0\0\0\0\r\n\r\n";
const RECEIVED: &[u8] = b"HTTP/1.1 200 OK\r\n\r\n{\"street\": \"123 Elm Street\", \0\0\0}";

#[test]
fn a_matching_session_is_reported() {
    let report = verifier_checks(&expectations("example.com"), &output(Some("example.com"), SENT, RECEIVED))
        .unwrap();
    let m = REDACTION_MARKER;
    assert_eq!(
        report.sent,
        format!("GET /data HTTP/1.1\r\nHost: example.com\r\nSecret: {m}{m}{m}{m}\r\n\r\n")
    );
    assert_eq!(
        report.received,
        format!("HTTP/1.1 200 OK\r\n\r\n{{\"street\": \"123 Elm Street\", {m}{m}{m}}}")
    );
}

#[test]
fn another_identity_is_rejected_though_all_predicates_pass() {
    let expected = Expectations {
        server_identity: "example.com".to_string(),
        require_identity: true,
        sent: vec![contains("Host:")],
        received: vec![contains("123 Elm Street")],
    };
    let result = verifier_checks(&expected, &output(Some("example.org"), SENT, RECEIVED));
    assert_eq!(result.err(), Some(RejectReason::IdentityMismatch));
    let result = verifier_checks(&expected, &output(Some("EXAMPLE.COM"), SENT, RECEIVED));
    assert_eq!(result.err(), Some(RejectReason::IdentityMismatch));
    let result = verifier_checks(&expected, &output(Some(""), SENT, RECEIVED));
    assert_eq!(result.err(), Some(RejectReason::IdentityMismatch));
    assert!(verifier_checks(&expected, &output(Some("example.com"), SENT, RECEIVED)).is_ok());
}

#[test]
fn a_failing_predicate_is_reported_before_the_identity() {
    let result =
        verifier_checks(&expectations("example.org"), &output(Some("example.com"), SENT, RECEIVED));
    assert_eq!(result.err(), Some(RejectReason::PredicateNotSatisfied));
    let result = verifier_checks(
        &expectations("example.com"),
        &output(Some("example.org"), SENT, b"HTTP/1.1 200 OK\r\n\r\n{}"),
    );
    assert_eq!(result.err(), Some(RejectReason::PredicateNotSatisfied));
}

#[test]
fn a_missing_transcript_is_rejected() {
    let missing = EngineOutput { server_identity: Some("example.com".to_string()), transcript: None };
    assert_eq!(
        verifier_checks(&expectations("example.com"), &missing).err(),
        Some(RejectReason::MissingRequiredDisclosure)
    );
    let mut lenient = expectations("example.com");
    lenient.require_identity = false;
    assert_eq!(
        verifier_checks(&lenient, &missing).err(),
        Some(RejectReason::MissingRequiredDisclosure)
    );
}

#[test]
fn a_missing_identity_is_rejected_unless_the_policy_tolerates_it() {
    let strict = expectations("example.com");
    assert_eq!(
        verifier_checks(&strict, &output(None, SENT, RECEIVED)).err(),
        Some(RejectReason::MissingRequiredDisclosure)
    );
    let mut lenient = expectations("example.com");
    lenient.require_identity = false;
    assert!(verifier_checks(&lenient, &output(None, SENT, RECEIVED)).is_ok());
    assert_eq!(
        verifier_checks(&lenient, &output(Some("example.org"), SENT, RECEIVED)).err(),
        Some(RejectReason::IdentityMismatch)
    );
}

#[test]
fn revealed_bytes_that_are_no_text_are_rejected() {
    let result = verifier_checks(
        &expectations("example.com"),
        &output(Some("example.com"), b"Host: example.com \xff", RECEIVED),
    );
    assert_eq!(result.err(), Some(RejectReason::InvalidUtf8));
    let result = verifier_checks(
        &expectations("example.com"),
        &output(Some("example.com"), SENT, b"123 Elm Street \xc3"),
    );
    assert_eq!(result.err(), Some(RejectReason::InvalidUtf8));
}

#[test]
fn predicates_hold_one_by_one() {
    let bytes = b"Host: example.com";
    assert!(check_predicates(&vec![], bytes));
    assert!(check_predicates(&vec![contains("example"), absent("secret")], bytes));
    assert!(!check_predicates(&vec![contains("example"), absent("Host")], bytes));
    assert!(!check_predicates(&vec![contains("missing"), contains("example")], bytes));
    assert!(check_predicates(&vec![absent("x")], b""));
}

#[test]
fn direction_check_wants_text_first() {
    assert_eq!(check_direction(&vec![contains("a")], &shown(b"a\xff")), Err(RejectReason::InvalidUtf8));
    assert_eq!(
        check_direction(&vec![contains("b")], &shown(b"a\0")),
        Err(RejectReason::PredicateNotSatisfied)
    );
    assert_eq!(check_direction(&vec![contains("a")], &shown(b"a\0")), Ok(format!("a{REDACTION_MARKER}")));
}

#[test]
fn predicates_see_nothing_that_was_not_revealed() {
    // The engine's bytes hold the secret, but it was not revealed.
    let bytes = b"key: secret!";
    let partly = shown_at(bytes, &[(0, 5), (11, 12)]);
    assert_eq!(
        check_direction(&vec![contains("secret")], &partly),
        Err(RejectReason::PredicateNotSatisfied)
    );
    let m = REDACTION_MARKER;
    assert_eq!(
        check_direction(&vec![absent("secret"), contains("key: ")], &partly),
        Ok(format!("key: {m}{m}{m}{m}{m}{m}!"))
    );
    assert!(check_direction(&vec![contains("secret")], &shown_at(bytes, &[(0, 12)])).is_ok());
}

#[test]
fn a_revealed_nul_is_kept() {
    let m = REDACTION_MARKER;
    let bytes = b"a\0b\0c";
    assert_eq!(bytes_to_redacted_string(&shown_at(bytes, &[(0, 3)])), Ok(format!("a\0b{m}{m}")));
    assert_eq!(bytes_to_redacted_string(&shown_at(bytes, &[(0, 5)])), Ok("a\0b\0c".to_string()));
    assert_eq!(bytes_to_redacted_string(&shown_at(bytes, &[(1, 2), (3, 4)])), Ok(format!("{m}\0{m}\0{m}")));
    assert_eq!(bytes_to_redacted_string(&shown_at(bytes, &[])), Ok(m.repeat(5)));
    assert_eq!(
        check_direction(&vec![contains("a\0b")], &shown_at(bytes, &[(0, 3)])),
        Ok(format!("a\0b{m}{m}"))
    );
}

#[test]
fn rendering_keeps_length_and_place() {
    let m = REDACTION_MARKER;
    let bytes = "caf\u{e9} au lait".as_bytes();
    assert_eq!(bytes_to_redacted_string(&shown_at(bytes, &[(0, 5)])), Ok(format!("caf\u{e9}{}", m.repeat(8))));
    assert_eq!(
        bytes_to_redacted_string(&shown_at(bytes, &[(0, 3), (5, 6), (9, 13)])),
        Ok(format!("caf{m}{m} {m}{m}{m}lait"))
    );
    assert_eq!(bytes_to_redacted_string(&shown_at(b"", &[])), Ok(String::new()));
    // Ranges that touch are one run of text.
    assert_eq!(bytes_to_redacted_string(&shown_at(bytes, &[(0, 3), (3, 5)])), Ok(format!("caf\u{e9}{}", m.repeat(8))));
}

#[test]
fn a_run_that_splits_a_character_is_no_text() {
    let bytes = "caf\u{e9}".as_bytes();
    assert_eq!(bytes_to_redacted_string(&shown_at(bytes, &[(0, 4)])), Err(InvalidUtf8));
    assert_eq!(bytes_to_redacted_string(&shown_at(bytes, &[(4, 5)])), Err(InvalidUtf8));
    // Bytes that were not revealed need not be text.
    assert_eq!(bytes_to_redacted_string(&shown_at(b"ok\xff", &[(0, 2)])), Ok(format!("ok{REDACTION_MARKER}")));
    assert_eq!(bytes_to_redacted_string(&shown_at(b"ok\xff", &[(0, 3)])), Err(InvalidUtf8));
}

#[test]
fn revealed_ranges_must_lie_in_the_bytes() {
    let range = |start, end| ByteRange { start, end };
    assert!(RevealedBytes::new(b"abc".to_vec(), &vec![range(0, 3)]).is_ok());
    assert!(RevealedBytes::new(b"abc".to_vec(), &vec![range(2, 2), range(1, 3), range(0, 2)]).is_ok());
    assert_eq!(
        RevealedBytes::new(b"abc".to_vec(), &vec![range(0, 4)]).err(),
        Some(RedactionError::InvalidRange)
    );
    assert_eq!(
        RevealedBytes::new(b"abc".to_vec(), &vec![range(0, 1), range(2, 1)]).err(),
        Some(RedactionError::InvalidRange)
    );
    let shown = RevealedBytes::new(b"abcd".to_vec(), &vec![range(2, 3), range(0, 1), range(1, 2)]).unwrap();
    assert_eq!(shown.as_bytes(), b"abcd");
    assert_eq!(shown.revealed_set().ranges(), vec![range(0, 3)]);
    assert_eq!(shown.revealed_set().buffer_len(), 4);
}

#[test]
fn identity_check_compares_exactly() {
    let expected = "example.com".to_string();
    assert_eq!(check_identity(&expected, &Some("example.com".to_string())), Ok(()));
    assert_eq!(
        check_identity(&expected, &Some("example.com.".to_string())),
        Err(RejectReason::IdentityMismatch)
    );
    assert_eq!(check_identity(&expected, &None), Ok(()));
}

#[test]
fn verifier_walks_its_states_in_order() {
    let mut state = VerifierState::Idle;
    let steps = [
        (VerifierEvent::Start, VerifierState::AcceptingTransport, VerifierAction::AcceptTransport),
        (VerifierEvent::TransportAccepted, VerifierState::ChannelVerify, VerifierAction::RunEngine),
        (
            VerifierEvent::EngineVerified { has_identity: true, has_transcript: true },
            VerifierState::CheckingSentPredicate,
            VerifierAction::CheckSent,
        ),
        (VerifierEvent::CheckPassed, VerifierState::CheckingReceivedPredicate, VerifierAction::CheckReceived),
        (VerifierEvent::CheckPassed, VerifierState::CheckingIdentity, VerifierAction::CheckIdentity),
        (VerifierEvent::CheckPassed, VerifierState::Done, VerifierAction::Report),
    ];
    for (event, expected_state, expected_action) in steps {
        let (next, action) = verifier_step(state, event, true);
        assert_eq!(next, expected_state);
        assert_eq!(action, expected_action);
        state = next;
    }
    assert_eq!(verifier_step(state, VerifierEvent::Start, true), (VerifierState::Done, VerifierAction::Nothing));
}

#[test]
fn verifier_fails_from_any_state_that_is_not_an_end() {
    let open = [
        VerifierState::Idle,
        VerifierState::AcceptingTransport,
        VerifierState::ChannelVerify,
        VerifierState::CheckingSentPredicate,
        VerifierState::CheckingReceivedPredicate,
        VerifierState::CheckingIdentity,
    ];
    for state in open {
        assert_eq!(
            verifier_step(state, VerifierEvent::TransportFailed, true),
            (VerifierState::Failed(RejectReason::TransportError), VerifierAction::Reject)
        );
        assert_eq!(
            verifier_step(state, VerifierEvent::EngineFailed, false),
            (VerifierState::Failed(RejectReason::EngineError), VerifierAction::Reject)
        );
    }
    let failed = VerifierState::Failed(RejectReason::IdentityMismatch);
    assert_eq!(verifier_step(failed, VerifierEvent::CheckPassed, true), (failed, VerifierAction::Nothing));
    assert_eq!(verifier_step(failed, VerifierEvent::TransportFailed, true), (failed, VerifierAction::Nothing));
}

#[test]
fn verifier_rejects_what_the_engine_left_out() {
    let missing = VerifierState::Failed(RejectReason::MissingRequiredDisclosure);
    let verified = |has_identity, has_transcript| VerifierEvent::EngineVerified { has_identity, has_transcript };
    assert_eq!(verifier_step(VerifierState::ChannelVerify, verified(true, false), false).0, missing);
    assert_eq!(verifier_step(VerifierState::ChannelVerify, verified(false, false), false).0, missing);
    assert_eq!(verifier_step(VerifierState::ChannelVerify, verified(false, true), true).0, missing);
    assert_eq!(
        verifier_step(VerifierState::ChannelVerify, verified(false, true), false).0,
        VerifierState::CheckingSentPredicate
    );
}

#[test]
fn verifier_takes_the_reason_of_a_failed_check() {
    for state in [
        VerifierState::CheckingSentPredicate,
        VerifierState::CheckingReceivedPredicate,
        VerifierState::CheckingIdentity,
    ] {
        assert_eq!(
            verifier_step(state, VerifierEvent::CheckFailed(RejectReason::PredicateNotSatisfied), true),
            (VerifierState::Failed(RejectReason::PredicateNotSatisfied), VerifierAction::Reject)
        );
    }
}

#[test]
fn verifier_rejects_events_out_of_order() {
    let unexpected = (VerifierState::Failed(RejectReason::UnexpectedEvent), VerifierAction::Reject);
    assert_eq!(verifier_step(VerifierState::Idle, VerifierEvent::CheckPassed, true), unexpected);
    assert_eq!(verifier_step(VerifierState::Idle, VerifierEvent::TransportAccepted, true), unexpected);
    assert_eq!(verifier_step(VerifierState::ChannelVerify, VerifierEvent::Start, true), unexpected);
    assert_eq!(
        verifier_step(VerifierState::ChannelVerify, VerifierEvent::CheckPassed, true),
        unexpected
    );
    assert_eq!(
        verifier_step(
            VerifierState::AcceptingTransport,
            VerifierEvent::CheckFailed(RejectReason::IdentityMismatch),
            true
        ),
        unexpected
    );
    assert_eq!(
        verifier_step(
            VerifierState::CheckingIdentity,
            VerifierEvent::EngineVerified { has_identity: true, has_transcript: true },
            true
        ),
        unexpected
    );
}

#[test]
fn verify_shows_hidden_bytes_as_x() {
    assert_eq!(REDACTED_BYTE, b'X');
    let mut sent_revealed = ByteRangeSet::new(10);
    sent_revealed.insert(ByteRange { start: 0, end: 4 }).unwrap();
    let mut recv_revealed = ByteRangeSet::new(6);
    recv_revealed.insert(ByteRange { start: 2, end: 6 }).unwrap();
    let shown = verify(
        "example.com".to_string(),
        1_700_000_000,
        b"GET secret",
        &sent_revealed,
        b"\xff\xfe200!",
        &recv_revealed,
    )
    .unwrap();
    assert_eq!(shown.server_name, "example.com");
    assert_eq!(shown.time, 1_700_000_000);
    assert_eq!(shown.sent, "GET XXXXXX");
    assert_eq!(shown.recv, "XX200!");
}

#[test]
fn verify_wants_text() {
    let all = {
        let mut set = ByteRangeSet::new(2);
        set.insert(ByteRange { start: 0, end: 2 }).unwrap();
        set
    };
    let none = ByteRangeSet::new(2);
    assert_eq!(
        verify("s".to_string(), 0, b"a\xff", &all, b"ok", &all).err(),
        Some(InvalidUtf8)
    );
    assert_eq!(
        verify("s".to_string(), 0, b"ok", &all, b"\xffa", &all).err(),
        Some(InvalidUtf8)
    );
    assert!(verify("s".to_string(), 0, b"ok", &all, b"\xffa", &none).is_ok());
}

#[test]
fn a_verifier_session_goes_from_idle_to_done() {
    let mut session = VerifierSession::new(expectations("example.com"));
    assert_eq!(session.state(), VerifierState::Idle);
    assert_eq!(session.expected().server_identity, "example.com");
    assert_eq!(session.handle(VerifierEvent::Start), VerifierAction::AcceptTransport);
    assert_eq!(session.handle(VerifierEvent::TransportAccepted), VerifierAction::RunEngine);
    assert_eq!(session.state(), VerifierState::ChannelVerify);
    let report = session.conclude(&output(Some("example.com"), SENT, RECEIVED)).unwrap();
    assert!(report.sent.contains("Host: example.com"));
    assert_eq!(session.state(), VerifierState::Done);
    assert_eq!(session.handle(VerifierEvent::Start), VerifierAction::Nothing);
    assert_eq!(
        session.conclude(&output(Some("example.com"), SENT, RECEIVED)).err(),
        Some(RejectReason::UnexpectedEvent)
    );
    assert_eq!(session.state(), VerifierState::Done);
}

#[test]
fn a_verifier_session_fails_with_the_reason_of_the_verdict() {
    let mut session = VerifierSession::new(expectations("example.com"));
    session.handle(VerifierEvent::Start);
    session.handle(VerifierEvent::TransportAccepted);
    assert_eq!(
        session.conclude(&output(Some("example.net"), SENT, RECEIVED)).err(),
        Some(RejectReason::IdentityMismatch)
    );
    assert_eq!(session.state(), VerifierState::Failed(RejectReason::IdentityMismatch));
}

#[test]
fn a_verifier_session_checks_nothing_before_the_engine_has_run() {
    let mut session = VerifierSession::new(expectations("example.com"));
    session.handle(VerifierEvent::Start);
    assert_eq!(
        session.conclude(&output(Some("example.com"), SENT, RECEIVED)).err(),
        Some(RejectReason::UnexpectedEvent)
    );
    assert_eq!(session.state(), VerifierState::Failed(RejectReason::UnexpectedEvent));
}

#[test]
fn a_verifier_session_passes_on_a_failure_of_the_engine() {
    let mut session = VerifierSession::new(expectations("example.com"));
    session.handle(VerifierEvent::Start);
    session.handle(VerifierEvent::TransportAccepted);
    assert_eq!(session.handle(VerifierEvent::EngineFailed), VerifierAction::Reject);
    assert_eq!(session.state(), VerifierState::Failed(RejectReason::EngineError));
}

#[test]
fn a_verifier_session_does_not_take_its_own_events_from_outside() {
    for event in [
        VerifierEvent::EngineVerified { has_identity: true, has_transcript: true },
        VerifierEvent::CheckPassed,
        VerifierEvent::CheckFailed(RejectReason::PredicateNotSatisfied),
    ] {
        let mut session = VerifierSession::new(expectations("example.com"));
        session.handle(VerifierEvent::Start);
        session.handle(VerifierEvent::TransportAccepted);
        assert_eq!(session.handle(event), VerifierAction::Reject);
        assert_eq!(session.state(), VerifierState::Failed(RejectReason::UnexpectedEvent));
        assert_eq!(session.handle(event), VerifierAction::Nothing);
        assert_eq!(session.state(), VerifierState::Failed(RejectReason::UnexpectedEvent));
    }
}
