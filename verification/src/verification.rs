//! The verifier's side of a session: what it checks of a disclosure, and in
//! which order.

use crate::disclosure::lemma_revealed_needle_is_found;
use crate::range_set::{canonical_ranges, ranges_cover, span, ByteRangeSet};
use crate::search::{contains_bytes, matches_at, occurs_in};
use crate::text::{
    bytes_to_redacted_string, lemma_marker_len, lemma_revealed_text_is_shown,
    lemma_shown_text_was_revealed, redact, redacted, revealed_is_text, shares_no_char, shown_text,
    text_holds, utf8_text, InvalidUtf8, REDACTION_MARKER, UNREVEALED,
};
use crate::transcript::{RevealedBytes, RevealedTranscript};
use vstd::prelude::*;
use vstd::string::*;
use vstd::utf8::*;

verus! {

/// Why a verifier rejects a session.
#[derive(Clone, Copy, Debug, PartialEq, Eq, Structural)]
pub enum RejectReason {
    /// The transport to the prover failed.
    TransportError,
    /// The secure channel engine reported a failure.
    EngineError,
    /// The prover left out the transcript, or an identity that is required.
    MissingRequiredDisclosure,
    /// The revealed bytes do not meet one of the verifier's predicates.
    PredicateNotSatisfied,
    /// The revealed identity is not the expected one.
    IdentityMismatch,
    /// Revealed bytes are not UTF-8 text.
    InvalidUtf8,
    /// An event arrived in a state that does not await it.
    UnexpectedEvent,
}

/// The steps of a verifier, in their order, and the two ways to end.
#[derive(Clone, Copy, Debug, PartialEq, Eq, Structural)]
pub enum VerifierState {
    Idle,
    AcceptingTransport,
    ChannelVerify,
    CheckingSentPredicate,
    CheckingReceivedPredicate,
    CheckingIdentity,
    Done,
    Failed(RejectReason),
}

/// What happened since the last step.
#[derive(Clone, Copy, Debug, PartialEq, Eq, Structural)]
pub enum VerifierEvent {
    /// A session is asked for.
    Start,
    /// A prover has connected.
    TransportAccepted,
    /// The engine has verified the channel, and the prover has or has not
    /// revealed the server's identity and the transcript.
    EngineVerified { has_identity: bool, has_transcript: bool },
    /// The check of the current step has passed.
    CheckPassed,
    /// The check of the current step has failed for the given reason.
    CheckFailed(RejectReason),
    /// The transport has failed.
    TransportFailed,
    /// The engine has failed.
    EngineFailed,
}

/// What is to be done on entering a state.
#[derive(Clone, Copy, Debug, PartialEq, Eq, Structural)]
pub enum VerifierAction {
    /// Nothing: the session has ended before, or has not begun.
    Nothing,
    /// Accept a connection from a prover.
    AcceptTransport,
    /// Run the engine's verification over the transport.
    RunEngine,
    /// Check the predicates on what was sent.
    CheckSent,
    /// Check the predicates on what was received.
    CheckReceived,
    /// Compare the revealed identity with the expected one.
    CheckIdentity,
    /// Render the transcripts and report success.
    Report,
    /// Release the transport and the engine and report the rejection.
    Reject,
}

/// A condition on the revealed bytes of one direction.
#[derive(Clone, Debug)]
pub enum Predicate {
    /// The bytes hold `needle` somewhere.
    Contains { needle: Vec<u8> },
    /// The bytes hold `needle` nowhere.
    Absent { needle: Vec<u8> },
}

/// What a verifier expects of a session.
#[derive(Clone, Debug)]
pub struct Expectations {
    /// The name under which the server must have identified itself.
    pub server_identity: String,
    /// Whether a session without a revealed identity is rejected.
    pub require_identity: bool,
    /// What must hold of the revealed bytes that were sent.
    pub sent: Vec<Predicate>,
    /// What must hold of the revealed bytes that were received.
    pub received: Vec<Predicate>,
}

/// What the engine hands out after it has verified a channel: the server's
/// identity and the transcript, each as far as the prover revealed it. The
/// transcript says of every byte whether it was revealed.
pub struct EngineOutput {
    pub server_identity: Option<String>,
    pub transcript: Option<RevealedTranscript>,
}

/// The two directions of a verified session as text, with a marker for every
/// byte that was not revealed.
#[derive(Clone, Debug)]
pub struct Report {
    pub sent: String,
    pub received: String,
}

impl VerifierState {
    /// Whether the session has ended.
    pub open spec fn is_terminal(self) -> bool {
        self is Done || self is Failed
    }
}

/// The state that follows `state` on `event`.
pub open spec fn verifier_next(
    state: VerifierState,
    event: VerifierEvent,
    require_identity: bool,
) -> VerifierState {
    if state.is_terminal() {
        state
    } else {
        match (state, event) {
            (_, VerifierEvent::TransportFailed) => VerifierState::Failed(
                RejectReason::TransportError,
            ),
            (_, VerifierEvent::EngineFailed) => VerifierState::Failed(RejectReason::EngineError),
            (VerifierState::Idle, VerifierEvent::Start) => VerifierState::AcceptingTransport,
            (
                VerifierState::AcceptingTransport,
                VerifierEvent::TransportAccepted,
            ) => VerifierState::ChannelVerify,
            (
                VerifierState::ChannelVerify,
                VerifierEvent::EngineVerified { has_identity, has_transcript },
            ) => if !has_transcript || (require_identity && !has_identity) {
                VerifierState::Failed(RejectReason::MissingRequiredDisclosure)
            } else {
                VerifierState::CheckingSentPredicate
            },
            (
                VerifierState::CheckingSentPredicate,
                VerifierEvent::CheckPassed,
            ) => VerifierState::CheckingReceivedPredicate,
            (
                VerifierState::CheckingReceivedPredicate,
                VerifierEvent::CheckPassed,
            ) => VerifierState::CheckingIdentity,
            (VerifierState::CheckingIdentity, VerifierEvent::CheckPassed) => VerifierState::Done,
            (VerifierState::CheckingSentPredicate, VerifierEvent::CheckFailed(reason)) => {
                VerifierState::Failed(reason)
            },
            (VerifierState::CheckingReceivedPredicate, VerifierEvent::CheckFailed(reason)) => {
                VerifierState::Failed(reason)
            },
            (VerifierState::CheckingIdentity, VerifierEvent::CheckFailed(reason)) => {
                VerifierState::Failed(reason)
            },
            _ => VerifierState::Failed(RejectReason::UnexpectedEvent),
        }
    }
}

/// What is to be done once `state` has been entered.
pub open spec fn verifier_duty(state: VerifierState) -> VerifierAction {
    match state {
        VerifierState::Idle => VerifierAction::Nothing,
        VerifierState::AcceptingTransport => VerifierAction::AcceptTransport,
        VerifierState::ChannelVerify => VerifierAction::RunEngine,
        VerifierState::CheckingSentPredicate => VerifierAction::CheckSent,
        VerifierState::CheckingReceivedPredicate => VerifierAction::CheckReceived,
        VerifierState::CheckingIdentity => VerifierAction::CheckIdentity,
        VerifierState::Done => VerifierAction::Report,
        VerifierState::Failed(_) => VerifierAction::Reject,
    }
}

/// One step of a verifier: the state that follows `state` on `event`, and
/// what is to be done there. A session that has ended stays as it is and asks
/// for nothing more.
pub fn verifier_step(state: VerifierState, event: VerifierEvent, require_identity: bool) -> (next: (
    VerifierState,
    VerifierAction,
))
    ensures
        next.0 == verifier_next(state, event, require_identity),
        next.1 == if state.is_terminal() {
            VerifierAction::Nothing
        } else {
            verifier_duty(next.0)
        },
{
    let ended = match state {
        VerifierState::Done => true,
        VerifierState::Failed(_) => true,
        _ => false,
    };
    if ended {
        return (state, VerifierAction::Nothing);
    }
    let next = match event {
        VerifierEvent::TransportFailed => VerifierState::Failed(RejectReason::TransportError),
        VerifierEvent::EngineFailed => VerifierState::Failed(RejectReason::EngineError),
        VerifierEvent::Start => match state {
            VerifierState::Idle => VerifierState::AcceptingTransport,
            _ => VerifierState::Failed(RejectReason::UnexpectedEvent),
        },
        VerifierEvent::TransportAccepted => match state {
            VerifierState::AcceptingTransport => VerifierState::ChannelVerify,
            _ => VerifierState::Failed(RejectReason::UnexpectedEvent),
        },
        VerifierEvent::EngineVerified { has_identity, has_transcript } => match state {
            VerifierState::ChannelVerify => if !has_transcript || (require_identity
                && !has_identity) {
                VerifierState::Failed(RejectReason::MissingRequiredDisclosure)
            } else {
                VerifierState::CheckingSentPredicate
            },
            _ => VerifierState::Failed(RejectReason::UnexpectedEvent),
        },
        VerifierEvent::CheckPassed => match state {
            VerifierState::CheckingSentPredicate => VerifierState::CheckingReceivedPredicate,
            VerifierState::CheckingReceivedPredicate => VerifierState::CheckingIdentity,
            VerifierState::CheckingIdentity => VerifierState::Done,
            _ => VerifierState::Failed(RejectReason::UnexpectedEvent),
        },
        VerifierEvent::CheckFailed(reason) => match state {
            VerifierState::CheckingSentPredicate => VerifierState::Failed(reason),
            VerifierState::CheckingReceivedPredicate => VerifierState::Failed(reason),
            VerifierState::CheckingIdentity => VerifierState::Failed(reason),
            _ => VerifierState::Failed(RejectReason::UnexpectedEvent),
        },
    };
    let action = match next {
        VerifierState::Idle => VerifierAction::Nothing,
        VerifierState::AcceptingTransport => VerifierAction::AcceptTransport,
        VerifierState::ChannelVerify => VerifierAction::RunEngine,
        VerifierState::CheckingSentPredicate => VerifierAction::CheckSent,
        VerifierState::CheckingReceivedPredicate => VerifierAction::CheckReceived,
        VerifierState::CheckingIdentity => VerifierAction::CheckIdentity,
        VerifierState::Done => VerifierAction::Report,
        VerifierState::Failed(_) => VerifierAction::Reject,
    };
    (next, action)
}

/// Whether `predicate` holds of `bytes`.
pub open spec fn predicate_holds(predicate: Predicate, bytes: Seq<u8>) -> bool {
    match predicate {
        Predicate::Contains { needle } => occurs_in(bytes, needle@),
        Predicate::Absent { needle } => !occurs_in(bytes, needle@),
    }
}

/// Whether every one of `predicates` holds of `bytes`.
pub open spec fn all_hold(predicates: Seq<Predicate>, bytes: Seq<u8>) -> bool {
    forall|i: int| 0 <= i < predicates.len() ==> predicate_holds(#[trigger] predicates[i], bytes)
}

/// What the check of one direction comes to: what was revealed must be
/// text, and every predicate must hold of the revealed bytes, with NUL at
/// every position that was not revealed.
pub open spec fn direction_check(predicates: Seq<Predicate>, bytes: Seq<u8>, revealed: Set<int>) -> Option<
    RejectReason,
> {
    if !revealed_is_text(bytes, revealed) {
        Some(RejectReason::InvalidUtf8)
    } else if !all_hold(predicates, redacted(bytes, revealed, UNREVEALED)) {
        Some(RejectReason::PredicateNotSatisfied)
    } else {
        None
    }
}

/// The check of one direction of `shown`.
pub open spec fn shown_check(predicates: Seq<Predicate>, shown: RevealedBytes) -> Option<
    RejectReason,
> {
    direction_check(predicates, shown.bytes(), shown.revealed())
}

/// One direction of `shown` as the report shows it.
pub open spec fn shown_report(shown: RevealedBytes) -> Seq<char> {
    shown_text(shown.bytes(), shown.revealed(), REDACTION_MARKER@)
}

/// What the check of the identity comes to. A session without a revealed
/// identity passes here: whether it is accepted at all was decided before.
pub open spec fn identity_check(expected: Seq<char>, revealed: Option<String>) -> Option<
    RejectReason,
> {
    match revealed {
        Some(name) => if name@ == expected {
            None
        } else {
            Some(RejectReason::IdentityMismatch)
        },
        None => None,
    }
}

/// Whether a verifier accepts what the engine handed out, and if not, why.
/// The checks come in the order of the verifier's states, and the first one
/// that fails gives the reason.
pub open spec fn verdict(expected: Expectations, output: EngineOutput) -> Option<RejectReason> {
    match output.transcript {
        None => Some(RejectReason::MissingRequiredDisclosure),
        Some(transcript) => if expected.require_identity && output.server_identity is None {
            Some(RejectReason::MissingRequiredDisclosure)
        } else if shown_check(expected.sent@, transcript.sent) is Some {
            shown_check(expected.sent@, transcript.sent)
        } else if shown_check(expected.received@, transcript.received) is Some {
            shown_check(expected.received@, transcript.received)
        } else {
            identity_check(expected.server_identity@, output.server_identity)
        },
    }
}

/// Whether every one of `predicates` holds of `bytes`.
pub fn check_predicates(predicates: &Vec<Predicate>, bytes: &[u8]) -> (holds: bool)
    ensures
        holds == all_hold(predicates@, bytes@),
{
    let mut i: usize = 0;
    while i < predicates.len()
        invariant
            0 <= i <= predicates@.len(),
            forall|k: int| 0 <= k < i ==> predicate_holds(#[trigger] predicates@[k], bytes@),
        decreases predicates.len() - i,
    {
        let holds = match &predicates[i] {
            Predicate::Contains { needle } => contains_bytes(bytes, needle.as_slice()),
            Predicate::Absent { needle } => !contains_bytes(bytes, needle.as_slice()),
        };
        if !holds {
            assert(!predicate_holds(predicates@[i as int], bytes@));
            return false;
        }
        i += 1;
    }
    true
}

/// The check of one direction, and the text of that direction where it
/// passes.
pub fn check_direction(predicates: &Vec<Predicate>, shown: &RevealedBytes) -> (result: Result<
    String,
    RejectReason,
>)
    ensures
        match shown_check(predicates@, *shown) {
            Some(reason) => result == Err::<String, RejectReason>(reason),
            None => result is Ok && result->Ok_0@ == shown_report(*shown),
        },
{
    match bytes_to_redacted_string(shown) {
        Err(_) => Err(RejectReason::InvalidUtf8),
        Ok(text) => {
            let plain = redact(shown.as_bytes(), shown.revealed_set(), UNREVEALED);
            if check_predicates(predicates, plain.as_slice()) {
                Ok(text)
            } else {
                Err(RejectReason::PredicateNotSatisfied)
            }
        },
    }
}

/// The check of the revealed identity against the expected one.
pub fn check_identity(expected: &String, revealed: &Option<String>) -> (result: Result<
    (),
    RejectReason,
>)
    ensures
        match identity_check(expected@, *revealed) {
            Some(reason) => result == Err::<(), RejectReason>(reason),
            None => result is Ok,
        },
{
    match revealed {
        Some(name) => if *name == *expected {
            Ok(())
        } else {
            Err(RejectReason::IdentityMismatch)
        },
        None => Ok(()),
    }
}

/// Takes what the engine handed out through the verifier's checks, state by
/// state, from the verified channel to the end.
///
/// The session ends in `Done` with the two transcripts as text exactly where
/// the verdict has no objection, and in `Failed` with the verdict's reason
/// otherwise.
pub fn verifier_checks(expected: &Expectations, output: &EngineOutput) -> (result: Result<
    Report,
    RejectReason,
>)
    ensures
        match verdict(*expected, *output) {
            Some(reason) => result == Err::<Report, RejectReason>(reason),
            None => result is Ok && output.transcript is Some && result->Ok_0.sent@
                == shown_report(output.transcript->0.sent) && result->Ok_0.received@
                == shown_report(output.transcript->0.received),
        },
{
    let require_identity = expected.require_identity;
    let (state, _) = verifier_step(
        VerifierState::ChannelVerify,
        VerifierEvent::EngineVerified {
            has_identity: output.server_identity.is_some(),
            has_transcript: output.transcript.is_some(),
        },
        require_identity,
    );
    let transcript = match &output.transcript {
        Some(transcript) => transcript,
        None => {
            return Err(RejectReason::MissingRequiredDisclosure);
        },
    };
    if let VerifierState::Failed(reason) = state {
        return Err(reason);
    }
    assert(state == VerifierState::CheckingSentPredicate);
    let (state, sent) = match check_direction(&expected.sent, &transcript.sent) {
        Ok(text) => (verifier_step(state, VerifierEvent::CheckPassed, require_identity).0, text),
        Err(reason) => {
            return Err(reason);
        },
    };
    assert(state == VerifierState::CheckingReceivedPredicate);
    let (state, received) = match check_direction(&expected.received, &transcript.received) {
        Ok(text) => (verifier_step(state, VerifierEvent::CheckPassed, require_identity).0, text),
        Err(reason) => {
            return Err(reason);
        },
    };
    assert(state == VerifierState::CheckingIdentity);
    match check_identity(&expected.server_identity, &output.server_identity) {
        Ok(()) => {
            let (state, _) = verifier_step(state, VerifierEvent::CheckPassed, require_identity);
            assert(state == VerifierState::Done);
            Ok(Report { sent, received })
        },
        Err(reason) => Err(reason),
    }
}

impl VerifierEvent {
    /// Whether the event is one that a session brings about itself, when it
    /// takes what the engine handed out through its checks. Reported from
    /// outside, such an event is out of order.
    pub open spec fn is_internal(self) -> bool {
        self is EngineVerified || self is CheckPassed || self is CheckFailed
    }
}

/// The state of a session that was in `state` when something came out of
/// order.
pub open spec fn verifier_rejected(state: VerifierState) -> VerifierState {
    if state.is_terminal() {
        state
    } else {
        VerifierState::Failed(RejectReason::UnexpectedEvent)
    }
}

/// One verifier's session: where it stands and what it expects. Nothing of it
/// is shared with another session.
pub struct VerifierSession {
    state: VerifierState,
    expected: Expectations,
}

impl VerifierSession {
    /// Where the session stands.
    pub closed spec fn spec_state(&self) -> VerifierState {
        self.state
    }

    /// What the session expects.
    pub closed spec fn spec_expected(&self) -> Expectations {
        self.expected
    }

    /// A session in `Idle` that expects `expected`.
    pub fn new(expected: Expectations) -> (session: VerifierSession)
        ensures
            session.spec_state() == VerifierState::Idle,
            session.spec_expected() == expected,
    {
        VerifierSession { state: VerifierState::Idle, expected }
    }

    /// Where the session stands.
    #[verifier::when_used_as_spec(spec_state)]
    pub fn state(&self) -> (state: VerifierState)
        ensures
            state == self.spec_state(),
    {
        self.state
    }

    /// What the session expects.
    pub fn expected(&self) -> (expected: &Expectations)
        ensures
            *expected == self.spec_expected(),
    {
        &self.expected
    }

    /// Takes an event that is reported from outside and says what is to be
    /// done next. What the engine handed out and how the checks ended are not
    /// reported: [`VerifierSession::conclude`] takes the one and makes the
    /// others, and here they are out of order.
    pub fn handle(&mut self, event: VerifierEvent) -> (action: VerifierAction)
        ensures
            final(self).spec_expected() == old(self).spec_expected(),
            final(self).spec_state() == if event.is_internal() {
                verifier_rejected(old(self).spec_state())
            } else {
                verifier_next(
                    old(self).spec_state(),
                    event,
                    old(self).spec_expected().require_identity,
                )
            },
            action == if old(self).spec_state().is_terminal() {
                VerifierAction::Nothing
            } else {
                verifier_duty(final(self).spec_state())
            },
    {
        let internal = match event {
            VerifierEvent::EngineVerified { .. } => true,
            VerifierEvent::CheckPassed => true,
            VerifierEvent::CheckFailed(_) => true,
            _ => false,
        };
        if internal {
            return match self.state {
                VerifierState::Done => VerifierAction::Nothing,
                VerifierState::Failed(_) => VerifierAction::Nothing,
                _ => {
                    self.state = VerifierState::Failed(RejectReason::UnexpectedEvent);
                    VerifierAction::Reject
                },
            };
        }
        let (next, action) = verifier_step(self.state, event, self.expected.require_identity);
        self.state = next;
        action
    }

    /// Takes what the engine handed out, in `ChannelVerify`, through all the
    /// checks: see [`verifier_checks`]. The session ends in `Done` with the
    /// report or in `Failed` with the reason. In any other state nothing is
    /// checked, and the session fails unless it had ended before.
    pub fn conclude(&mut self, output: &EngineOutput) -> (result: Result<Report, RejectReason>)
        ensures
            final(self).spec_expected() == old(self).spec_expected(),
            old(self).spec_state() == VerifierState::ChannelVerify ==> match verdict(
                old(self).spec_expected(),
                *output,
            ) {
                Some(reason) => result == Err::<Report, RejectReason>(reason) && final(self).spec_state() == VerifierState::Failed(reason),
                None => result is Ok && final(self).spec_state() == VerifierState::Done
                    && output.transcript is Some && result->Ok_0.sent@ == shown_report(
                    output.transcript->0.sent,
                ) && result->Ok_0.received@ == shown_report(output.transcript->0.received),
            },
            old(self).spec_state() != VerifierState::ChannelVerify ==> result == Err::<
                Report,
                RejectReason,
            >(RejectReason::UnexpectedEvent) && final(self).spec_state() == verifier_rejected(
                old(self).spec_state(),
            ),
    {
        match self.state {
            VerifierState::ChannelVerify => {
                let result = verifier_checks(&self.expected, output);
                match &result {
                    Ok(_) => {
                        self.state = VerifierState::Done;
                    },
                    Err(reason) => {
                        self.state = VerifierState::Failed(*reason);
                    },
                }
                result
            },
            VerifierState::Done => Err(RejectReason::UnexpectedEvent),
            VerifierState::Failed(_) => Err(RejectReason::UnexpectedEvent),
            _ => {
                self.state = VerifierState::Failed(RejectReason::UnexpectedEvent);
                Err(RejectReason::UnexpectedEvent)
            },
        }
    }
}

/// The byte that a stored proof shows in place of one that was not revealed.
pub const REDACTED_BYTE: u8 = 88;

/// What a stored proof shows once it has been verified: the server's name,
/// the time of the session in seconds since the epoch, and both directions as
/// text.
#[derive(Clone, Debug)]
pub struct VerifyResult {
    pub server_name: String,
    pub time: u64,
    pub sent: String,
    pub recv: String,
}

/// The last step in verifying a stored proof, once its signature and its
/// commitments have been checked: what the proof shows. In both directions
/// every byte that was not revealed is shown as `X`; what comes out of that
/// must be text.
pub fn verify(
    server_name: String,
    time: u64,
    sent: &[u8],
    sent_revealed: &ByteRangeSet,
    recv: &[u8],
    recv_revealed: &ByteRangeSet,
) -> (result: Result<VerifyResult, InvalidUtf8>)
    ensures
        result is Ok <==> valid_utf8(redacted(sent@, sent_revealed@, REDACTED_BYTE)) && valid_utf8(
            redacted(recv@, recv_revealed@, REDACTED_BYTE),
        ),
        result matches Ok(shown) ==> shown.server_name == server_name && shown.time == time
            && shown.sent@ == decode_utf8(redacted(sent@, sent_revealed@, REDACTED_BYTE))
            && shown.recv@ == decode_utf8(redacted(recv@, recv_revealed@, REDACTED_BYTE)),
{
    let sent_shown = redact(sent, sent_revealed, REDACTED_BYTE);
    let recv_shown = redact(recv, recv_revealed, REDACTED_BYTE);
    let sent_text = match utf8_text(sent_shown.as_slice()) {
        Some(text) => String::from_str(text),
        None => {
            return Err(InvalidUtf8);
        },
    };
    let recv_text = match utf8_text(recv_shown.as_slice()) {
        Some(text) => String::from_str(text),
        None => {
            return Err(InvalidUtf8);
        },
    };
    Ok(VerifyResult { server_name, time, sent: sent_text, recv: recv_text })
}

/// What is found in the shown bytes was revealed: a needle without the
/// sentinel that stands in the shown bytes stands in the buffer at the same
/// place, and every position of it there was revealed.
pub proof fn lemma_found_needle_was_revealed(
    buffer: Seq<u8>,
    revealed: Set<int>,
    sentinel: u8,
    needle: Seq<u8>,
    at: int,
)
    requires
        matches_at(redacted(buffer, revealed, sentinel), needle, at),
        forall|k: int| 0 <= k < needle.len() ==> needle[k] != sentinel,
    ensures
        matches_at(buffer, needle, at),
        forall|x: int| at <= x < at + needle.len() ==> revealed.contains(x),
{
    let shown = redacted(buffer, revealed, sentinel);
    let window = shown.subrange(at, at + needle.len());
    assert forall|x: int| at <= x < at + needle.len() implies revealed.contains(x) by {
        assert(window[x - at] == shown[x]);
        assert(needle[x - at] != sentinel);
    }
    assert(buffer.subrange(at, at + needle.len()) =~= window);
}

/// What a verifier finds, the report shows. Where the check of a direction
/// passes, every needle that a predicate asks to be there, if it is text,
/// not empty and without NUL, has its characters in the text of the report.
pub proof fn lemma_found_text_is_in_the_report(
    predicates: Seq<Predicate>,
    bytes: Seq<u8>,
    revealed: Set<int>,
    k: int,
    needle: Vec<u8>,
)
    requires
        ranges_cover(canonical_ranges(revealed), revealed),
        revealed.subset_of(span(0, bytes.len() as int)),
        direction_check(predicates, bytes, revealed) is None,
        0 <= k < predicates.len(),
        predicates[k] == (Predicate::Contains { needle }),
        valid_utf8(needle@),
        needle@.len() > 0,
        forall|j: int| 0 <= j < needle@.len() ==> needle@[j] != UNREVEALED,
    ensures
        text_holds(shown_text(bytes, revealed, REDACTION_MARKER@), decode_utf8(needle@)),
{
    let shown = redacted(bytes, revealed, UNREVEALED);
    assert(predicate_holds(predicates[k], shown));
    let at = choose|at: int| matches_at(shown, needle@, at);
    lemma_found_needle_was_revealed(bytes, revealed, UNREVEALED, needle@, at);
    lemma_revealed_text_is_shown(bytes, revealed, REDACTION_MARKER@, needle@, at);
}

/// What a verifier finds missing, the report does not show. Where the check
/// of a direction passes, no needle that a predicate asks to be absent, if it
/// is text, not empty and without a character of the marker, has its
/// characters in the text of the report.
pub proof fn lemma_absent_text_is_not_in_the_report(
    predicates: Seq<Predicate>,
    bytes: Seq<u8>,
    revealed: Set<int>,
    k: int,
    needle: Vec<u8>,
)
    requires
        ranges_cover(canonical_ranges(revealed), revealed),
        revealed.subset_of(span(0, bytes.len() as int)),
        direction_check(predicates, bytes, revealed) is None,
        0 <= k < predicates.len(),
        predicates[k] == (Predicate::Absent { needle }),
        valid_utf8(needle@),
        needle@.len() > 0,
        shares_no_char(decode_utf8(needle@), REDACTION_MARKER@),
    ensures
        !text_holds(shown_text(bytes, revealed, REDACTION_MARKER@), decode_utf8(needle@)),
{
    lemma_marker_len();
    assert(predicate_holds(predicates[k], redacted(bytes, revealed, UNREVEALED)));
    if text_holds(shown_text(bytes, revealed, REDACTION_MARKER@), decode_utf8(needle@)) {
        lemma_shown_text_was_revealed(bytes, revealed, REDACTION_MARKER@, needle@);
        let at = choose|at: int|
            matches_at(bytes, needle@, at) && forall|x: int|
                at <= x < at + needle@.len() ==> revealed.contains(x);
        lemma_revealed_needle_is_found(bytes, revealed, UNREVEALED, needle@, at);
    }
}

/// A session whose revealed identity is not the expected one is rejected for
/// that, even where every predicate holds of the revealed text.
pub proof fn lemma_identity_mismatch_rejects(expected: Expectations, output: EngineOutput)
    requires
        output.transcript is Some,
        output.server_identity is Some,
        output.server_identity->0@ != expected.server_identity@,
    ensures
        verdict(expected, output) is Some,
        shown_check(expected.sent@, output.transcript->0.sent) is None && shown_check(
            expected.received@,
            output.transcript->0.received,
        ) is None
            ==> verdict(expected, output) == Some(RejectReason::IdentityMismatch),
{
}

/// The state in which a verifier is after `events`, from `Idle` on.
pub open spec fn verifier_run(events: Seq<VerifierEvent>, require_identity: bool) -> VerifierState
    decreases events.len(),
{
    if events.len() == 0 {
        VerifierState::Idle
    } else {
        verifier_next(
            verifier_run(events.drop_last(), require_identity),
            events.last(),
            require_identity,
        )
    }
}

/// How many steps of the way from `Idle` to `Done` lie behind a state: 0 for
/// `Idle`, 6 for `Done`, and -1 for a session that has failed.
pub open spec fn verifier_rank(state: VerifierState) -> int {
    match state {
        VerifierState::Idle => 0,
        VerifierState::AcceptingTransport => 1,
        VerifierState::ChannelVerify => 2,
        VerifierState::CheckingSentPredicate => 3,
        VerifierState::CheckingReceivedPredicate => 4,
        VerifierState::CheckingIdentity => 5,
        VerifierState::Done => 6,
        VerifierState::Failed(_) => -1,
    }
}

/// Whether `event` is the one that takes a session its step number `step`
/// on the way from `Idle` to `Done`, steps counted from 0.
pub open spec fn verifier_awaits(step: int, event: VerifierEvent, require_identity: bool) -> bool {
    if step == 0 {
        event == VerifierEvent::Start
    } else if step == 1 {
        event == VerifierEvent::TransportAccepted
    } else if step == 2 {
        event matches VerifierEvent::EngineVerified { has_identity, has_transcript }
            && has_transcript && (require_identity ==> has_identity)
    } else {
        event == VerifierEvent::CheckPassed
    }
}

/// There is one way from `Idle` to `Done`. A session that has not failed has
/// seen, event for event, exactly the steps that lie behind its state: the
/// transport, the engine's verification with everything disclosed that is
/// required, and then one passed check after another, on what was sent, on
/// what was received and on the identity. Only a session that is done may
/// have seen more, and nothing of that has changed it.
pub proof fn lemma_verifier_order(events: Seq<VerifierEvent>, require_identity: bool)
    ensures
        verifier_rank(verifier_run(events, require_identity)) >= 0 ==> {
            &&& verifier_rank(verifier_run(events, require_identity)) <= events.len()
            &&& verifier_rank(verifier_run(events, require_identity)) < 6 ==> events.len()
                == verifier_rank(verifier_run(events, require_identity))
            &&& forall|i: int|
                0 <= i < verifier_rank(verifier_run(events, require_identity)) ==> verifier_awaits(
                    i,
                    #[trigger] events[i],
                    require_identity,
                )
        },
    decreases events.len(),
{
    if events.len() > 0 {
        let before = events.drop_last();
        lemma_verifier_order(before, require_identity);
        let rank = verifier_rank(verifier_run(events, require_identity));
        if rank >= 0 {
            assert forall|i: int| 0 <= i < rank implies verifier_awaits(
                i,
                #[trigger] events[i],
                require_identity,
            ) by {
                if i < before.len() {
                    assert(events[i] == before[i]);
                }
            }
        }
    }
}

/// A session that has ended stays as it is, whatever comes.
pub proof fn lemma_verifier_end_is_final(
    state: VerifierState,
    event: VerifierEvent,
    require_identity: bool,
)
    requires
        state.is_terminal(),
    ensures
        verifier_next(state, event, require_identity) == state,
{
}

/// `Done` is entered from the check of the identity when it has passed, and
/// in no other way.
pub proof fn lemma_done_only_after_identity_check(
    state: VerifierState,
    event: VerifierEvent,
    require_identity: bool,
)
    requires
        state != VerifierState::Done,
        verifier_next(state, event, require_identity) == VerifierState::Done,
    ensures
        state == VerifierState::CheckingIdentity,
        event == VerifierEvent::CheckPassed,
{
}

} // verus!
