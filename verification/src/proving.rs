//! The prover's side of a session: the order of its steps, and the step in
//! which the disclosure is built.

use crate::disclosure::{revelation, Disclosure};
use crate::endpoint::{resolve_target, target_of_text, ServerTarget, TargetError};
use crate::error::RedactionError;
use crate::policy::{DisclosurePolicy, StructuredBody};
use crate::transcript::Transcript;
use vstd::prelude::*;

verus! {

/// The status code of the one response that a session accepts.
pub const STATUS_OK: u16 = 200;

/// Why a prover's session failed.
#[derive(Clone, Copy, Debug, PartialEq, Eq, Structural)]
pub enum FailureReason {
    /// The transport to the verifier or to the server failed.
    TransportError,
    /// The secure channel engine reported a failure.
    EngineError,
    /// The request could not be sent, or the response was not the expected one.
    ExchangeFailed,
    /// The redaction policy could not be evaluated.
    Redaction(RedactionError),
    /// The session was dropped from outside.
    Cancelled,
    /// An event arrived in a state that does not await it.
    UnexpectedEvent,
}

/// The steps of a prover, in their order, and the two ways to end.
#[derive(Clone, Copy, Debug, PartialEq, Eq, Structural)]
pub enum ProverState {
    Idle,
    HandshakeWithVerifier,
    ChannelSetup,
    ConnectingToServer,
    Exchanging,
    AwaitingEngineResult,
    BuildingDisclosure,
    Proving,
    Closed,
    Failed(FailureReason),
}

/// What happened since the last step.
#[derive(Clone, Copy, Debug, PartialEq, Eq, Structural)]
pub enum ProverEvent {
    /// A session is asked for.
    Start,
    /// The transport to the verifier stands.
    TransportReady,
    /// The engine has finished its setup with the verifier.
    SetupComplete,
    /// The connection to the server stands and is in the engine's hands.
    ServerConnected,
    /// The response has been read to its end.
    ResponseReceived { status: u16 },
    /// The engine's background task has ended well and has been joined.
    EngineJoined,
    /// The disclosure has been built.
    DisclosureBuilt,
    /// The redaction policy has failed.
    RedactionFailed(RedactionError),
    /// The engine has made the proof.
    ProofAccepted,
    /// A transport has failed.
    TransportFailed,
    /// The engine has failed.
    EngineFailed,
    /// The session is dropped.
    Cancelled,
}

/// What is to be done after a step.
#[derive(Clone, Copy, Debug, PartialEq, Eq, Structural)]
pub enum ProverAction {
    /// Nothing: the session has ended before.
    Nothing,
    /// Accept or dial the transport to the verifier.
    OpenVerifierTransport,
    /// Run the engine's setup over that transport.
    SetupChannel,
    /// Connect to the server and hand the connection to the engine, whose
    /// background task runs from here on.
    ConnectToServer,
    /// Send the one request and read the response to its end.
    SendRequest,
    /// Wait for the engine's background task to end.
    JoinEngine,
    /// Evaluate the policy against the transcript, which is now final.
    BuildDisclosure,
    /// Hand the disclosure to the engine's proof.
    SubmitProof,
    /// Close the channel and release the session.
    CloseChannel,
    /// Close both transports, stop the engine's task, submit nothing.
    Abort,
}

impl ProverState {
    /// Whether the session has ended.
    pub open spec fn is_terminal(self) -> bool {
        self is Closed || self is Failed
    }

    /// Whether the transcript is final in this state: the engine's task has
    /// been joined.
    pub open spec fn transcript_is_final(self) -> bool {
        self is BuildingDisclosure || self is Proving || self is Closed
    }
}

/// The state that follows `state` on `event`.
pub open spec fn prover_next(state: ProverState, event: ProverEvent) -> ProverState {
    if state.is_terminal() {
        state
    } else {
        match (state, event) {
            (ProverState::Exchanging, ProverEvent::TransportFailed) => ProverState::Failed(
                FailureReason::ExchangeFailed,
            ),
            (_, ProverEvent::TransportFailed) => ProverState::Failed(FailureReason::TransportError),
            (_, ProverEvent::EngineFailed) => ProverState::Failed(FailureReason::EngineError),
            (_, ProverEvent::Cancelled) => ProverState::Failed(FailureReason::Cancelled),
            (ProverState::Idle, ProverEvent::Start) => ProverState::HandshakeWithVerifier,
            (
                ProverState::HandshakeWithVerifier,
                ProverEvent::TransportReady,
            ) => ProverState::ChannelSetup,
            (ProverState::ChannelSetup, ProverEvent::SetupComplete) => ProverState::ConnectingToServer,
            (ProverState::ConnectingToServer, ProverEvent::ServerConnected) => ProverState::Exchanging,
            (ProverState::Exchanging, ProverEvent::ResponseReceived { status }) => if status
                == STATUS_OK {
                ProverState::AwaitingEngineResult
            } else {
                ProverState::Failed(FailureReason::ExchangeFailed)
            },
            (
                ProverState::AwaitingEngineResult,
                ProverEvent::EngineJoined,
            ) => ProverState::BuildingDisclosure,
            (ProverState::BuildingDisclosure, ProverEvent::DisclosureBuilt) => ProverState::Proving,
            (ProverState::BuildingDisclosure, ProverEvent::RedactionFailed(e)) => ProverState::Failed(
                FailureReason::Redaction(e),
            ),
            (ProverState::Proving, ProverEvent::ProofAccepted) => ProverState::Closed,
            _ => ProverState::Failed(FailureReason::UnexpectedEvent),
        }
    }
}

/// What is to be done when `next` has been entered from a state that was not
/// an end.
pub open spec fn prover_duty(next: ProverState) -> ProverAction {
    match next {
        ProverState::Idle => ProverAction::Nothing,
        ProverState::HandshakeWithVerifier => ProverAction::OpenVerifierTransport,
        ProverState::ChannelSetup => ProverAction::SetupChannel,
        ProverState::ConnectingToServer => ProverAction::ConnectToServer,
        ProverState::Exchanging => ProverAction::SendRequest,
        ProverState::AwaitingEngineResult => ProverAction::JoinEngine,
        ProverState::BuildingDisclosure => ProverAction::BuildDisclosure,
        ProverState::Proving => ProverAction::SubmitProof,
        ProverState::Closed => ProverAction::CloseChannel,
        ProverState::Failed(_) => ProverAction::Abort,
    }
}

/// The state in which a prover is after `events`, from `Idle` on.
pub open spec fn prover_run(events: Seq<ProverEvent>) -> ProverState
    decreases events.len(),
{
    if events.len() == 0 {
        ProverState::Idle
    } else {
        prover_next(prover_run(events.drop_last()), events.last())
    }
}

/// One step of a prover: the state that follows `state` on `event`, and what
/// is to be done there. A session that has ended stays as it is and asks for
/// nothing more.
pub fn prover_step(state: ProverState, event: ProverEvent) -> (next: (ProverState, ProverAction))
    ensures
        next.0 == prover_next(state, event),
        next.1 == if state.is_terminal() {
            ProverAction::Nothing
        } else {
            prover_duty(next.0)
        },
{
    let ended = match state {
        ProverState::Closed => true,
        ProverState::Failed(_) => true,
        _ => false,
    };
    if ended {
        return (state, ProverAction::Nothing);
    }
    let unexpected = ProverState::Failed(FailureReason::UnexpectedEvent);
    let next = match event {
        ProverEvent::TransportFailed => match state {
            ProverState::Exchanging => ProverState::Failed(FailureReason::ExchangeFailed),
            _ => ProverState::Failed(FailureReason::TransportError),
        },
        ProverEvent::EngineFailed => ProverState::Failed(FailureReason::EngineError),
        ProverEvent::Cancelled => ProverState::Failed(FailureReason::Cancelled),
        ProverEvent::Start => match state {
            ProverState::Idle => ProverState::HandshakeWithVerifier,
            _ => unexpected,
        },
        ProverEvent::TransportReady => match state {
            ProverState::HandshakeWithVerifier => ProverState::ChannelSetup,
            _ => unexpected,
        },
        ProverEvent::SetupComplete => match state {
            ProverState::ChannelSetup => ProverState::ConnectingToServer,
            _ => unexpected,
        },
        ProverEvent::ServerConnected => match state {
            ProverState::ConnectingToServer => ProverState::Exchanging,
            _ => unexpected,
        },
        ProverEvent::ResponseReceived { status } => match state {
            ProverState::Exchanging => if status == STATUS_OK {
                ProverState::AwaitingEngineResult
            } else {
                ProverState::Failed(FailureReason::ExchangeFailed)
            },
            _ => unexpected,
        },
        ProverEvent::EngineJoined => match state {
            ProverState::AwaitingEngineResult => ProverState::BuildingDisclosure,
            _ => unexpected,
        },
        ProverEvent::DisclosureBuilt => match state {
            ProverState::BuildingDisclosure => ProverState::Proving,
            _ => unexpected,
        },
        ProverEvent::RedactionFailed(e) => match state {
            ProverState::BuildingDisclosure => ProverState::Failed(FailureReason::Redaction(e)),
            _ => unexpected,
        },
        ProverEvent::ProofAccepted => match state {
            ProverState::Proving => ProverState::Closed,
            _ => unexpected,
        },
    };
    let action = match next {
        ProverState::Idle => ProverAction::Nothing,
        ProverState::HandshakeWithVerifier => ProverAction::OpenVerifierTransport,
        ProverState::ChannelSetup => ProverAction::SetupChannel,
        ProverState::ConnectingToServer => ProverAction::ConnectToServer,
        ProverState::Exchanging => ProverAction::SendRequest,
        ProverState::AwaitingEngineResult => ProverAction::JoinEngine,
        ProverState::BuildingDisclosure => ProverAction::BuildDisclosure,
        ProverState::Proving => ProverAction::SubmitProof,
        ProverState::Closed => ProverAction::CloseChannel,
        ProverState::Failed(_) => ProverAction::Abort,
    };
    (next, action)
}

/// The step of `BuildingDisclosure`: evaluates the policy against the final
/// transcript and moves on.
///
/// Where every rule succeeds the session is in `Proving` with the disclosure
/// to submit. Where a rule fails it has failed with that rule's error, and
/// there is no disclosure: a failed redaction never reveals anything. In any
/// other state nothing is evaluated, and the session fails unless it had ended
/// before.
pub fn build_disclosure_step(
    state: ProverState,
    policy: &DisclosurePolicy,
    transcript: &Transcript,
    sent_body: &StructuredBody,
    received_body: &StructuredBody,
) -> (next: (ProverState, ProverAction, Option<Disclosure>))
    ensures
        state != ProverState::BuildingDisclosure ==> next.2 is None && next.0 == (
        if state.is_terminal() {
            state
        } else {
            ProverState::Failed(FailureReason::UnexpectedEvent)
        }) && next.1 == (if state.is_terminal() {
            ProverAction::Nothing
        } else {
            ProverAction::Abort
        }),
        state == ProverState::BuildingDisclosure ==> match revelation(
            *policy,
            transcript.sent_bytes(),
            transcript.received_bytes(),
            *sent_body,
            *received_body,
        ) {
            Ok(revealed) => next.0 == ProverState::Proving && next.1 == ProverAction::SubmitProof
                && next.2 is Some && next.2->0.sent_revealed() == revealed.0
                && next.2->0.received_revealed() == revealed.1 && next.2->0.sent_len()
                == transcript.sent_bytes().len() && next.2->0.received_len()
                == transcript.received_bytes().len() && next.2->0.identity_revealed()
                == policy.reveal_identity,
            Err(e) => next.0 == ProverState::Failed(FailureReason::Redaction(e)) && next.1
                == ProverAction::Abort && next.2 is None,
        },
{
    match state {
        ProverState::BuildingDisclosure => match Disclosure::build(
            policy,
            transcript,
            sent_body,
            received_body,
        ) {
            Ok(disclosure) => {
                let (next, action) = prover_step(state, ProverEvent::DisclosureBuilt);
                (next, action, Some(disclosure))
            },
            Err(e) => {
                let (next, action) = prover_step(state, ProverEvent::RedactionFailed(e));
                (next, action, None)
            },
        },
        ProverState::Closed => (state, ProverAction::Nothing, None),
        ProverState::Failed(_) => (state, ProverAction::Nothing, None),
        _ => (ProverState::Failed(FailureReason::UnexpectedEvent), ProverAction::Abort, None),
    }
}

impl ProverEvent {
    /// Whether the event is one that a session brings about itself, when it
    /// takes the transcript from the engine and when it builds the disclosure.
    /// Reported from outside, such an event is out of order.
    pub open spec fn is_internal(self) -> bool {
        self is EngineJoined || self is DisclosureBuilt || self is RedactionFailed
    }
}

/// The state of a session that was in `state` when something came out of
/// order.
pub open spec fn prover_rejected(state: ProverState) -> ProverState {
    if state.is_terminal() {
        state
    } else {
        ProverState::Failed(FailureReason::UnexpectedEvent)
    }
}

/// One prover's session: where it stands, the server it is about, the policy
/// it discloses by, and the transcript once the engine has handed it out.
/// Nothing of it is shared with another session.
pub struct ProverSession {
    progress: Progress,
    target: ServerTarget,
    policy: DisclosurePolicy,
}

/// Where a session stands, with the transcript once there is one. The two
/// change together when the engine's task is joined.
struct Progress {
    state: ProverState,
    transcript: Option<Transcript>,
}

impl ProverSession {
    /// Where the session stands.
    pub closed spec fn spec_state(&self) -> ProverState {
        self.progress.state
    }

    /// The server that the session is about.
    pub closed spec fn spec_target(&self) -> ServerTarget {
        self.target
    }

    /// The policy of the session.
    pub closed spec fn spec_policy(&self) -> DisclosurePolicy {
        self.policy
    }

    /// The transcript of the session, once the engine has handed it out.
    pub closed spec fn spec_transcript(&self) -> Option<Transcript> {
        self.progress.transcript
    }

    /// A session that builds its disclosure has a transcript to build it on,
    /// and a session has no transcript before the engine's task was joined.
    #[verifier::type_invariant]
    pub closed spec fn wf(&self) -> bool {
        &&& self.progress.state is BuildingDisclosure ==> self.progress.transcript is Some
        &&& self.progress.transcript is Some ==> self.progress.state.transcript_is_final()
            || self.progress.state is Failed
    }

    /// A session in `Idle` about the server that `server_uri` names, or why
    /// the URI names none.
    pub fn new(server_uri: &str, policy: DisclosurePolicy) -> (result: Result<
        ProverSession,
        TargetError,
    >)
        ensures
            match target_of_text(server_uri@) {
                Err(e) => result is Err && result->Err_0 == e,
                Ok(target) => result is Ok && result->Ok_0.spec_state() == ProverState::Idle
                    && result->Ok_0.spec_target().host@ == target.0
                    && result->Ok_0.spec_target().port == target.1 && result->Ok_0.spec_policy()
                    == policy && result->Ok_0.spec_transcript() is None,
            },
    {
        match resolve_target(server_uri) {
            Ok(target) => Ok(
                ProverSession {
                    progress: Progress { state: ProverState::Idle, transcript: None },
                    target,
                    policy,
                },
            ),
            Err(e) => Err(e),
        }
    }

    /// Where the session stands.
    #[verifier::when_used_as_spec(spec_state)]
    pub fn state(&self) -> (state: ProverState)
        ensures
            state == self.spec_state(),
    {
        self.progress.state
    }

    /// The server that the session is about.
    pub fn target(&self) -> (target: &ServerTarget)
        ensures
            *target == self.spec_target(),
    {
        &self.target
    }

    /// The policy of the session.
    pub fn policy(&self) -> (policy: &DisclosurePolicy)
        ensures
            *policy == self.spec_policy(),
    {
        &self.policy
    }

    /// The transcript, which can be read once the engine's task was joined
    /// and not before.
    pub fn transcript(&self) -> (transcript: Option<&Transcript>)
        ensures
            transcript is Some <==> self.spec_transcript() is Some,
            transcript matches Some(t) ==> *t == self.spec_transcript()->0,
            transcript is Some ==> self.spec_state().transcript_is_final()
                || self.spec_state() is Failed,
            self.spec_state() is BuildingDisclosure ==> transcript is Some,
    {
        proof {
            use_type_invariant(self);
        }
        self.progress.transcript.as_ref()
    }

    /// Takes an event that is reported from outside and says what is to be
    /// done next. An event that the session brings about itself is out of
    /// order here.
    pub fn handle(&mut self, event: ProverEvent) -> (action: ProverAction)
        ensures
            final(self).spec_state() == if event.is_internal() {
                prover_rejected(old(self).spec_state())
            } else {
                prover_next(old(self).spec_state(), event)
            },
            final(self).spec_target() == old(self).spec_target(),
            final(self).spec_policy() == old(self).spec_policy(),
            final(self).spec_transcript() == old(self).spec_transcript(),
            action == if old(self).spec_state().is_terminal() {
                ProverAction::Nothing
            } else {
                prover_duty(final(self).spec_state())
            },
    {
        proof {
            use_type_invariant(&*self);
        }
        let internal = match event {
            ProverEvent::EngineJoined => true,
            ProverEvent::DisclosureBuilt => true,
            ProverEvent::RedactionFailed(_) => true,
            _ => false,
        };
        if internal {
            return self.reject();
        }
        let (next, action) = prover_step(self.progress.state, event);
        self.progress.state = next;
        action
    }

    /// Fails the session for something out of order, unless it has ended.
    fn reject(&mut self) -> (action: ProverAction)
        ensures
            final(self).spec_state() == prover_rejected(old(self).spec_state()),
            final(self).spec_target() == old(self).spec_target(),
            final(self).spec_policy() == old(self).spec_policy(),
            final(self).spec_transcript() == old(self).spec_transcript(),
            action == if old(self).spec_state().is_terminal() {
                ProverAction::Nothing
            } else {
                ProverAction::Abort
            },
    {
        proof {
            use_type_invariant(&*self);
        }
        match self.progress.state {
            ProverState::Closed => ProverAction::Nothing,
            ProverState::Failed(_) => ProverAction::Nothing,
            _ => {
                self.progress.state = ProverState::Failed(FailureReason::UnexpectedEvent);
                ProverAction::Abort
            },
        }
    }

    /// Takes the transcript that the engine hands out when its task has ended
    /// well and has been joined. The session keeps it if it waited for it, in
    /// `AwaitingEngineResult`, and then goes on to build the disclosure; in
    /// any other state the join is out of order and the transcript is dropped.
    pub fn join_engine(&mut self, transcript: Transcript) -> (action: ProverAction)
        ensures
            final(self).spec_state() == prover_next(
                old(self).spec_state(),
                ProverEvent::EngineJoined,
            ),
            final(self).spec_target() == old(self).spec_target(),
            final(self).spec_policy() == old(self).spec_policy(),
            final(self).spec_transcript() == if old(self).spec_state()
                == ProverState::AwaitingEngineResult {
                Some(transcript)
            } else {
                old(self).spec_transcript()
            },
            action == if old(self).spec_state().is_terminal() {
                ProverAction::Nothing
            } else {
                prover_duty(final(self).spec_state())
            },
    {
        proof {
            use_type_invariant(&*self);
        }
        match self.progress.state {
            ProverState::AwaitingEngineResult => {
                self.progress = Progress {
                    state: ProverState::BuildingDisclosure,
                    transcript: Some(transcript),
                };
                ProverAction::BuildDisclosure
            },
            _ => self.reject(),
        }
    }

    /// The step of `BuildingDisclosure`, on the transcript that the session
    /// holds since the join: see [`build_disclosure_step`]. In any other
    /// state nothing is evaluated.
    pub fn build_disclosure(&mut self, sent_body: &StructuredBody, received_body: &StructuredBody) -> (built:
        (ProverAction, Option<Disclosure>))
        ensures
            final(self).spec_target() == old(self).spec_target(),
            final(self).spec_policy() == old(self).spec_policy(),
            final(self).spec_transcript() == old(self).spec_transcript(),
            old(self).spec_state() != ProverState::BuildingDisclosure ==> built.1 is None && final(self).spec_state() == prover_rejected(old(self).spec_state()) && built.0 == (if old(self).spec_state().is_terminal() {
                ProverAction::Nothing
            } else {
                ProverAction::Abort
            }),
            old(self).spec_state() == ProverState::BuildingDisclosure ==> old(self).spec_transcript() is Some && match revelation(
                old(self).spec_policy(),
                old(self).spec_transcript()->0.sent_bytes(),
                old(self).spec_transcript()->0.received_bytes(),
                *sent_body,
                *received_body,
            ) {
                Ok(revealed) => final(self).spec_state() == ProverState::Proving && built.0
                    == ProverAction::SubmitProof && built.1 is Some
                    && built.1->0.sent_revealed() == revealed.0
                    && built.1->0.received_revealed() == revealed.1 && built.1->0.sent_len()
                    == old(self).spec_transcript()->0.sent_bytes().len()
                    && built.1->0.received_len() == old(self).spec_transcript()->0.received_bytes().len()
                    && built.1->0.identity_revealed() == old(self).spec_policy().reveal_identity,
                Err(e) => final(self).spec_state() == ProverState::Failed(
                    FailureReason::Redaction(e),
                ) && built.0 == ProverAction::Abort && built.1 is None,
            },
    {
        proof {
            use_type_invariant(&*self);
        }
        match &self.progress.transcript {
            Some(transcript) => {
                let (next, action, disclosure) = build_disclosure_step(
                    self.progress.state,
                    &self.policy,
                    transcript,
                    sent_body,
                    received_body,
                );
                self.progress.state = next;
                (action, disclosure)
            },
            None => (self.reject(), None),
        }
    }
}

/// A session that has ended stays as it is, whatever comes.
pub proof fn lemma_prover_end_is_final(state: ProverState, event: ProverEvent)
    requires
        state.is_terminal(),
    ensures
        prover_next(state, event) == state,
{
}

/// The policy is evaluated only on a transcript that is final: the step that
/// asks for the evaluation is the one that joined the engine's task, out of
/// the state that waited for it.
pub proof fn lemma_evaluation_follows_join(state: ProverState, event: ProverEvent)
    requires
        !state.is_terminal(),
        prover_duty(prover_next(state, event)) == ProverAction::BuildDisclosure,
    ensures
        state == ProverState::AwaitingEngineResult,
        event == ProverEvent::EngineJoined,
{
}

/// A proof is submitted only for a disclosure that was built: the step that
/// asks for the submission is the one that reports the disclosure, out of the
/// state that builds it.
pub proof fn lemma_submission_follows_disclosure(state: ProverState, event: ProverEvent)
    requires
        !state.is_terminal(),
        prover_duty(prover_next(state, event)) == ProverAction::SubmitProof,
    ensures
        state == ProverState::BuildingDisclosure,
        event == ProverEvent::DisclosureBuilt,
{
}

/// How many steps of the way from `Idle` to `Closed` lie behind a state: 0
/// for `Idle`, 8 for `Closed`, and -1 for a session that has failed.
pub open spec fn prover_rank(state: ProverState) -> int {
    match state {
        ProverState::Idle => 0,
        ProverState::HandshakeWithVerifier => 1,
        ProverState::ChannelSetup => 2,
        ProverState::ConnectingToServer => 3,
        ProverState::Exchanging => 4,
        ProverState::AwaitingEngineResult => 5,
        ProverState::BuildingDisclosure => 6,
        ProverState::Proving => 7,
        ProverState::Closed => 8,
        ProverState::Failed(_) => -1,
    }
}

/// Whether `event` is the one that takes a session its step number `step`
/// on the way from `Idle` to `Closed`, steps counted from 0.
pub open spec fn prover_awaits(step: int, event: ProverEvent) -> bool {
    if step == 0 {
        event == ProverEvent::Start
    } else if step == 1 {
        event == ProverEvent::TransportReady
    } else if step == 2 {
        event == ProverEvent::SetupComplete
    } else if step == 3 {
        event == ProverEvent::ServerConnected
    } else if step == 4 {
        event == (ProverEvent::ResponseReceived { status: STATUS_OK })
    } else if step == 5 {
        event == ProverEvent::EngineJoined
    } else if step == 6 {
        event == ProverEvent::DisclosureBuilt
    } else {
        event == ProverEvent::ProofAccepted
    }
}

/// There is one way from `Idle` to `Closed`. A session that has not failed
/// has seen, event for event, exactly the steps that lie behind its state:
/// the transport, the setup, the connection to the server, the response with
/// the expected status, the join of the engine's task, the disclosure and the
/// proof, in this order and with nothing between them. Only a session that is
/// closed may have seen more, and nothing of that has changed it.
pub proof fn lemma_prover_order(events: Seq<ProverEvent>)
    ensures
        prover_rank(prover_run(events)) >= 0 ==> {
            &&& prover_rank(prover_run(events)) <= events.len()
            &&& prover_rank(prover_run(events)) < 8 ==> events.len() == prover_rank(
                prover_run(events),
            )
            &&& forall|i: int|
                0 <= i < prover_rank(prover_run(events)) ==> prover_awaits(i, #[trigger] events[i])
        },
    decreases events.len(),
{
    if events.len() > 0 {
        let before = events.drop_last();
        lemma_prover_order(before);
        let rank = prover_rank(prover_run(events));
        if rank >= 0 {
            assert forall|i: int| 0 <= i < rank implies prover_awaits(i, #[trigger] events[i]) by {
                if i < before.len() {
                    assert(events[i] == before[i]);
                }
            }
        }
    }
}

/// Whatever the events of a session, once it is in a state in which the
/// transcript is read or has been read, the engine's task was joined before:
/// some earlier event is the join, and it came in the state that waits for it.
pub proof fn lemma_transcript_read_after_join(events: Seq<ProverEvent>)
    requires
        prover_run(events).transcript_is_final(),
    ensures
        exists|i: int|
            0 <= i < events.len() && #[trigger] events[i] == ProverEvent::EngineJoined
                && prover_run(events.take(i)) == ProverState::AwaitingEngineResult,
    decreases events.len(),
{
    if events.len() == 0 {
    } else {
        let before = events.drop_last();
        let state = prover_run(before);
        if state.transcript_is_final() {
            lemma_transcript_read_after_join(before);
            let i = choose|i: int|
                0 <= i < before.len() && #[trigger] before[i] == ProverEvent::EngineJoined
                    && prover_run(before.take(i)) == ProverState::AwaitingEngineResult;
            assert(events[i] == before[i]);
            assert(events.take(i) =~= before.take(i));
        } else {
            let i = events.len() - 1;
            assert(state == ProverState::AwaitingEngineResult);
            assert(events[i] == ProverEvent::EngineJoined);
            assert(events.take(i) =~= before);
        }
    }
}

} // verus!
