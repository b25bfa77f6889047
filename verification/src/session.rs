//! The refinement orchestrator: a bounded state machine per generation
//! round, and the retry policy for calls to the model service.
//!
//! One session walks Rendering -> (AwaitingCritique -> Rendering)* and ends
//! Finalized, Exhausted or Failed.  Accepting critiques always returns the
//! critique response's render; a fixed round cap guarantees termination, and
//! on reaching it the last candidate handed back is used rather than
//! blocking.  The surrounding application performs the outside work — model
//! calls, rasterization, encoding — and feeds the outcomes back in.

use vstd::prelude::*;

use crate::model::RenderEnvelope;
use crate::validator::{
    spec_valid_envelope, spec_violation, validate_render, ValidationError,
};

verus! {

/// The largest number of generate/render/critique rounds one session runs.
pub const MAX_ROUNDS: u32 = 4;

/// How often a failed model request is retried before giving up.
pub const MAX_RETRIES: u32 = 3;

/// Delay between retries of a failed model request, in milliseconds.
pub const RETRY_DELAY_MS: u64 = 2000;

/// What kind of answer the model service is asked for.
#[derive(Debug, Clone)]
pub enum LLMMode {
    Generate,
    Evaluate { image_base64: String, dsl_code: String },
}

/// How one attempt of a model request ended.
#[derive(Debug, Clone, Copy, PartialEq, Eq, Structural)]
pub enum AttemptOutcome {
    Success,
    ServerError,
    TransportError,
}

/// What to do after an attempt: proceed, retry after the fixed delay, or
/// abort the round.
#[derive(Debug, Clone, Copy, PartialEq, Eq, Structural)]
pub enum RetryDecision {
    Done,
    RetryAfterDelay,
    Abort,
}

/// The bounded retry policy: a server-side or transport failure is retried
/// up to the fixed attempt count, then the error escalates.
pub fn next_retry(attempts_so_far: u32, outcome: &AttemptOutcome) -> (r: RetryDecision)
    ensures
        r == (match *outcome {
            AttemptOutcome::Success => RetryDecision::Done,
            _ => if attempts_so_far < MAX_RETRIES {
                RetryDecision::RetryAfterDelay
            } else {
                RetryDecision::Abort
            },
        }),
{
    match outcome {
        AttemptOutcome::Success => RetryDecision::Done,
        _ => {
            if attempts_so_far < MAX_RETRIES {
                RetryDecision::RetryAfterDelay
            } else {
                RetryDecision::Abort
            }
        },
    }
}

/// Where a refinement session stands.
#[derive(Debug, Clone, Copy, PartialEq, Eq, Structural)]
pub enum SessionState {
    /// A candidate is waiting to be validated and rasterized.
    Rendering,
    /// The draft was sent for critique; the model's judgment is pending.
    AwaitingCritique,
    /// The model accepted; the result is the accepted render.
    Finalized,
    /// The round cap was reached; the result is the last candidate.
    Exhausted,
    /// The candidate failed validation; the round was aborted.
    Failed,
}

/// One generate/render/critique session.
#[derive(Debug, Clone)]
pub struct RefinementSession {
    pub state: SessionState,
    pub round: u32,
    pub candidate: Option<RenderEnvelope>,
    pub result: Option<RenderEnvelope>,
    pub failure: Option<ValidationError>,
}

/// The session invariant: the round counter never passes the cap, an active
/// session holds a candidate, and a finished one holds its outcome.
pub open spec fn spec_session_ok(s: RefinementSession) -> bool {
    &&& s.round <= MAX_ROUNDS
    &&& (s.state == SessionState::Rendering ==> s.candidate is Some && s.round < MAX_ROUNDS)
    &&& (s.state == SessionState::AwaitingCritique ==> s.candidate is Some && s.round < MAX_ROUNDS)
    &&& (s.state == SessionState::Finalized ==> s.result is Some)
    &&& (s.state == SessionState::Exhausted ==> s.result is Some)
    &&& (s.state == SessionState::Failed ==> s.failure is Some)
}

impl RefinementSession {
    /// Starts a session on the first candidate the model produced.
    pub fn start(candidate: RenderEnvelope) -> (s: Self)
        ensures
            spec_session_ok(s),
            s.state == SessionState::Rendering,
            s.round == 0,
            s.candidate == Some(candidate),
    {
        RefinementSession {
            state: SessionState::Rendering,
            round: 0,
            candidate: Some(candidate),
            result: None,
            failure: None,
        }
    }

    /// Validates the working candidate.  A valid candidate moves the session
    /// to awaiting critique; an invalid one aborts the whole interaction,
    /// surfacing the specific rule broken.
    pub fn step_render(&mut self) -> (r: Result<(), ValidationError>)
        requires
            spec_session_ok(*old(self)),
            old(self).state == SessionState::Rendering,
        ensures
            spec_session_ok(*final(self)),
            final(self).round == old(self).round,
            final(self).candidate == old(self).candidate,
            r is Ok <==> spec_valid_envelope(old(self).candidate->0),
            r is Ok ==> final(self).state == SessionState::AwaitingCritique,
            r matches Err(e) ==> final(self).state == SessionState::Failed && final(self).failure
                == Some(e) && spec_violation(old(self).candidate->0, e),
    {
        let v = match &self.candidate {
            Some(c) => validate_render(c),
            None => Ok(()),
        };
        match v {
            Ok(_) => {
                self.state = SessionState::AwaitingCritique;
                Ok(())
            },
            Err(e) => {
                self.state = SessionState::Failed;
                self.failure = Some(e);
                Err(e)
            },
        }
    }

    /// Feeds the model's critique back in.  Acceptance finalizes the session
    /// with the critique response's render — even a rejected draft's render
    /// replaces the working candidate.  A rejection starts the next round,
    /// or ends the session exhausted with that last render once the round
    /// cap is reached.
    pub fn step_critique(&mut self, is_final: bool, render: RenderEnvelope)
        requires
            spec_session_ok(*old(self)),
            old(self).state == SessionState::AwaitingCritique,
        ensures
            spec_session_ok(*final(self)),
            is_final ==> final(self).state == SessionState::Finalized && final(self).result == Some(
                render,
            ) && final(self).round == old(self).round,
            !is_final ==> final(self).round == old(self).round + 1,
            !is_final && old(self).round + 1 < MAX_ROUNDS ==> final(self).state
                == SessionState::Rendering && final(self).candidate == Some(render),
            !is_final && old(self).round + 1 == MAX_ROUNDS ==> final(self).state
                == SessionState::Exhausted && final(self).result == Some(render),
    {
        if is_final {
            self.state = SessionState::Finalized;
            self.result = Some(render);
        } else {
            self.round = self.round + 1;
            if self.round < MAX_ROUNDS {
                self.state = SessionState::Rendering;
                self.candidate = Some(render);
            } else {
                self.state = SessionState::Exhausted;
                self.result = Some(render);
            }
        }
    }
}

/// Advances the last-seen frame counter: a lower incoming sequence number is
/// tolerated (the frame is still shown), never stored.
pub fn update_last_seq(last_seq: &mut u64, seq: u64)
    ensures
        *final(last_seq) == if seq > *old(last_seq) {
            seq
        } else {
            *old(last_seq)
        },
{
    if seq > *last_seq {
        *last_seq = seq;
    }
}

} // verus!
