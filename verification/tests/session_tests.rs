//! Orchestrator state machine: bounded rounds, critique handling, retries.

use agd_ui::model::{Command, RenderEnvelope, WindowSpec};
use agd_ui::session::{
    next_retry, update_last_seq, AttemptOutcome, RefinementSession, RetryDecision, SessionState,
};

fn env(seq: u64) -> RenderEnvelope {
    RenderEnvelope {
        version: String::from("AGD/0.2"),
        render_type: String::from("render"),
        seq,
        window: WindowSpec { width: 10, height: 10, title: String::from("t") },
        commands: vec![Command::Clear { color: String::from("#ffffff") }],
    }
}

#[test]
fn third_accept_finalizes_after_three_rounds() {
    // Critique responses: rejected, rejected, accepted.
    let mut s = RefinementSession::start(env(1));
    let mut rounds = 0;

    assert!(s.step_render().is_ok());
    rounds += 1;
    s.step_critique(false, env(2));
    assert_eq!(s.state, SessionState::Rendering);

    assert!(s.step_render().is_ok());
    rounds += 1;
    s.step_critique(false, env(3));
    assert_eq!(s.state, SessionState::Rendering);

    assert!(s.step_render().is_ok());
    rounds += 1;
    s.step_critique(true, env(4));

    assert_eq!(rounds, 3);
    assert_eq!(s.state, SessionState::Finalized);
    // The accepted critique's render is the session's result.
    assert_eq!(s.result.as_ref().unwrap().seq, 4);
}

#[test]
fn four_rejections_exhaust_with_last_candidate() {
    let mut s = RefinementSession::start(env(1));
    let mut rounds = 0;
    for i in 0..4u64 {
        assert!(s.step_render().is_ok());
        rounds += 1;
        s.step_critique(false, env(10 + i));
        if i < 3 {
            assert_eq!(s.state, SessionState::Rendering);
        }
    }
    assert_eq!(rounds, 4);
    assert_eq!(s.state, SessionState::Exhausted);
    // The last rejected response's render is still the result.
    assert_eq!(s.result.as_ref().unwrap().seq, 13);
}

#[test]
fn invalid_candidate_aborts_the_round() {
    let mut bad = env(1);
    bad.commands.clear();
    let mut s = RefinementSession::start(bad);
    let e = s.step_render().unwrap_err();
    assert_eq!(s.state, SessionState::Failed);
    assert_eq!(e.message(), "commands must not be empty");
}

#[test]
fn retry_policy_is_bounded() {
    assert_eq!(next_retry(0, &AttemptOutcome::Success), RetryDecision::Done);
    assert_eq!(next_retry(0, &AttemptOutcome::ServerError), RetryDecision::RetryAfterDelay);
    assert_eq!(next_retry(2, &AttemptOutcome::TransportError), RetryDecision::RetryAfterDelay);
    assert_eq!(next_retry(3, &AttemptOutcome::ServerError), RetryDecision::Abort);
    assert_eq!(next_retry(3, &AttemptOutcome::Success), RetryDecision::Done);
}

#[test]
fn last_seq_only_advances() {
    let mut last = 5u64;
    update_last_seq(&mut last, 7);
    assert_eq!(last, 7);
    update_last_seq(&mut last, 3);
    assert_eq!(last, 7);
    update_last_seq(&mut last, 7);
    assert_eq!(last, 7);
}
