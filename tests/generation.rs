use llmcord::generation::{Decoder, InferenceError, Step, Token};

fn run(decoder: &mut Decoder, drains: &[Vec<u64>], tokens: &[&str]) -> Vec<String> {
    let mut sent = Vec::new();
    for (drained, t) in drains.iter().zip(tokens) {
        match decoder.on_token(drained, t) {
            Step::Forward(s) => sent.push(s),
            Step::Halt(_) => break,
        }
    }
    sent
}

#[test]
fn tokens_are_forwarded_in_order() {
    let mut d = Decoder::new(7);
    let sent = run(&mut d, &[vec![], vec![3], vec![]], &["a", "b", "c"]);
    assert_eq!(sent, vec!["a", "b", "c"]);
    assert!(d.halted().is_none());
    assert!(d.conclude(None).is_none());
}

#[test]
fn cancellation_stops_before_next_token() {
    let mut d = Decoder::new(7);
    let sent = run(&mut d, &[vec![], vec![1, 7], vec![]], &["a", "b", "c"]);
    assert_eq!(sent, vec!["a"]);
    assert!(matches!(d.halted(), Some(InferenceError::Cancelled)));
    assert!(matches!(d.on_token(&[], "d"), Step::Halt(InferenceError::Cancelled)));
    match d.conclude(Some("ignored".to_string())) {
        Some(Token::Error(InferenceError::Cancelled)) => {}
        other => panic!("unexpected terminal {other:?}"),
    }
}

#[test]
fn signal_for_other_session_is_ignored() {
    let mut d = Decoder::new(7);
    assert_eq!(d.session(), 7);
    match d.on_token(&[8, 9], "x") {
        Step::Forward(s) => assert_eq!(s, "x"),
        other => panic!("unexpected step {other:?}"),
    }
}

#[test]
fn closed_channel_fails_request() {
    let mut d = Decoder::new(1);
    let e = d.on_send_failed();
    assert_eq!(e.message(), "Failed to send token to channel.");
    match d.conclude(None) {
        Some(Token::Error(InferenceError::Custom(m))) => {
            assert_eq!(m, "Failed to send token to channel.")
        }
        other => panic!("unexpected terminal {other:?}"),
    }
}

#[test]
fn failing_request_does_not_block_the_next() {
    // The worker takes requests one after the other: an engine failure ends the
    // first with an error token, and the second still runs to its end.
    let mut outcomes = Vec::new();
    let mut first = Decoder::new(1);
    let _ = run(&mut first, &[vec![]], &["partial"]);
    outcomes.push(first.conclude(Some("engine failure".to_string())));
    let mut second = Decoder::new(2);
    let sent = run(&mut second, &[vec![], vec![]], &["ok", "!"]);
    assert_eq!(sent, vec!["ok", "!"]);
    outcomes.push(second.conclude(None));
    match &outcomes[0] {
        Some(Token::Error(InferenceError::Custom(m))) => assert_eq!(m, "engine failure"),
        other => panic!("unexpected terminal {other:?}"),
    }
    assert!(outcomes[1].is_none());
}

#[test]
fn error_messages() {
    assert_eq!(InferenceError::Cancelled.message(), "The generation was cancelled.");
    assert_eq!(InferenceError::custom("boom").message(), "boom");
    assert_eq!(InferenceError::custom("x").clone_error().message(), "x");
}
