use llmcord::generation::{InferenceError, Token};
use llmcord::output::{Action, Outputter};
use llmcord::prompt::Prompts;

fn shown(user: &str) -> Prompts {
    Prompts::new(user, false, true, "{{PROMPT}}")
}

fn count_add_cancel(actions: &[Action]) -> usize {
    actions.iter().filter(|a| matches!(a, Action::AddCancel { .. })).count()
}

#[test]
fn end_to_end_two_plus_two() {
    let prompts = shown("2+2=");
    assert_eq!(prompts.placeholder_message(), "~~2+2=~~");
    let mut out = Outputter::new(prompts, 250, 0);
    assert_eq!(out.contents().clone(), vec!["~~2+2=~~".to_string()]);

    // The runtime plays the prompt back through the callback, then the model's tokens.
    let mut all = Vec::new();
    let first = out.new_token("2+2=", 10);
    assert!(matches!(first[0], Action::AddCancel { index: 0 }));
    all.extend(first);
    let mut now = 10;
    for t in ["4", ".", " done"] {
        now += 1000;
        all.extend(out.new_token(t, now));
    }
    assert_eq!(count_add_cancel(&all), 1);
    let fin = out.finish();
    assert!(matches!(fin[0], Action::RemoveCancel { index: 0 }));
    assert_eq!(count_add_cancel(&fin), 0);
    match &fin[1] {
        Action::Edit { index, content } => {
            assert_eq!(*index, 0);
            assert_eq!(content, "**2+2=**4. done");
        }
        other => panic!("unexpected action {other:?}"),
    }
    assert_eq!(fin.len(), 2);
    assert_eq!(out.contents().clone(), vec!["**2+2=**4. done".to_string()]);
    assert!(out.is_terminal());
    assert_eq!(out.cancel_holder(), None);
}

#[test]
fn updates_wait_for_the_interval() {
    let mut out = Outputter::new(shown("hi"), 250, 1000);
    let a = out.new_token("hi", 1100);
    assert_eq!(a.len(), 1);
    assert_eq!(out.contents()[0], "~~hi~~");
    let b = out.new_token(" there", 1251);
    assert_eq!(b.len(), 1);
    match &b[0] {
        Action::Edit { index: 0, content } => assert_eq!(content, "**hi** there"),
        other => panic!("unexpected action {other:?}"),
    }
    assert_eq!(out.chunks().clone(), vec!["**hi** there".to_string()]);
    let c = out.new_token("!", 1300);
    assert!(c.is_empty());
    assert_eq!(out.contents()[0], "**hi** there");
    assert_eq!(out.chunks().clone(), vec!["**hi** there!".to_string()]);
}

#[test]
fn overflow_moves_cancel_button_to_new_reply() {
    let mut out = Outputter::new(shown("p"), 0, 0);
    out.new_token("p", 1);
    let long = format!(" {}", vec!["abcdefghi"; 200].join(" "));
    let actions = out.new_token(&long, 2);
    assert_eq!(actions.len(), 4);
    assert!(matches!(actions[0], Action::Edit { index: 0, .. }));
    assert!(matches!(actions[1], Action::RemoveCancel { index: 0 }));
    match &actions[2] {
        Action::Reply { content } => assert!(content.starts_with("abcdefghi")),
        other => panic!("unexpected action {other:?}"),
    }
    assert!(matches!(actions[3], Action::AddCancel { index: 1 }));
    assert_eq!(out.contents().len(), 2);
    assert_eq!(out.contents()[1], out.chunks()[1]);
}

#[test]
fn cancellation_is_final() {
    let mut out = Outputter::new(shown("q"), 0, 0);
    out.new_token("q", 5);
    out.new_token(" answer", 10);
    let actions = out.cancelled();
    assert_eq!(actions.len(), 2);
    match &actions[0] {
        Action::Strike { index: 0, content } => assert_eq!(content, "~~**q** answer~~"),
        other => panic!("unexpected action {other:?}"),
    }
    match &actions[1] {
        Action::Reply { content } => assert_eq!(content, "The generation was cancelled."),
        other => panic!("unexpected action {other:?}"),
    }
    assert!(out.is_terminal());
    assert!(out.new_token(" more", 100).is_empty());
    assert!(out.finish().is_empty());
    assert!(out.cancelled().is_empty());
    assert!(out.error("late").is_empty());
    assert_eq!(out.contents().clone(), vec!["~~**q** answer~~".to_string()]);
    assert_eq!(out.cancel_holder(), None);
}

#[test]
fn engine_error_is_reported() {
    let mut out = Outputter::new(shown("q"), 0, 0);
    let actions = out.on_event(&Token::Error(InferenceError::custom("model broke")), 5);
    assert_eq!(actions.len(), 2);
    match &actions[0] {
        Action::Strike { index: 0, content } => assert_eq!(content, "~~~~q~~~~"),
        other => panic!("unexpected action {other:?}"),
    }
    match &actions[1] {
        Action::Reply { content } => assert_eq!(content, "model broke"),
        other => panic!("unexpected action {other:?}"),
    }
}

#[test]
fn on_event_dispatches_tokens_and_cancellation() {
    let mut out = Outputter::new(shown("x"), 0, 0);
    let a = out.on_event(&Token::Token("x".to_string()), 1);
    assert!(matches!(a[0], Action::AddCancel { index: 0 }));
    let b = out.on_event(&Token::Error(InferenceError::Cancelled), 2);
    match b.last() {
        Some(Action::Reply { content }) => assert_eq!(content, "The generation was cancelled."),
        other => panic!("unexpected action {other:?}"),
    }
}

#[test]
fn finish_without_tokens_only_removes_button() {
    let mut out = Outputter::new(shown("x"), 0, 0);
    let a = out.finish();
    assert_eq!(a.len(), 1);
    assert!(matches!(a[0], Action::RemoveCancel { index: 0 }));
}

#[test]
fn finish_after_unsynced_overflow_adds_no_button() {
    let mut out = Outputter::new(shown("p"), 1000, 0);
    let first = out.new_token("p", 2000);
    assert_eq!(out.cancel_holder(), Some(0));
    assert!(matches!(first[0], Action::AddCancel { index: 0 }));
    let long = format!(" {}", vec!["abcdefghi"; 200].join(" "));
    assert!(out.new_token(&long, 2001).is_empty());
    assert_eq!(out.chunks().len(), 2);
    let fin = out.finish();
    assert_eq!(count_add_cancel(&fin), 0);
    assert!(matches!(fin[0], Action::RemoveCancel { index: 0 }));
    assert!(matches!(fin[1], Action::Edit { index: 0, .. }));
    assert!(matches!(fin[2], Action::Reply { .. }));
    assert_eq!(fin.len(), 3);
    assert_eq!(out.contents().len(), 2);
    assert_eq!(out.cancel_holder(), None);
}

#[test]
fn cancel_button_follows_newest_message() {
    let mut out = Outputter::new(shown("p"), 0, 0);
    out.new_token("p", 1);
    assert_eq!(out.cancel_holder(), Some(0));
    let long = format!(" {}", vec!["abcdefghi"; 200].join(" "));
    out.new_token(&long, 2);
    assert_eq!(out.cancel_holder(), Some(1));
}
