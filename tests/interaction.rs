use llmcord::interaction::{
    cancel_custom_id, cancel_request, commands_need_reset, create_parameters, get_value,
    integer_parameters, parse_cancel_id, parse_u64_chars, prompt_option, prompt_text, value_to_integer,
    value_to_string, CommandOption, OptionKind, OptionValue, ParameterError, PromptError,
};

fn names(v: &[&str]) -> Vec<String> {
    v.iter().map(|s| s.to_string()).collect()
}

#[test]
fn cancel_id_round_trip() {
    let id = cancel_custom_id(1234567890123, 42);
    assert_eq!(id, "cancel#1234567890123#42");
    assert_eq!(parse_cancel_id(&id), Some((1234567890123, 42)));
    assert_eq!(cancel_custom_id(0, u64::MAX), format!("cancel#0#{}", u64::MAX));
    assert_eq!(parse_cancel_id(&cancel_custom_id(0, u64::MAX)), Some((0, u64::MAX)));
}

#[test]
fn cancel_id_rejects_malformed() {
    assert_eq!(parse_cancel_id("cancel#1"), None);
    assert_eq!(parse_cancel_id("cancel#1#2#3"), None);
    assert_eq!(parse_cancel_id("cancal#1#2"), None);
    assert_eq!(parse_cancel_id("cancel#-1#2"), None);
    assert_eq!(parse_cancel_id("cancel##2"), None);
    assert_eq!(parse_cancel_id("cancel#18446744073709551616#2"), None);
    assert_eq!(parse_cancel_id("cancel#+5#2"), Some((5, 2)));
}

#[test]
fn parse_u64_matches_std() {
    for s in ["0", "+7", "007", "18446744073709551615", "18446744073709551616", "", "+", "1a", " 1", "-0"] {
        let chars: Vec<char> = s.chars().collect();
        assert_eq!(parse_u64_chars(&chars), s.parse::<u64>().ok(), "{s}");
    }
}

#[test]
fn cancel_only_by_requester() {
    assert_eq!(cancel_request("cancel#10#20", 20), Some(10));
    assert_eq!(cancel_request("cancel#10#20", 21), None);
    assert_eq!(cancel_request("other", 20), None);
}

#[test]
fn integer_parameters_defaults_and_ranges() {
    let p = integer_parameters(None, None, None).unwrap();
    assert_eq!(p.repeat_penalty_last_n_token_count, 64);
    assert_eq!(p.top_k, 40);
    assert_eq!(p.seed, None);
    let q = integer_parameters(Some(3), Some(0), Some(-1)).unwrap();
    assert_eq!(q.repeat_penalty_last_n_token_count, 3);
    assert_eq!(q.top_k, 0);
    assert_eq!(q.seed, Some(u64::MAX));
    let e = integer_parameters(Some(-1), None, None).unwrap_err();
    assert_eq!(e, ParameterError::OutOfRange);
    assert_eq!(e.message(), "out of range integral type conversion attempted");
    assert!(integer_parameters(None, Some(-5), Some(1)).is_err());
}

#[test]
fn option_lookup() {
    let options = vec![
        CommandOption { name: "prompt".to_string(), value: Some(OptionValue::String("hi".to_string())) },
        CommandOption { name: "top_k".to_string(), value: Some(OptionValue::Integer(12)) },
        CommandOption { name: "seed".to_string(), value: None },
        CommandOption { name: "top_k".to_string(), value: Some(OptionValue::Integer(99)) },
    ];
    assert_eq!(get_value(&options, "prompt").and_then(value_to_string), Some("hi".to_string()));
    assert_eq!(get_value(&options, "prompt").and_then(value_to_integer), None);
    assert_eq!(get_value(&options, "top_k").and_then(value_to_integer), Some(12));
    assert!(get_value(&options, "seed").is_none());
    assert!(get_value(&options, "temperature").is_none());
    assert_eq!(value_to_integer(&OptionValue::Other), None);
}

#[test]
fn command_reset_compares_sets() {
    assert!(!commands_need_reset(&names(&["a", "b"]), &names(&["b", "a"])));
    assert!(!commands_need_reset(&names(&["a", "a"]), &names(&["a"])));
    assert!(commands_need_reset(&names(&["a"]), &names(&["a", "b"])));
    assert!(commands_need_reset(&names(&["a", "c"]), &names(&["a"])));
    assert!(!commands_need_reset(&names(&[]), &names(&[])));
}

#[test]
fn registered_options() {
    let p = prompt_option();
    assert_eq!(p.name, "prompt");
    assert_eq!(p.kind, OptionKind::String);
    assert!(p.required);
    let params = create_parameters();
    let got: Vec<&str> = params.iter().map(|o| o.name.as_str()).collect();
    assert_eq!(
        got,
        vec!["repeat_penalty", "repeat_penalty_token_count", "temperature", "top_k", "top_p", "seed"]
    );
    assert_eq!(params[1].max, Some(64));
    assert_eq!(params[3].max, Some(128));
    assert_eq!(params[4].kind, OptionKind::Number);
    assert_eq!(params[4].max, Some(1));
    assert_eq!(params[5].description, "The seed to use for sampling.");
    assert!(params.iter().all(|o| !o.required && o.min == Some(0)));
}

#[test]
fn prompt_must_be_present_and_non_empty() {
    let with = |v: Option<OptionValue>| vec![CommandOption { name: "prompt".to_string(), value: v }];
    assert_eq!(prompt_text(&with(Some(OptionValue::String("hi".to_string())))), Ok("hi".to_string()));
    let empty = prompt_text(&with(Some(OptionValue::String(String::new()))));
    assert_eq!(empty, Err(PromptError::Empty));
    assert_eq!(empty.unwrap_err().message(), "the prompt is empty");
    assert_eq!(prompt_text(&with(Some(OptionValue::Integer(3)))), Err(PromptError::Missing));
    assert_eq!(prompt_text(&with(None)), Err(PromptError::Missing));
    assert_eq!(prompt_text(&[]), Err(PromptError::Missing));
    assert_eq!(PromptError::Missing.message(), "no prompt specified");
}
