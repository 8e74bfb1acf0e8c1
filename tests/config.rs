use llmcord::config::{Command, ConfigError, Configuration};

#[test]
fn default_configuration_values() {
    let c = Configuration::default();
    assert!(c.authentication.discord_token.is_none());
    assert_eq!(c.model.path, "models/7B/ggml-alpaca-q4_0.bin");
    assert_eq!(c.model.context_token_length, 2048);
    assert_eq!(c.inference.thread_count, 8);
    assert_eq!(c.inference.batch_size, 8);
    assert_eq!(c.inference.discord_message_update_interval_ms, 250);
    assert!(c.inference.replace_newlines);
    assert!(c.inference.show_prompt_template);
    assert_eq!(c.commands.len(), 2);
    assert_eq!(c.commands[0].0, "hallucinate");
    assert_eq!(c.commands[0].1.prompt, "{PROMPT}");
    assert_eq!(c.commands[1].0, "alpaca");
    assert_eq!(
        c.commands[1].1.prompt,
        "Below is an instruction that describes a task. Write a response that appropriately completes the request.\n\n### Instruction:\n\n{{PROMPT}}\n\n### Response:\n\n"
    );
}

#[test]
fn load_prefers_stored_configuration() {
    let mut stored = Configuration::default();
    stored.inference.thread_count = 3;
    let (c, save) = Configuration::load(Some(stored));
    assert_eq!(c.inference.thread_count, 3);
    assert!(!save);
    let (d, save) = Configuration::load(None);
    assert_eq!(d.inference.thread_count, 8);
    assert!(save);
}

#[test]
fn init_sets_once_and_get_reads() {
    let mut slot = None;
    assert_eq!(Configuration::init(&mut slot, Configuration::default()), Ok(()));
    assert_eq!(Configuration::get(&slot).model.context_token_length, 2048);
    let mut other = Configuration::default();
    other.model.context_token_length = 1;
    let e = Configuration::init(&mut slot, other);
    assert_eq!(e, Err(ConfigError::AlreadySet));
    assert_eq!(e.unwrap_err().message(), "config already set");
    assert_eq!(Configuration::get(&slot).model.context_token_length, 2048);
}

#[test]
fn command_lookup_and_enabled_names() {
    let mut c = Configuration::default();
    c.commands[1].1.enabled = true;
    c.commands.push((
        "story".to_string(),
        Command { enabled: true, description: "Tells a story.".to_string(), prompt: "{{PROMPT}}".to_string() },
    ));
    assert_eq!(c.command("alpaca").map(|k| k.description.clone()), Some("Responds to the provided instruction.".to_string()));
    assert!(c.command("missing").is_none());
    assert_eq!(c.enabled_commands(), vec!["alpaca".to_string(), "story".to_string()]);
}
