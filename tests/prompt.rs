use llmcord::prompt::Prompts;

const TEMPLATE: &str = "### Instr:\n{{PROMPT}}\n### Resp:\n";

fn chars(s: &str) -> Vec<char> {
    s.chars().collect()
}

fn text(v: &[char]) -> String {
    v.iter().collect()
}

fn hidden(user: &str) -> Prompts {
    Prompts::new(user, false, false, TEMPLATE)
}

#[test]
fn decouple_full_output_gives_prompt_newline_response() {
    let p = hidden("Hello");
    let out = p.decouple_prompt_from_message(&chars("### Instr:\nHello\n### Resp:\nWorld"));
    assert_eq!(text(&out), "Hello\nWorld");
}

#[test]
fn decouple_prefix_mismatch_gives_empty() {
    let p = hidden("Hello");
    let out = p.decouple_prompt_from_message(&chars("### Inst"));
    assert_eq!(text(&out), "");
}

#[test]
fn decouple_prompt_mismatch_gives_rest_of_output() {
    let p = hidden("Hello");
    let out = p.decouple_prompt_from_message(&chars("### Instr:\nHel"));
    assert_eq!(text(&out), "Hel");
}

#[test]
fn decouple_suffix_mismatch_gives_prompt() {
    let p = hidden("Hello");
    let out = p.decouple_prompt_from_message(&chars("### Instr:\nHello\n### Re"));
    assert_eq!(text(&out), "Hello");
}

#[test]
fn decouple_without_placeholder_keeps_output() {
    let p = Prompts::new("Hi", false, false, "no marker here");
    let out = p.decouple_prompt_from_message(&chars("Hi there"));
    assert_eq!(text(&out), "Hi there");
}

#[test]
fn markdown_hidden_template_bolds_prompt() {
    let p = hidden("Hello");
    assert_eq!(
        p.make_markdown_message("### Instr:\nHello\n### Resp:\nWorld"),
        "**Hello**\nWorld"
    );
}

#[test]
fn markdown_shown_template_marks_progress() {
    let p = Prompts::new("2+2=", false, true, "{{PROMPT}}");
    assert_eq!(p.processed, "2+2=");
    assert_eq!(p.make_markdown_message(""), "~~2+2=~~");
    assert_eq!(p.make_markdown_message("2+"), "**2+**~~2=~~");
    assert_eq!(p.make_markdown_message("2+2=4"), "**2+2=**4");
    assert_eq!(p.make_markdown_message("xyz"), "xyz");
}

#[test]
fn new_replaces_escaped_newlines_and_placeholder() {
    let p = Prompts::new("a\\nb", true, true, "[{{PROMPT}}|{{PROMPT}}]");
    assert_eq!(p.user, "a\nb");
    assert_eq!(p.processed, "[a\nb|a\nb]");
    assert_eq!(p.template, "[{{PROMPT}}|{{PROMPT}}]");
    let q = Prompts::new("a\\nb", false, true, "{{PROMPT}}");
    assert_eq!(q.user, "a\\nb");
}

#[test]
fn placeholder_message_strikes_shown_prompt() {
    assert_eq!(hidden("Hello").placeholder_message(), "~~Hello~~");
    let shown = Prompts::new("Hello", false, true, TEMPLATE);
    assert_eq!(shown.placeholder_message(), "~~### Instr:\nHello\n### Resp:\n~~");
}
