use vstd::prelude::*;

use crate::chunk::string_views;

verus! {

/// Where the configuration is kept on disk.
pub const FILENAME: &'static str = "config.toml";

/// The bot's settings, read once at startup.
#[derive(Debug)]
pub struct Configuration {
    pub authentication: Authentication,
    pub model: Model,
    pub inference: Inference,
    /// The slash commands, by name; no name appears twice.
    pub commands: Vec<(String, Command)>,
}

#[derive(Debug)]
pub struct Authentication {
    pub discord_token: Option<String>,
}

#[derive(Debug)]
pub struct Model {
    pub path: String,
    pub context_token_length: usize,
}

#[derive(Debug)]
pub struct Inference {
    pub thread_count: usize,
    /// How many prompt tokens the model takes in at once.
    pub batch_size: usize,
    /// Low values will result in you getting throttled by Discord
    pub discord_message_update_interval_ms: u64,
    /// Whether or not to replace '\n' with newlines
    pub replace_newlines: bool,
    /// Whether or not to show the entire prompt template, or just
    /// what the user specified
    pub show_prompt_template: bool,
}

#[derive(Debug)]
pub struct Command {
    pub enabled: bool,
    pub description: String,
    pub prompt: String,
}

/// Why the configuration could not be put in place.
#[derive(Debug, PartialEq, Eq, Structural)]
pub enum ConfigError {
    /// The slot already holds a configuration.
    AlreadySet,
}

impl ConfigError {
    pub fn message(&self) -> (r: String)
        ensures
            r@ == "config already set"@,
    {
        String::from_str("config already set")
    }
}

/// The names of the enabled commands, in order.
pub open spec fn enabled_names(commands: Seq<(String, Command)>) -> Seq<Seq<char>>
    decreases commands.len(),
{
    if commands.len() == 0 {
        Seq::<Seq<char>>::empty()
    } else {
        let rest = enabled_names(commands.drop_last());
        if commands.last().1.enabled {
            rest.push(commands.last().0@)
        } else {
            rest
        }
    }
}

pub open spec fn alpaca_template() -> Seq<char> {
    "Below is an instruction that describes a task. Write a response that appropriately completes the request.\n\n### Instruction:\n\n{{PROMPT}}\n\n### Response:\n\n"@
}

impl Configuration {
    /// The settings that `default` gives.
    pub open spec fn is_default(&self) -> bool {
        &&& self.authentication.discord_token is None
        &&& self.model.path@ == "models/7B/ggml-alpaca-q4_0.bin"@
        &&& self.model.context_token_length == 2048
        &&& self.inference.thread_count == 8
        &&& self.inference.batch_size == 8
        &&& self.inference.discord_message_update_interval_ms == 250
        &&& self.inference.replace_newlines
        &&& self.inference.show_prompt_template
        &&& self.commands@.len() == 2
        &&& self.commands@[0].0@ == "hallucinate"@
        &&& !self.commands@[0].1.enabled
        &&& self.commands@[0].1.description@ == "Hallucinates some text."@
        &&& self.commands@[0].1.prompt@ == "{PROMPT}"@
        &&& self.commands@[1].0@ == "alpaca"@
        &&& !self.commands@[1].1.enabled
        &&& self.commands@[1].1.description@ == "Responds to the provided instruction."@
        &&& self.commands@[1].1.prompt@ == alpaca_template()
    }

    /// No command name appears twice.
    pub open spec fn wf(&self) -> bool {
        forall|i: int, j: int|
            0 <= i < j < self.commands@.len() ==> #[trigger] self.commands@[i].0@
                != #[trigger] self.commands@[j].0@
    }

    /// The settings written out when no configuration file exists.
    pub fn default() -> (r: Self)
        ensures
            r.wf(),
            r.is_default(),
    {
        let mut commands: Vec<(String, Command)> = Vec::new();
        commands.push(
            (
                String::from_str("hallucinate"),
                Command {
                    enabled: false,
                    description: String::from_str("Hallucinates some text."),
                    prompt: String::from_str("{PROMPT}"),
                },
            ),
        );
        commands.push(
            (
                String::from_str("alpaca"),
                Command {
                    enabled: false,
                    description: String::from_str("Responds to the provided instruction."),
                    prompt: String::from_str(
                        "Below is an instruction that describes a task. Write a response that appropriately completes the request.\n\n### Instruction:\n\n{{PROMPT}}\n\n### Response:\n\n",
                    ),
                },
            ),
        );
        proof {
            reveal_strlit("hallucinate");
            reveal_strlit("alpaca");
            assert(commands@[0].0@ != commands@[1].0@) by {
                assert(commands@[0].0@[0] != commands@[1].0@[0]);
            }
        }
        Configuration {
            authentication: Authentication { discord_token: None },
            model: Model {
                path: String::from_str("models/7B/ggml-alpaca-q4_0.bin"),
                context_token_length: 2048,
            },
            inference: Inference {
                thread_count: 8,
                batch_size: 8,
                discord_message_update_interval_ms: 250,
                replace_newlines: true,
                show_prompt_template: true,
            },
            commands,
        }
    }

    /// The configuration to run with: the stored one where there is one, else
    /// the default, which then has to be stored (`true`).
    pub fn load(stored: Option<Configuration>) -> (r: (Configuration, bool))
        ensures
            match stored {
                Some(c) => r == (c, false),
                None => r.1 && r.0.wf() && r.0.is_default(),
            },
    {
        match stored {
            Some(c) => (c, false),
            None => (Self::default(), true),
        }
    }

    /// Puts `config` into the empty `slot`; a slot that holds a configuration
    /// keeps it.
    pub fn init(slot: &mut Option<Configuration>, config: Configuration) -> (r: Result<(), ConfigError>)
        ensures
            match *old(slot) {
                None => r is Ok && *final(slot) == Some(config),
                Some(_) => r == Err::<(), ConfigError>(ConfigError::AlreadySet) && *final(slot)
                    == *old(slot),
            },
    {
        if slot.is_some() {
            return Err(ConfigError::AlreadySet);
        }
        *slot = Some(config);
        Ok(())
    }

    /// The configuration in `slot`.
    pub fn get(slot: &Option<Configuration>) -> (r: &Configuration)
        requires
            slot is Some,
        ensures
            *slot == Some(*r),
    {
        slot.as_ref().unwrap()
    }

    /// The command named `name`, if there is one.
    pub fn command(&self, name: &str) -> (r: Option<&Command>)
        ensures
            match r {
                Some(c) => exists|i: int|
                    0 <= i < self.commands@.len() && #[trigger] self.commands@[i].0@ == name@
                        && self.commands@[i].1 == *c,
                None => forall|i: int|
                    0 <= i < self.commands@.len() ==> #[trigger] self.commands@[i].0@ != name@,
            },
    {
        let key = String::from_str(name);
        let mut i: usize = 0;
        while i < self.commands.len()
            invariant
                i <= self.commands@.len(),
                key@ == name@,
                forall|k: int| 0 <= k < i ==> #[trigger] self.commands@[k].0@ != name@,
            decreases self.commands@.len() - i,
        {
            if self.commands[i].0 == key {
                assert(self.commands@[i as int].0@ == name@);
                return Some(&self.commands[i].1);
            }
            i = i + 1;
        }
        None
    }

    /// The names of the enabled commands, in order.
    pub fn enabled_commands(&self) -> (r: Vec<String>)
        ensures
            string_views(r@) == enabled_names(self.commands@),
    {
        let mut names: Vec<String> = Vec::new();
        let mut i: usize = 0;
        while i < self.commands.len()
            invariant
                i <= self.commands@.len(),
                string_views(names@) == enabled_names(self.commands@.subrange(0, i as int)),
            decreases self.commands@.len() - i,
        {
            let ghost before = names@;
            assert(self.commands@.subrange(0, i + 1).drop_last() =~= self.commands@.subrange(
                0,
                i as int,
            ));
            if self.commands[i].1.enabled {
                names.push(self.commands[i].0.clone());
                assert(string_views(names@) =~= string_views(before).push(self.commands@[i as int].0@));
            }
            i = i + 1;
        }
        assert(self.commands@.subrange(0, i as int) =~= self.commands@);
        names
    }
}

} // verus!
