use vstd::prelude::*;

verus! {

// Names of the values used in interactions.
pub const PROMPT: &'static str = "prompt";

pub const BATCH_SIZE: &'static str = "batch_size";

pub const REPEAT_PENALTY: &'static str = "repeat_penalty";

pub const REPEAT_PENALTY_TOKEN_COUNT: &'static str = "repeat_penalty_token_count";

pub const TEMPERATURE: &'static str = "temperature";

pub const TOP_K: &'static str = "top_k";

pub const TOP_P: &'static str = "top_p";

pub const SEED: &'static str = "seed";

} // verus!
