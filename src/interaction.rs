use vstd::prelude::*;

use crate::chunk::{pieces, split_on, string_views, views};
use crate::constant::{PROMPT, REPEAT_PENALTY, REPEAT_PENALTY_TOKEN_COUNT, SEED, TEMPERATURE, TOP_K, TOP_P};
use crate::text::{chars_of, string_of};

verus! {

/// Repeat-penalty window, in tokens, where the user gives none.
pub const DEFAULT_REPEAT_PENALTY_TOKEN_COUNT: i64 = 64;

/// Top-k where the user gives none.
pub const DEFAULT_TOP_K: i64 = 40;

/// A value given to a slash-command option, as far as the bot reads it.
#[derive(Debug)]
pub enum OptionValue {
    String(String),
    Integer(i64),
    /// A number, or a kind of value that the bot does not read here.
    Other,
}

/// One option of a slash-command invocation.
#[derive(Debug)]
pub struct CommandOption {
    pub name: String,
    /// The resolved value, where there is one.
    pub value: Option<OptionValue>,
}

/// The value of the first option named `name`.
pub open spec fn first_value(options: Seq<CommandOption>, name: Seq<char>) -> Option<OptionValue>
    decreases options.len(),
{
    if options.len() == 0 {
        None
    } else if options[0].name@ == name {
        options[0].value
    } else {
        first_value(options.skip(1), name)
    }
}

/// The value of the first option named `name`, if it has one.
pub fn get_value<'a>(options: &'a [CommandOption], name: &str) -> (r: Option<&'a OptionValue>)
    ensures
        match r {
            Some(v) => first_value(options@, name@) == Some(*v),
            None => first_value(options@, name@) is None,
        },
{
    let key = String::from_str(name);
    let mut i: usize = 0;
    assert(options@.skip(0) =~= options@);
    while i < options.len()
        invariant
            i <= options@.len(),
            key@ == name@,
            first_value(options@, name@) == first_value(options@.skip(i as int), name@),
        decreases options@.len() - i,
    {
        assert(options@.skip(i as int).skip(1) =~= options@.skip(i + 1));
        if options[i].name == key {
            return match &options[i].value {
                Some(v) => Some(v),
                None => None,
            };
        }
        i = i + 1;
    }
    None
}

/// The text of a string value.
pub fn value_to_string(v: &OptionValue) -> (r: Option<String>)
    ensures
        r == match v {
            OptionValue::String(s) => Some(*s),
            _ => None,
        },
{
    match v {
        OptionValue::String(s) => Some(s.clone()),
        _ => None,
    }
}

/// The integer of an integer value.
pub fn value_to_integer(v: &OptionValue) -> (r: Option<i64>)
    ensures
        r == match v {
            OptionValue::Integer(i) => Some(*i),
            _ => None,
        },
{
    match v {
        OptionValue::Integer(i) => Some(*i),
        _ => None,
    }
}

/// Why a command invocation carries no usable prompt.
#[derive(Debug, PartialEq, Eq, Structural)]
pub enum PromptError {
    /// No prompt option, or one whose value is not text.
    Missing,
    /// The prompt is the empty string.
    Empty,
}

impl PromptError {
    pub fn message(&self) -> (r: String)
        ensures
            r@ == match self {
                PromptError::Missing => "no prompt specified"@,
                PromptError::Empty => "the prompt is empty"@,
            },
    {
        match self {
            PromptError::Missing => String::from_str("no prompt specified"),
            PromptError::Empty => String::from_str("the prompt is empty"),
        }
    }
}

/// The user's prompt: the text of the first option named `prompt`, which
/// must not be empty.
pub fn prompt_text(options: &[CommandOption]) -> (r: Result<String, PromptError>)
    ensures
        match first_value(options@, PROMPT@) {
            Some(OptionValue::String(s)) => if s@.len() > 0 {
                r == Ok::<String, PromptError>(s)
            } else {
                r == Err::<String, PromptError>(PromptError::Empty)
            },
            _ => r == Err::<String, PromptError>(PromptError::Missing),
        },
{
    match get_value(options, PROMPT) {
        Some(v) => match value_to_string(v) {
            Some(s) => {
                if s.as_str().unicode_len() == 0 {
                    Err(PromptError::Empty)
                } else {
                    Ok(s)
                }
            },
            None => Err(PromptError::Missing),
        },
        None => Err(PromptError::Missing),
    }
}

/// The integer sampling parameters of a request.
#[derive(Debug)]
pub struct IntegerParameters {
    pub repeat_penalty_last_n_token_count: usize,
    pub top_k: usize,
    pub seed: Option<u64>,
}

/// A parameter given as a negative integer, where a count is needed.
#[derive(Debug, PartialEq, Eq, Structural)]
pub enum ParameterError {
    OutOfRange,
}

impl ParameterError {
    pub fn message(&self) -> (r: String)
        ensures
            r@ == "out of range integral type conversion attempted"@,
    {
        String::from_str("out of range integral type conversion attempted")
    }
}

/// The unsigned integer with the same 64 bits as `s`.
pub open spec fn seed_bits(s: i64) -> u64 {
    if s >= 0 {
        s as u64
    } else {
        (s as int + 0x1_0000_0000_0000_0000) as u64
    }
}

pub open spec fn fits_usize(v: i64) -> bool {
    0 <= v <= usize::MAX
}

/// The integer sampling parameters from what the user gave: the window and
/// top-k take their defaults where missing and must not be negative; the seed
/// is taken bit for bit.
pub fn integer_parameters(
    repeat_penalty_token_count: Option<i64>,
    top_k: Option<i64>,
    seed: Option<i64>,
) -> (r: Result<IntegerParameters, ParameterError>)
    ensures
        ({
            let n = match repeat_penalty_token_count {
                Some(v) => v,
                None => DEFAULT_REPEAT_PENALTY_TOKEN_COUNT,
            };
            let k = match top_k {
                Some(v) => v,
                None => DEFAULT_TOP_K,
            };
            if fits_usize(n) && fits_usize(k) {
                r == Ok::<IntegerParameters, ParameterError>(
                    IntegerParameters {
                        repeat_penalty_last_n_token_count: n as usize,
                        top_k: k as usize,
                        seed: match seed {
                            Some(s) => Some(seed_bits(s)),
                            None => None,
                        },
                    },
                )
            } else {
                r == Err::<IntegerParameters, ParameterError>(ParameterError::OutOfRange)
            }
        }),
{
    let n = match repeat_penalty_token_count {
        Some(v) => v,
        None => DEFAULT_REPEAT_PENALTY_TOKEN_COUNT,
    };
    let k = match top_k {
        Some(v) => v,
        None => DEFAULT_TOP_K,
    };
    if n < 0 || n as u64 > usize::MAX as u64 || k < 0 || k as u64 > usize::MAX as u64 {
        return Err(ParameterError::OutOfRange);
    }
    let seed = match seed {
        Some(s) => Some(
            if s >= 0 {
                s as u64
            } else {
                u64::MAX - (-(s + 1)) as u64
            },
        ),
        None => None,
    };
    Ok(IntegerParameters { repeat_penalty_last_n_token_count: n as usize, top_k: k as usize, seed })
}

pub open spec fn is_digit(c: char) -> bool {
    '0' <= c && c <= '9'
}

pub open spec fn digit_value(c: char) -> int {
    c as u32 as int - '0' as u32 as int
}

/// The number that a string of decimal digits denotes.
pub open spec fn digits_value(s: Seq<char>) -> int
    decreases s.len(),
{
    if s.len() == 0 {
        0
    } else {
        digits_value(s.drop_last()) * 10 + digit_value(s.last())
    }
}

/// `s` without one leading plus sign.
pub open spec fn unsigned_part(s: Seq<char>) -> Seq<char> {
    if s.len() > 0 && s[0] == '+' {
        s.drop_first()
    } else {
        s
    }
}

/// An unsigned 64-bit integer in decimal, with an optional leading plus sign.
pub open spec fn parse_u64(s: Seq<char>) -> Option<u64> {
    let d = unsigned_part(s);
    if d.len() > 0 && (forall|i: int| 0 <= i < d.len() ==> is_digit(#[trigger] d[i]))
        && digits_value(d) <= u64::MAX {
        Some(digits_value(d) as u64)
    } else {
        None
    }
}

proof fn lemma_digits_monotone(s: Seq<char>, k: int)
    requires
        0 <= k <= s.len(),
        forall|i: int| 0 <= i < s.len() ==> is_digit(#[trigger] s[i]),
    ensures
        0 <= digits_value(s.subrange(0, k)) <= digits_value(s),
    decreases s.len(),
{
    if k == s.len() {
        assert(s.subrange(0, k) =~= s);
        if s.len() > 0 {
            lemma_digits_monotone(s.drop_last(), s.len() - 1);
            assert(s.drop_last().subrange(0, s.len() - 1) =~= s.drop_last());
            assert(is_digit(s[s.len() - 1]));
        }
    } else {
        lemma_digits_monotone(s.drop_last(), k);
        assert(s.drop_last().subrange(0, k) =~= s.subrange(0, k));
        lemma_digits_monotone(s.drop_last(), s.len() - 1);
        assert(s.drop_last().subrange(0, s.len() - 1) =~= s.drop_last());
        assert(is_digit(s[s.len() - 1]));
    }
}

/// `s` read as an unsigned 64-bit integer in decimal.
pub fn parse_u64_chars(s: &[char]) -> (r: Option<u64>)
    ensures
        r == parse_u64(s@),
{
    let start: usize = if s.len() > 0 && s[0] == '+' {
        1
    } else {
        0
    };
    let ghost d = unsigned_part(s@);
    assert(d =~= s@.subrange(start as int, s@.len() as int));
    if start == s.len() {
        return None;
    }
    let mut acc: u64 = 0;
    let mut i: usize = start;
    assert(d.subrange(0, 0) =~= Seq::<char>::empty());
    while i < s.len()
        invariant
            start <= i <= s@.len(),
            d == unsigned_part(s@),
            d == s@.subrange(start as int, s@.len() as int),
            forall|j: int| 0 <= j < i - start ==> is_digit(#[trigger] d[j]),
            acc as int == digits_value(d.subrange(0, i - start)),
        decreases s@.len() - i,
    {
        let c = s[i];
        if !('0' <= c && c <= '9') {
            assert(d[i - start] == c);
            assert(!is_digit(d[i - start]));
            assert(!(forall|j: int| 0 <= j < d.len() ==> is_digit(#[trigger] d[j])));
            return None;
        }
        let digit = (c as u32 - '0' as u32) as u64;
        assert(d.subrange(0, i + 1 - start).drop_last() =~= d.subrange(0, i - start));
        let next = match acc.checked_mul(10) {
            Some(t) => t.checked_add(digit),
            None => None,
        };
        match next {
            Some(v) => {
                proof {
                    let p = d.subrange(0, i + 1 - start);
                    assert(p.last() == c);
                    assert(digits_value(p) == acc * 10 + digit);
                }
                acc = v;
            },
            None => {
                proof {
                    let p = d.subrange(0, i + 1 - start);
                    assert(p.last() == c);
                    assert(digits_value(p) == acc * 10 + digit);
                    assert(digits_value(p) > u64::MAX);
                    if forall|j: int| 0 <= j < d.len() ==> is_digit(#[trigger] d[j]) {
                        lemma_digits_monotone(d, i + 1 - start);
                    }
                }
                return None;
            },
        }
        i = i + 1;
    }
    assert(d.subrange(0, i - start) =~= d);
    Some(acc)
}

/// The digit character of `d`.
pub open spec fn digit_char(d: int) -> char {
    seq!['0', '1', '2', '3', '4', '5', '6', '7', '8', '9'][d]
}

/// `n` in decimal.
pub open spec fn decimal(n: nat) -> Seq<char>
    decreases n,
{
    if n < 10 {
        seq![digit_char(n as int)]
    } else {
        decimal(n / 10).push(digit_char((n % 10) as int))
    }
}

fn digit_char_exec(d: u64) -> (r: char)
    requires
        d < 10,
    ensures
        r == digit_char(d as int),
{
    let digits = ['0', '1', '2', '3', '4', '5', '6', '7', '8', '9'];
    let r = digits[d as usize];
    assert(digits@ =~= seq!['0', '1', '2', '3', '4', '5', '6', '7', '8', '9']);
    r
}

/// Appends `n` in decimal to `out`.
pub fn push_decimal(out: &mut Vec<char>, n: u64)
    ensures
        final(out)@ == old(out)@ + decimal(n as nat),
    decreases n,
{
    if n >= 10 {
        push_decimal(out, n / 10);
    }
    out.push(digit_char_exec(n % 10));
    proof {
        if n < 10 {
            assert(old(out)@.push(digit_char(n as int)) =~= old(out)@ + decimal(n as nat));
        } else {
            assert(old(out)@ + decimal((n / 10) as nat) + seq![digit_char((n % 10) as int)]
                =~= old(out)@ + decimal(n as nat));
        }
    }
}

pub open spec fn cancel_prefix() -> Seq<char> {
    seq!['c', 'a', 'n', 'c', 'e', 'l']
}

/// The custom id of the cancel button of the generation whose first message is
/// `first_id`, pressable by `user_id`.
pub open spec fn cancel_id(first_id: u64, user_id: u64) -> Seq<char> {
    cancel_prefix() + seq!['#'] + decimal(first_id as nat) + seq!['#'] + decimal(user_id as nat)
}

/// The generation and user that a cancel button's custom id names: three
/// pieces between `#`, the first `cancel`, the others unsigned integers.
pub open spec fn cancel_target(custom_id: Seq<char>) -> Option<(u64, u64)> {
    let p = pieces(custom_id, '#');
    if p.len() == 3 && p[0] == cancel_prefix() {
        match (parse_u64(p[1]), parse_u64(p[2])) {
            (Some(m), Some(u)) => Some((m, u)),
            _ => None,
        }
    } else {
        None
    }
}

/// The custom id of a cancel button.
pub fn cancel_custom_id(first_id: u64, user_id: u64) -> (r: String)
    ensures
        r@ == cancel_id(first_id, user_id),
{
    let mut out: Vec<char> = Vec::new();
    out.push('c');
    out.push('a');
    out.push('n');
    out.push('c');
    out.push('e');
    out.push('l');
    out.push('#');
    push_decimal(&mut out, first_id);
    out.push('#');
    push_decimal(&mut out, user_id);
    assert(out@ =~= cancel_id(first_id, user_id));
    string_of(&out)
}

/// The generation and user that a cancel button's custom id names.
pub fn parse_cancel_id(custom_id: &str) -> (r: Option<(u64, u64)>)
    ensures
        r == cancel_target(custom_id@),
{
    let parts = split_on(&chars_of(custom_id), '#');
    if parts.len() != 3 {
        return None;
    }
    let head = &parts[0];
    let is_cancel = head.len() == 6 && head[0] == 'c' && head[1] == 'a' && head[2] == 'n'
        && head[3] == 'c' && head[4] == 'e' && head[5] == 'l';
    proof {
        assert(views(parts@)[0] == parts@[0]@);
        if is_cancel {
            assert(parts@[0]@ =~= cancel_prefix());
        }
    }
    if !is_cancel {
        return None;
    }
    assert(views(parts@)[1] == parts@[1]@);
    assert(views(parts@)[2] == parts@[2]@);
    match (parse_u64_chars(&parts[1]), parse_u64_chars(&parts[2])) {
        (Some(m), Some(u)) => Some((m, u)),
        _ => None,
    }
}

/// The generation to cancel when `presser` presses the button with
/// `custom_id`: the one it names, where it names `presser` as its user.
pub fn cancel_request(custom_id: &str, presser: u64) -> (r: Option<u64>)
    ensures
        r == match cancel_target(custom_id@) {
            Some((m, u)) => if u == presser {
                Some(m)
            } else {
                None
            },
            None => None,
        },
{
    match parse_cancel_id(custom_id) {
        Some((m, u)) => if u == presser {
            Some(m)
        } else {
            None
        },
        None => None,
    }
}

/// Whether `x` is among the names of `b`.
fn has_name(b: &Vec<String>, x: &String) -> (r: bool)
    ensures
        r == string_views(b@).contains(x@),
{
    let mut j: usize = 0;
    while j < b.len()
        invariant
            j <= b@.len(),
            forall|k: int| 0 <= k < j ==> b@[k]@ != x@,
        decreases b@.len() - j,
    {
        if b[j] == *x {
            assert(string_views(b@)[j as int] == x@);
            return true;
        }
        j = j + 1;
    }
    assert(!string_views(b@).contains(x@)) by {
        if string_views(b@).contains(x@) {
            let w = choose|w: int| 0 <= w < string_views(b@).len() && string_views(b@)[w] == x@;
            assert(b@[w]@ == x@);
        }
    }
    false
}

/// Every name of `a` is among those of `b`.
fn all_among(a: &Vec<String>, b: &Vec<String>) -> (r: bool)
    ensures
        r == (forall|i: int| 0 <= i < a@.len() ==> string_views(b@).contains(#[trigger] a@[i]@)),
{
    let mut i: usize = 0;
    while i < a.len()
        invariant
            i <= a@.len(),
            forall|k: int| 0 <= k < i ==> string_views(b@).contains(#[trigger] a@[k]@),
        decreases a@.len() - i,
    {
        if !has_name(b, &a[i]) {
            return false;
        }
        i = i + 1;
    }
    true
}

/// Whether the commands registered with the chat platform differ, as sets of
/// names, from those that the configuration enables: then they are all reset.
pub fn commands_need_reset(registered: &Vec<String>, ours: &Vec<String>) -> (r: bool)
    ensures
        r == (string_views(registered@).to_set() != string_views(ours@).to_set()),
{
    let ghost a = string_views(registered@);
    let ghost b = string_views(ours@);
    let forward = all_among(registered, ours);
    let backward = all_among(ours, registered);
    proof {
        if forward && backward {
            assert forall|x: Seq<char>| a.to_set().contains(x) == b.to_set().contains(x) by {
                if a.contains(x) {
                    let i = choose|i: int| 0 <= i < a.len() && a[i] == x;
                    assert(registered@[i]@ == x);
                }
                if b.contains(x) {
                    let i = choose|i: int| 0 <= i < b.len() && b[i] == x;
                    assert(ours@[i]@ == x);
                }
            }
            assert(a.to_set() =~= b.to_set());
        } else if !forward {
            let i = choose|i: int|
                0 <= i < registered@.len() && !string_views(ours@).contains(#[trigger] registered@[i]@);
            assert(a[i] == registered@[i]@);
            assert(a.to_set().contains(a[i]));
            assert(!b.to_set().contains(a[i]));
        } else {
            let i = choose|i: int|
                0 <= i < ours@.len() && !string_views(registered@).contains(#[trigger] ours@[i]@);
            assert(b[i] == ours@[i]@);
            assert(b.to_set().contains(b[i]));
            assert(!a.to_set().contains(b[i]));
        }
    }
    !(forward && backward)
}

/// The kind of value that a slash-command option takes.
#[derive(Debug, PartialEq, Eq, Structural)]
pub enum OptionKind {
    String,
    Integer,
    Number,
}

/// A slash-command option to register. The bounds are whole numbers; for a
/// number option they stand for the same real value.
#[derive(Debug)]
pub struct OptionSpec {
    pub name: String,
    pub kind: OptionKind,
    pub description: String,
    pub min: Option<i64>,
    pub max: Option<i64>,
    pub required: bool,
}

fn option_spec(
    name: &str,
    kind: OptionKind,
    description: &str,
    min: Option<i64>,
    max: Option<i64>,
    required: bool,
) -> (r: OptionSpec)
    ensures
        r.name@ == name@,
        r.kind == kind,
        r.description@ == description@,
        r.min == min,
        r.max == max,
        r.required == required,
{
    OptionSpec {
        name: String::from_str(name),
        kind,
        description: String::from_str(description),
        min,
        max,
        required,
    }
}

/// The option that carries the user's prompt; every command has it.
pub fn prompt_option() -> (r: OptionSpec)
    ensures
        r.name@ == PROMPT@,
        r.kind == OptionKind::String,
        r.description@ == "The prompt."@,
        r.min is None && r.max is None,
        r.required,
{
    option_spec(PROMPT, OptionKind::String, "The prompt.", None, None, true)
}

/// The optional sampling options of every command, in order.
pub fn create_parameters() -> (r: Vec<OptionSpec>)
    ensures
        r@.len() == 6,
        forall|i: int| 0 <= i < 6 ==> !(#[trigger] r@[i]).required,
        r@[0].name@ == REPEAT_PENALTY@ && r@[0].kind == OptionKind::Number && r@[0].min == Some(
            0i64,
        ) && r@[0].max is None,
        r@[1].name@ == REPEAT_PENALTY_TOKEN_COUNT@ && r@[1].kind == OptionKind::Integer && r@[1].min
            == Some(0i64) && r@[1].max == Some(64i64),
        r@[2].name@ == TEMPERATURE@ && r@[2].kind == OptionKind::Number && r@[2].min == Some(0i64)
            && r@[2].max is None,
        r@[3].name@ == TOP_K@ && r@[3].kind == OptionKind::Integer && r@[3].min == Some(0i64)
            && r@[3].max == Some(128i64),
        r@[4].name@ == TOP_P@ && r@[4].kind == OptionKind::Number && r@[4].min == Some(0i64)
            && r@[4].max == Some(1i64),
        r@[5].name@ == SEED@ && r@[5].kind == OptionKind::Integer && r@[5].min == Some(0i64)
            && r@[5].max is None,
{
    let mut r: Vec<OptionSpec> = Vec::new();
    r.push(
        option_spec(
            REPEAT_PENALTY,
            OptionKind::Number,
            "The penalty for repeating tokens. Higher values make the generation less likely to get into a loop.",
            Some(0),
            None,
            false,
        ),
    );
    r.push(
        option_spec(
            REPEAT_PENALTY_TOKEN_COUNT,
            OptionKind::Integer,
            "Size of the 'last N' buffer that is considered for the repeat penalty (in tokens)",
            Some(0),
            Some(64),
            false,
        ),
    );
    r.push(
        option_spec(
            TEMPERATURE,
            OptionKind::Number,
            "The temperature used for sampling.",
            Some(0),
            None,
            false,
        ),
    );
    r.push(
        option_spec(
            TOP_K,
            OptionKind::Integer,
            "The top K words by score are kept during sampling.",
            Some(0),
            Some(128),
            false,
        ),
    );
    r.push(
        option_spec(
            TOP_P,
            OptionKind::Number,
            "The cumulative probability after which no more words are kept for sampling.",
            Some(0),
            Some(1),
            false,
        ),
    );
    r.push(
        option_spec(
            SEED,
            OptionKind::Integer,
            "The seed to use for sampling.",
            Some(0),
            None,
            false,
        ),
    );
    r
}

proof fn lemma_digit_char(d: int)
    requires
        0 <= d < 10,
    ensures
        is_digit(digit_char(d)),
        digit_value(digit_char(d)) == d,
        digit_char(d) != '+',
        digit_char(d) != '#',
{
    let ds = seq!['0', '1', '2', '3', '4', '5', '6', '7', '8', '9'];
    assert(digit_char(d) == ds[d]);
    if d == 0 {
        assert(ds[0] == '0');
    } else if d == 1 {
        assert(ds[1] == '1');
    } else if d == 2 {
        assert(ds[2] == '2');
    } else if d == 3 {
        assert(ds[3] == '3');
    } else if d == 4 {
        assert(ds[4] == '4');
    } else if d == 5 {
        assert(ds[5] == '5');
    } else if d == 6 {
        assert(ds[6] == '6');
    } else if d == 7 {
        assert(ds[7] == '7');
    } else if d == 8 {
        assert(ds[8] == '8');
    } else {
        assert(ds[9] == '9');
    }
}

proof fn lemma_decimal(n: nat)
    ensures
        decimal(n).len() >= 1,
        forall|i: int| 0 <= i < decimal(n).len() ==> is_digit(#[trigger] decimal(n)[i]),
        forall|i: int| 0 <= i < decimal(n).len() ==> #[trigger] decimal(n)[i] != '#',
        decimal(n)[0] != '+',
        digits_value(decimal(n)) == n,
    decreases n,
{
    if n < 10 {
        lemma_digit_char(n as int);
        assert(decimal(n).drop_last() =~= Seq::<char>::empty());
        assert(decimal(n).last() == digit_char(n as int));
        assert(digits_value(decimal(n)) == digits_value(Seq::<char>::empty()) * 10 + digit_value(
            digit_char(n as int),
        ));
    } else {
        lemma_decimal(n / 10);
        lemma_digit_char((n % 10) as int);
        assert(decimal(n).drop_last() =~= decimal(n / 10));
        assert(decimal(n).last() == digit_char((n % 10) as int));
        assert(digits_value(decimal(n)) == digits_value(decimal(n / 10)) * 10 + digit_value(
            digit_char((n % 10) as int),
        ));
        assert((n / 10) * 10 + n % 10 == n) by (nonlinear_arith);
    }
}

proof fn lemma_pieces_nonempty(s: Seq<char>, sep: char)
    ensures
        pieces(s, sep).len() >= 1,
    decreases s.len(),
{
    if s.len() > 0 {
        lemma_pieces_nonempty(s.drop_last(), sep);
    }
}

proof fn lemma_pieces_without_sep(s: Seq<char>, sep: char)
    requires
        forall|i: int| 0 <= i < s.len() ==> #[trigger] s[i] != sep,
    ensures
        pieces(s, sep) == seq![s],
    decreases s.len(),
{
    if s.len() == 0 {
        assert(s =~= Seq::<char>::empty());
    } else {
        lemma_pieces_without_sep(s.drop_last(), sep);
        assert(s[s.len() - 1] != sep);
        assert(s.drop_last().push(s.last()) =~= s);
        assert(seq![s.drop_last()].update(0, s.drop_last().push(s.last())) =~= seq![s]);
    }
}

proof fn lemma_pieces_concat(a: Seq<char>, b: Seq<char>, sep: char)
    ensures
        pieces(a + seq![sep] + b, sep) == pieces(a, sep) + pieces(b, sep),
    decreases b.len(),
{
    let s = a + seq![sep] + b;
    lemma_pieces_nonempty(a, sep);
    if b.len() == 0 {
        assert(s.drop_last() =~= a);
        assert(pieces(a, sep).push(Seq::<char>::empty()) =~= pieces(a, sep) + pieces(b, sep));
    } else {
        lemma_pieces_concat(a, b.drop_last(), sep);
        lemma_pieces_nonempty(b.drop_last(), sep);
        assert(s.drop_last() =~= a + seq![sep] + b.drop_last());
        let pa = pieces(a, sep);
        let pb = pieces(b.drop_last(), sep);
        if b.last() == sep {
            assert((pa + pb).push(Seq::<char>::empty()) =~= pa + pb.push(Seq::<char>::empty()));
        } else {
            let w = pa + pb;
            assert(w.update(w.len() - 1, w.last().push(b.last())) =~= pa + pb.update(
                pb.len() - 1,
                pb.last().push(b.last()),
            ));
        }
    }
}

/// A cancel button's custom id names exactly the generation and user that it
/// was made for.
pub proof fn lemma_cancel_id_round_trip(first_id: u64, user_id: u64)
    ensures
        cancel_target(cancel_id(first_id, user_id)) == Some((first_id, user_id)),
{
    let da = decimal(first_id as nat);
    let db = decimal(user_id as nat);
    lemma_decimal(first_id as nat);
    lemma_decimal(user_id as nat);
    assert(cancel_id(first_id, user_id) =~= cancel_prefix() + seq!['#'] + (da + seq!['#'] + db));
    lemma_pieces_concat(cancel_prefix(), da + seq!['#'] + db, '#');
    lemma_pieces_concat(da, db, '#');
    lemma_pieces_without_sep(cancel_prefix(), '#');
    lemma_pieces_without_sep(da, '#');
    lemma_pieces_without_sep(db, '#');
    let p = pieces(cancel_id(first_id, user_id), '#');
    assert(p =~= seq![cancel_prefix(), da, db]);
    assert(unsigned_part(da) == da);
    assert(unsigned_part(db) == db);
}

} // verus!
