use vstd::prelude::*;

use crate::text::{
    chars_of, concat, find_first, first_index, prefix_to, push_all, replace_all,
    replaced, strip, strip_prefix, string_of, suffix_from,
};

verus! {

/// The marker in a command's template where the user's prompt goes.
pub open spec fn placeholder() -> Seq<char> {
    seq!['{', '{', 'P', 'R', 'O', 'M', 'P', 'T', '}', '}']
}

/// Two copies of `c`, the markdown delimiters `**` and `~~`.
pub open spec fn doubled(c: char) -> Seq<char> {
    seq![c, c]
}

pub open spec fn bold(s: Seq<char>) -> Seq<char> {
    doubled('*') + s + doubled('*')
}

pub open spec fn struck(s: Seq<char>) -> Seq<char> {
    doubled('~') + s + doubled('~')
}

/// The user's input with each escaped newline (a backslash then `n`) made a newline.
pub open spec fn unescaped(s: Seq<char>) -> Seq<char> {
    replaced(s, seq!['\\', 'n'], seq!['\n'])
}

/// The text of a template before and after its first placeholder; both empty
/// where it has none.
pub open spec fn template_parts(t: Seq<char>) -> (Seq<char>, Seq<char>) {
    match first_index(t, placeholder()) {
        Some(i) => (t.subrange(0, i), t.subrange(i + placeholder().len(), t.len() as int)),
        None => (Seq::<char>::empty(), Seq::<char>::empty()),
    }
}

/// A newline where `suffix` ends in one, else nothing.
pub open spec fn newline_after(suffix: Seq<char>) -> Seq<char> {
    if suffix.len() > 0 && suffix.last() == '\n' {
        seq!['\n']
    } else {
        Seq::<char>::empty()
    }
}

/// The model's output with the template's scaffolding taken out: the user's
/// prompt, then what the model produced after the template.
pub open spec fn decoupled(output: Seq<char>, user: Seq<char>, template: Seq<char>) -> Seq<char> {
    let (prefix, suffix) = template_parts(template);
    match strip(output, prefix) {
        None => Seq::<char>::empty(),
        Some(message) => match strip(message, user) {
            None => message,
            Some(response) => match strip(response, suffix) {
                None => user,
                Some(rest) => user + newline_after(suffix) + rest,
            },
        },
    }
}

/// `message` marked against the prompt shown to the user: the part of the
/// prompt already produced in bold, the part still to come struck through.
pub open spec fn marked(message: Seq<char>, shown: Seq<char>) -> Seq<char> {
    match strip(message, shown) {
        Some(rest) => bold(shown) + rest,
        None => match strip(shown, message) {
            Some(ungenerated) => if message.len() == 0 {
                struck(ungenerated)
            } else {
                bold(message) + struck(ungenerated)
            },
            None => message,
        },
    }
}

/// The prompts of one generation.
pub struct Prompts {
    /// Whether the whole rendered template is shown, or only the user's prompt.
    pub show_prompt_template: bool,
    /// The template with the user's prompt put in place of its placeholders.
    pub processed: String,
    /// The user's prompt.
    pub user: String,
    /// The command's template.
    pub template: String,
}

impl Prompts {
    /// The prompt that the user sees.
    pub open spec fn shown(&self) -> Seq<char> {
        if self.show_prompt_template {
            self.processed@
        } else {
            self.user@
        }
    }

    /// The display text for the accumulated output `message`.
    pub open spec fn markdown(&self, message: Seq<char>) -> Seq<char> {
        if self.show_prompt_template {
            marked(message, self.processed@)
        } else {
            marked(decoupled(message, self.user@, self.template@), self.user@)
        }
    }

    /// Builds the prompts of a request from the user's input and the command's
    /// template; `replace_newlines` turns escaped newlines in the input into
    /// newlines first.
    pub fn new(user_input: &str, replace_newlines: bool, show_prompt_template: bool, template: &str)
        -> (r: Prompts)
        ensures
            r.show_prompt_template == show_prompt_template,
            r.user@ == (if replace_newlines {
                unescaped(user_input@)
            } else {
                user_input@
            }),
            r.processed@ == replaced(template@, placeholder(), r.user@),
            r.template@ == template@,
    {
        let input = chars_of(user_input);
        let user = if replace_newlines {
            let mut escaped: Vec<char> = Vec::new();
            escaped.push('\\');
            escaped.push('n');
            let mut newline: Vec<char> = Vec::new();
            newline.push('\n');
            assert(escaped@ =~= seq!['\\', 'n']);
            assert(newline@ =~= seq!['\n']);
            replace_all(&input, &escaped, &newline)
        } else {
            input
        };
        let template_chars = chars_of(template);
        let marker = placeholder_chars();
        let processed = replace_all(&template_chars, &marker, &user);
        Prompts {
            show_prompt_template,
            processed: string_of(&processed),
            user: string_of(&user),
            template: string_of(&template_chars),
        }
    }

    /// The first message of a generation: the shown prompt, struck through.
    pub fn placeholder_message(&self) -> (r: String)
        ensures
            r@ == struck(self.shown()),
    {
        let shown = if self.show_prompt_template {
            chars_of(&self.processed)
        } else {
            chars_of(&self.user)
        };
        string_of(&struck_chars(&shown))
    }

    /// The display text for the accumulated output `message`.
    pub fn make_markdown_message(&self, message: &str) -> (r: String)
        ensures
            r@ == self.markdown(message@),
    {
        string_of(&self.markdown_chars(&chars_of(message)))
    }

    /// The display text for the accumulated output `message`, as characters.
    pub fn markdown_chars(&self, message: &[char]) -> (r: Vec<char>)
        ensures
            r@ == self.markdown(message@),
    {
        if !self.show_prompt_template {
            mark(&self.decouple_prompt_from_message(message), &chars_of(&self.user))
        } else {
            mark(message, &chars_of(&self.processed))
        }
    }

    /// The model's output with the template's scaffolding taken out.
    pub fn decouple_prompt_from_message(&self, output: &[char]) -> (r: Vec<char>)
        ensures
            r@ == decoupled(output@, self.user@, self.template@),
    {
        let template = chars_of(&self.template);
        let marker = placeholder_chars();
        let template_len = template.len();
        let (prefix, suffix) = match find_first(&template, &marker) {
            Some(i) => (prefix_to(&template, i), suffix_from(&template, i + marker.len())),
            None => (Vec::new(), Vec::new()),
        };
        let prompt = chars_of(&self.user);
        let message = match strip_prefix(output, &prefix) {
            Some(m) => m,
            None => {
                return Vec::new();
            },
        };
        let response = match strip_prefix(&message, &prompt) {
            Some(r) => r,
            None => {
                return message;
            },
        };
        let rest = match strip_prefix(&response, &suffix) {
            Some(r) => r,
            None => {
                return prompt;
            },
        };
        let mut out = prompt;
        if suffix.len() > 0 && suffix[suffix.len() - 1] == '\n' {
            out.push('\n');
        }
        push_all(&mut out, &rest);
        assert(out@ =~= self.user@ + newline_after(suffix@) + rest@);
        out
    }
}

fn placeholder_chars() -> (r: Vec<char>)
    ensures
        r@ == placeholder(),
{
    let mut r: Vec<char> = Vec::new();
    r.push('{');
    r.push('{');
    r.push('P');
    r.push('R');
    r.push('O');
    r.push('M');
    r.push('P');
    r.push('T');
    r.push('}');
    r.push('}');
    assert(r@ =~= placeholder());
    r
}

fn wrapped(s: &[char], c: char) -> (r: Vec<char>)
    ensures
        r@ == doubled(c) + s@ + doubled(c),
{
    let mut r: Vec<char> = Vec::new();
    r.push(c);
    r.push(c);
    push_all(&mut r, s);
    r.push(c);
    r.push(c);
    assert(r@ =~= doubled(c) + s@ + doubled(c));
    r
}

/// `s` struck through.
pub fn struck_chars(s: &[char]) -> (r: Vec<char>)
    ensures
        r@ == struck(s@),
{
    wrapped(s, '~')
}

fn mark(message: &[char], shown: &[char]) -> (r: Vec<char>)
    ensures
        r@ == marked(message@, shown@),
{
    match strip_prefix(message, shown) {
        Some(rest) => concat(&wrapped(shown, '*'), &rest),
        None => match strip_prefix(shown, message) {
            Some(ungenerated) => {
                if message.len() == 0 {
                    struck_chars(&ungenerated)
                } else {
                    concat(&wrapped(message, '*'), &struck_chars(&ungenerated))
                }
            },
            None => {
                let mut r: Vec<char> = Vec::new();
                push_all(&mut r, message);
                assert(r@ =~= message@);
                r
            },
        },
    }
}

/// Hiding the template from output that holds the whole template followed by
/// a response gives the user's prompt, a newline where the template's suffix
/// ends in one, then exactly that response.
pub proof fn lemma_decouple_full_output(
    user: Seq<char>,
    template: Seq<char>,
    prefix: Seq<char>,
    suffix: Seq<char>,
    response: Seq<char>,
)
    requires
        template_parts(template) == (prefix, suffix),
    ensures
        decoupled(prefix + user + suffix + response, user, template) == user + newline_after(
            suffix,
        ) + response,
{
    let output = prefix + user + suffix + response;
    let message = user + suffix + response;
    let rest = suffix + response;
    assert(output.subrange(0, prefix.len() as int) =~= prefix);
    assert(output.subrange(prefix.len() as int, output.len() as int) =~= message);
    assert(strip(output, prefix) == Some(message));
    assert(message.subrange(0, user.len() as int) =~= user);
    assert(message.subrange(user.len() as int, message.len() as int) =~= rest);
    assert(strip(message, user) == Some(rest));
    assert(rest.subrange(0, suffix.len() as int) =~= suffix);
    assert(rest.subrange(suffix.len() as int, rest.len() as int) =~= response);
    assert(strip(rest, suffix) == Some(response));
}

} // verus!
