use vstd::prelude::*;

use crate::chunk::{chunk_text, chunked, string_views};
use crate::generation::{cancelled_text, InferenceError, Token};
use crate::prompt::{struck, struck_chars, Prompts};
use crate::text::{chars_of, push_all, string_of};

verus! {

/// One change to the chat messages of a generation. Messages are numbered
/// from the first, which exists before generation starts.
#[derive(Debug)]
pub enum Action {
    /// Attach the cancel button to a message.
    AddCancel { index: usize },
    /// Take the cancel button off a message.
    RemoveCancel { index: usize },
    /// Replace a message's content.
    Edit { index: usize, content: String },
    /// Reply to the last message; the reply becomes the last message.
    Reply { content: String },
    /// Replace a message's content and take its cancel button off.
    Strike { index: usize, content: String },
}

pub enum ActionView {
    AddCancel(nat),
    RemoveCancel(nat),
    Edit(nat, Seq<char>),
    Reply(Seq<char>),
    Strike(nat, Seq<char>),
}

impl View for Action {
    type V = ActionView;

    open spec fn view(&self) -> ActionView {
        match self {
            Action::AddCancel { index } => ActionView::AddCancel(*index as nat),
            Action::RemoveCancel { index } => ActionView::RemoveCancel(*index as nat),
            Action::Edit { index, content } => ActionView::Edit(*index as nat, content@),
            Action::Reply { content } => ActionView::Reply(content@),
            Action::Strike { index, content } => ActionView::Strike(*index as nat, content@),
        }
    }
}

pub open spec fn action_views(a: Seq<Action>) -> Seq<ActionView> {
    a.map_values(|x: Action| x@)
}

/// What Verus sees of an output synchronizer.
pub struct OutputView {
    pub prompts: Prompts,
    /// The content of each message, in order.
    pub contents: Seq<Seq<char>>,
    /// The chunks of the current display text.
    pub chunks: Seq<Seq<char>>,
    /// The generated text so far.
    pub message: Seq<char>,
    /// Cancelled, failed or finished: nothing more happens.
    pub terminal: bool,
    /// When the messages were last brought up to date, in milliseconds.
    pub last_update: int,
    /// The least time between two updates, in milliseconds.
    pub interval: int,
    /// The message that carries the cancel button, if one does.
    pub cancel_at: Option<nat>,
}

pub open spec fn min_len(a: nat, b: nat) -> nat {
    if a < b {
        a
    } else {
        b
    }
}

/// The edit of the last message that has a chunk, if any has.
pub open spec fn edit_part(contents: Seq<Seq<char>>, chunks: Seq<Seq<char>>) -> Seq<ActionView> {
    let m = min_len(contents.len(), chunks.len());
    if m > 0 {
        seq![ActionView::Edit((m - 1) as nat, chunks[m - 1])]
    } else {
        Seq::<ActionView>::empty()
    }
}

pub open spec fn remove_all(n: nat) -> Seq<ActionView> {
    Seq::new(n, |i: int| ActionView::RemoveCancel(i as nat))
}

pub open spec fn replies(chunks: Seq<Seq<char>>, from: int, to: int) -> Seq<ActionView> {
    Seq::new((to - from) as nat, |k: int| ActionView::Reply(chunks[from + k]))
}

/// Bringing the messages up to date with the chunks: the last message that has
/// a chunk gets it, and a reply carries each chunk left over. With `cancel`,
/// replies move the cancel button: every button comes off before them and the
/// newest message gets it after them.
pub open spec fn sync_actions(contents: Seq<Seq<char>>, chunks: Seq<Seq<char>>, cancel: bool) -> Seq<
    ActionView,
> {
    if chunks.len() <= contents.len() {
        edit_part(contents, chunks)
    } else if cancel {
        edit_part(contents, chunks) + remove_all(contents.len()) + replies(
            chunks,
            contents.len() as int,
            chunks.len() as int,
        ) + seq![ActionView::AddCancel((chunks.len() - 1) as nat)]
    } else {
        edit_part(contents, chunks) + replies(chunks, contents.len() as int, chunks.len() as int)
    }
}

/// The message contents after `sync_actions`.
pub open spec fn synced(contents: Seq<Seq<char>>, chunks: Seq<Seq<char>>) -> Seq<Seq<char>> {
    let m = min_len(contents.len(), chunks.len());
    let updated = if m > 0 {
        contents.update(m - 1, chunks[m - 1])
    } else {
        contents
    };
    if chunks.len() <= contents.len() {
        updated
    } else {
        updated + chunks.subrange(contents.len() as int, chunks.len() as int)
    }
}

pub open spec fn strike_all(contents: Seq<Seq<char>>) -> Seq<ActionView> {
    Seq::new(contents.len(), |i: int| ActionView::Strike(i as nat, struck(contents[i])))
}

pub open spec fn struck_all(contents: Seq<Seq<char>>) -> Seq<Seq<char>> {
    contents.map_values(|c: Seq<char>| struck(c))
}

/// A token arrives: the first one brings the cancel button to the first
/// message; each one grows the text and its chunks; the messages are brought
/// up to date when more than the interval has passed since the last update.
pub open spec fn after_token(s: OutputView, token: Seq<char>, now: int) -> (
    OutputView,
    Seq<ActionView>,
) {
    if s.terminal {
        (s, Seq::<ActionView>::empty())
    } else {
        let first = if s.message.len() == 0 {
            seq![ActionView::AddCancel(0)]
        } else {
            Seq::<ActionView>::empty()
        };
        let holder = if s.message.len() == 0 {
            Some(0nat)
        } else {
            s.cancel_at
        };
        let message = s.message + token;
        let chunks = chunked(s.prompts.markdown(message));
        if now > s.last_update + s.interval {
            (
                OutputView {
                    contents: synced(s.contents, chunks),
                    chunks,
                    message,
                    last_update: now,
                    cancel_at: if chunks.len() > s.contents.len() {
                        Some((chunks.len() - 1) as nat)
                    } else {
                        holder
                    },
                    ..s
                },
                first + sync_actions(s.contents, chunks, true),
            )
        } else {
            (OutputView { chunks, message, cancel_at: holder, ..s }, first)
        }
    }
}

/// The generation fails with `text`: every message is struck through and loses
/// its cancel button, and a reply carries `text`. The reply is no message of
/// the output: the list keeps one message per chunk sent.
pub open spec fn after_error(s: OutputView, text: Seq<char>) -> (OutputView, Seq<ActionView>) {
    if s.terminal {
        (s, Seq::<ActionView>::empty())
    } else {
        (
            OutputView {
                contents: struck_all(s.contents),
                terminal: true,
                cancel_at: None,
                ..s
            },
            strike_all(s.contents).push(ActionView::Reply(text)),
        )
    }
}

/// The generation ends: every cancel button comes off and the messages are
/// brought up to date one last time, without a button.
pub open spec fn after_finish(s: OutputView) -> (OutputView, Seq<ActionView>) {
    if s.terminal {
        (s, Seq::<ActionView>::empty())
    } else {
        (
            OutputView {
                contents: synced(s.contents, s.chunks),
                terminal: true,
                cancel_at: None,
                ..s
            },
            remove_all(s.contents.len()) + sync_actions(s.contents, s.chunks, false),
        )
    }
}

/// Keeps the chat messages of one generation in step with its tokens.
pub struct Outputter {
    prompts: Prompts,
    contents: Vec<String>,
    chunks: Vec<String>,
    message: Vec<char>,
    in_terminal_state: bool,
    last_update_ms: u64,
    update_interval_ms: u64,
    cancel_at: Option<usize>,
}

impl View for Outputter {
    type V = OutputView;

    closed spec fn view(&self) -> OutputView {
        OutputView {
            prompts: self.prompts,
            contents: string_views(self.contents@),
            chunks: string_views(self.chunks@),
            message: self.message@,
            terminal: self.in_terminal_state,
            last_update: self.last_update_ms as int,
            interval: self.update_interval_ms as int,
            cancel_at: match self.cancel_at {
                Some(i) => Some(i as nat),
                None => None,
            },
        }
    }
}

proof fn lemma_action_views_push(a: Seq<Action>, x: Action)
    ensures
        action_views(a.push(x)) == action_views(a).push(x@),
{
    assert(action_views(a.push(x)) =~= action_views(a).push(x@));
}

proof fn lemma_string_views_push(a: Seq<String>, x: String)
    ensures
        string_views(a.push(x)) == string_views(a).push(x@),
{
    assert(string_views(a.push(x)) =~= string_views(a).push(x@));
}

proof fn lemma_string_views_update(a: Seq<String>, i: int, x: String)
    requires
        0 <= i < a.len(),
    ensures
        string_views(a.update(i, x)) == string_views(a).update(i, x@),
{
    assert(string_views(a.update(i, x)) =~= string_views(a).update(i, x@));
}

fn remove_cancels(n: usize) -> (r: Vec<Action>)
    ensures
        action_views(r@) == remove_all(n as nat),
{
    let mut actions: Vec<Action> = Vec::new();
    let mut i: usize = 0;
    while i < n
        invariant
            i <= n,
            action_views(actions@) == remove_all(i as nat),
        decreases n - i,
    {
        let ghost before = actions@;
        actions.push(Action::RemoveCancel { index: i });
        proof {
            lemma_action_views_push(before, Action::RemoveCancel { index: i });
        }
        i = i + 1;
        assert(action_views(actions@) =~= remove_all(i as nat));
    }
    actions
}

fn sync_contents(contents: &mut Vec<String>, chunks: &Vec<String>, cancel: bool) -> (r: Vec<Action>)
    ensures
        string_views(final(contents)@) == synced(string_views(old(contents)@), string_views(chunks@)),
        action_views(r@) == sync_actions(string_views(old(contents)@), string_views(chunks@), cancel),
{
    let ghost c0 = string_views(contents@);
    let ghost ch = string_views(chunks@);
    let n = contents.len();
    let c = chunks.len();
    let m = if n < c {
        n
    } else {
        c
    };
    let mut actions: Vec<Action> = Vec::new();
    if m > 0 {
        let chunk = chunks[m - 1].clone();
        actions.push(Action::Edit { index: m - 1, content: chunk.clone() });
        let ghost s0 = contents@;
        contents.set(m - 1, chunk);
        proof {
            lemma_string_views_update(s0, m - 1, chunk);
        }
        assert(string_views(contents@) =~= c0.update(m - 1, ch[m - 1]));
    } else {
        assert(string_views(contents@) =~= c0);
    }
    assert(action_views(actions@) =~= edit_part(c0, ch));
    let ghost updated = string_views(contents@);
    if c <= n {
        return actions;
    }
    let ghost edits = action_views(actions@);
    if cancel {
        let mut removals = remove_cancels(n);
        actions.append(&mut removals);
        assert(action_views(actions@) =~= edits + remove_all(n as nat));
    }
    let ghost head = action_views(actions@);
    let mut j: usize = n;
    assert(updated + ch.subrange(n as int, n as int) =~= updated);
    assert(head + replies(ch, n as int, n as int) =~= head);
    while j < c
        invariant
            n <= j <= c,
            c == chunks@.len(),
            n == c0.len(),
            ch == string_views(chunks@),
            string_views(contents@) == updated + ch.subrange(n as int, j as int),
            action_views(actions@) == head + replies(ch, n as int, j as int),
        decreases c - j,
    {
        let chunk = chunks[j].clone();
        let ghost before_actions = action_views(actions@);
        let ghost before_contents = string_views(contents@);
        let ghost a0 = actions@;
        let ghost s0 = contents@;
        let item = Action::Reply { content: chunk.clone() };
        actions.push(item);
        contents.push(chunk);
        proof {
            lemma_action_views_push(a0, item);
            lemma_string_views_push(s0, chunk);
        }
        j = j + 1;
        assert(string_views(contents@) =~= before_contents.push(ch[j - 1]));
        assert(string_views(contents@) =~= updated + ch.subrange(n as int, j as int));
        assert(action_views(actions@) =~= before_actions.push(ActionView::Reply(ch[j - 1])));
        assert(action_views(actions@) =~= head + replies(ch, n as int, j as int));
    }
    if cancel {
        let ghost before_last = action_views(actions@);
        actions.push(Action::AddCancel { index: c - 1 });
        assert(action_views(actions@) =~= before_last.push(ActionView::AddCancel((c - 1) as nat)));
    }
    assert(action_views(actions@) =~= sync_actions(c0, ch, cancel));
    actions
}

fn strike_contents(contents: &mut Vec<String>) -> (r: Vec<Action>)
    ensures
        string_views(final(contents)@) == struck_all(string_views(old(contents)@)),
        action_views(r@) == strike_all(string_views(old(contents)@)),
{
    let ghost c0 = string_views(contents@);
    let mut actions: Vec<Action> = Vec::new();
    let mut i: usize = 0;
    while i < contents.len()
        invariant
            i <= contents@.len(),
            contents@.len() == c0.len(),
            forall|k: int| 0 <= k < i ==> #[trigger] string_views(contents@)[k] == struck(c0[k]),
            forall|k: int| i <= k < c0.len() ==> #[trigger] string_views(contents@)[k] == c0[k],
            action_views(actions@) == strike_all(c0).subrange(0, i as int),
        decreases c0.len() - i,
    {
        assert(string_views(contents@)[i as int] == contents@[i as int]@);
        let cut = string_of(&struck_chars(&chars_of(&contents[i])));
        assert(cut@ == struck(c0[i as int]));
        let ghost before = action_views(actions@);
        let ghost before_actions = actions@;
        let ghost before_contents = contents@;
        let item = Action::Strike { index: i, content: cut.clone() };
        actions.push(item);
        contents.set(i, cut);
        proof {
            lemma_action_views_push(before_actions, item);
            lemma_string_views_update(before_contents, i as int, cut);
        }
        assert(action_views(actions@) =~= before.push(ActionView::Strike(i as nat, struck(c0[i as int]))));
        i = i + 1;
        assert(action_views(actions@) =~= strike_all(c0).subrange(0, i as int));
    }
    assert(string_views(contents@) =~= struck_all(c0));
    assert(strike_all(c0).subrange(0, i as int) =~= strike_all(c0));
    actions
}

impl Outputter {
    /// A synchronizer for a generation whose first message already shows the
    /// prompt struck through; `now_ms` is the time of that message.
    pub fn new(prompts: Prompts, update_interval_ms: u64, now_ms: u64) -> (r: Self)
        ensures
            r@ == (OutputView {
                prompts,
                contents: seq![struck(prompts.shown())],
                chunks: Seq::<Seq<char>>::empty(),
                message: Seq::<char>::empty(),
                terminal: false,
                last_update: now_ms as int,
                interval: update_interval_ms as int,
                cancel_at: None,
            }),
    {
        let first = prompts.placeholder_message();
        let mut contents: Vec<String> = Vec::new();
        contents.push(first);
        let r = Outputter {
            prompts,
            contents,
            chunks: Vec::new(),
            message: Vec::new(),
            in_terminal_state: false,
            last_update_ms: now_ms,
            update_interval_ms,
            cancel_at: None,
        };
        assert(r@.contents =~= seq![struck(prompts.shown())]);
        assert(r@.chunks =~= Seq::<Seq<char>>::empty());
        r
    }

    /// The prompts of the generation.
    pub fn prompts(&self) -> (r: &Prompts)
        ensures
            *r == self@.prompts,
    {
        &self.prompts
    }

    /// The content of each message.
    pub fn contents(&self) -> (r: &Vec<String>)
        ensures
            string_views(r@) == self@.contents,
    {
        &self.contents
    }

    /// The chunks of the current display text.
    pub fn chunks(&self) -> (r: &Vec<String>)
        ensures
            string_views(r@) == self@.chunks,
    {
        &self.chunks
    }

    /// The message that carries the cancel button, if one does.
    pub fn cancel_holder(&self) -> (r: Option<usize>)
        ensures
            match r {
                Some(i) => self@.cancel_at == Some(i as nat),
                None => self@.cancel_at is None,
            },
    {
        self.cancel_at
    }

    /// Whether the generation has ended.
    pub fn is_terminal(&self) -> (r: bool)
        ensures
            r == self@.terminal,
    {
        self.in_terminal_state
    }

    /// Takes a generated token at time `now_ms`, and gives the changes to make
    /// to the messages.
    pub fn new_token(&mut self, token: &str, now_ms: u64) -> (r: Vec<Action>)
        ensures
            (final(self)@, action_views(r@)) == after_token(old(self)@, token@, now_ms as int),
    {
        if self.in_terminal_state {
            let none: Vec<Action> = Vec::new();
            assert(action_views(none@) =~= Seq::<ActionView>::empty());
            return none;
        }
        let mut actions: Vec<Action> = Vec::new();
        if self.message.len() == 0 {
            actions.push(Action::AddCancel { index: 0 });
            self.cancel_at = Some(0);
        }
        let ghost first = action_views(actions@);
        push_all(&mut self.message, &chars_of(token));
        let markdown = self.prompts.markdown_chars(&self.message);
        self.chunks = chunk_text(&markdown);
        if now_ms > self.last_update_ms && now_ms - self.last_update_ms > self.update_interval_ms {
            let before = self.contents.len();
            if self.chunks.len() > before {
                self.cancel_at = Some(self.chunks.len() - 1);
            }
            let mut synced_actions = sync_contents(&mut self.contents, &self.chunks, true);
            let ghost tail = action_views(synced_actions@);
            actions.append(&mut synced_actions);
            assert(action_views(actions@) =~= first + tail);
            self.last_update_ms = now_ms;
        }
        proof {
            let s = old(self)@;
            if s.message.len() == 0 {
                assert(first =~= seq![ActionView::AddCancel(0)]);
            } else {
                assert(first =~= Seq::<ActionView>::empty());
            }
        }
        actions
    }

    /// The generation failed with the description `err`.
    pub fn error(&mut self, err: &str) -> (r: Vec<Action>)
        ensures
            (final(self)@, action_views(r@)) == after_error(old(self)@, err@),
    {
        self.on_error(&chars_of(err))
    }

    /// The generation was cancelled.
    pub fn cancelled(&mut self) -> (r: Vec<Action>)
        ensures
            (final(self)@, action_views(r@)) == after_error(old(self)@, cancelled_text()),
    {
        proof {
            reveal_strlit("The generation was cancelled.");
        }
        self.on_error(&chars_of("The generation was cancelled."))
    }

    /// The generation ended without error.
    pub fn finish(&mut self) -> (r: Vec<Action>)
        ensures
            (final(self)@, action_views(r@)) == after_finish(old(self)@),
    {
        if self.in_terminal_state {
            let none: Vec<Action> = Vec::new();
            assert(action_views(none@) =~= Seq::<ActionView>::empty());
            return none;
        }
        let mut actions = remove_cancels(self.contents.len());
        let ghost removed = action_views(actions@);
        let mut synced_actions = sync_contents(&mut self.contents, &self.chunks, false);
        let ghost tail = action_views(synced_actions@);
        actions.append(&mut synced_actions);
        assert(action_views(actions@) =~= removed + tail);
        self.in_terminal_state = true;
        self.cancel_at = None;
        actions
    }

    /// Takes the next event of the token channel at time `now_ms`: text goes
    /// to `new_token`, an error ends the output.
    pub fn on_event(&mut self, event: &Token, now_ms: u64) -> (r: Vec<Action>)
        ensures
            (final(self)@, action_views(r@)) == match event {
                Token::Token(t) => after_token(old(self)@, t@, now_ms as int),
                Token::Error(e) => after_error(old(self)@, e.text()),
            },
    {
        match event {
            Token::Token(t) => self.new_token(t.as_str(), now_ms),
            Token::Error(InferenceError::Cancelled) => self.cancelled(),
            Token::Error(InferenceError::Custom(m)) => self.error(m.as_str()),
        }
    }

    fn on_error(&mut self, text: &[char]) -> (r: Vec<Action>)
        ensures
            (final(self)@, action_views(r@)) == after_error(old(self)@, text@),
    {
        if self.in_terminal_state {
            let none: Vec<Action> = Vec::new();
            assert(action_views(none@) =~= Seq::<ActionView>::empty());
            return none;
        }
        let mut actions = strike_contents(&mut self.contents);
        let ghost struck_actions = action_views(actions@);
        actions.push(Action::Reply { content: string_of(text) });
        assert(action_views(actions@) =~= struck_actions.push(ActionView::Reply(text@)));
        self.in_terminal_state = true;
        self.cancel_at = None;
        actions
    }
}

/// Finishing leaves no cancel control: none of its actions attaches one, and
/// afterwards no message carries one.
pub proof fn lemma_finish_clears_cancel(s: OutputView)
    ensures
        after_finish(s).0.terminal,
        !s.terminal ==> after_finish(s).0.cancel_at is None,
        forall|i: int|
            0 <= i < after_finish(s).1.len() ==> !(#[trigger] after_finish(s).1[i] is AddCancel),
{
    if !s.terminal {
        let n = s.contents.len();
        let a = remove_all(n);
        let b = sync_actions(s.contents, s.chunks, false);
        assert forall|i: int| 0 <= i < b.len() implies !(#[trigger] b[i] is AddCancel) by {
            let e = edit_part(s.contents, s.chunks);
            if s.chunks.len() > n && i >= e.len() {
                assert(b[i] == replies(s.chunks, n as int, s.chunks.len() as int)[i - e.len()]);
            }
        }
        assert forall|i: int| 0 <= i < (a + b).len() implies !(#[trigger] (a + b)[i] is AddCancel) by {
            if i >= a.len() {
                assert((a + b)[i] == b[i - a.len()]);
            }
        }
    }
}

/// The output after each token of `tokens` in turn, each with its arrival
/// time, and all the actions that they gave.
pub open spec fn after_tokens(s: OutputView, tokens: Seq<(Seq<char>, int)>) -> (
    OutputView,
    Seq<ActionView>,
)
    decreases tokens.len(),
{
    if tokens.len() == 0 {
        (s, Seq::<ActionView>::empty())
    } else {
        let (s1, a1) = after_tokens(s, tokens.drop_last());
        let (s2, a2) = after_token(s1, tokens.last().0, tokens.last().1);
        (s2, a1 + a2)
    }
}

proof fn lemma_tokens_keep_live(s: OutputView, tokens: Seq<(Seq<char>, int)>)
    requires
        !s.terminal,
    ensures
        !after_tokens(s, tokens).0.terminal,
    decreases tokens.len(),
{
    if tokens.len() > 0 {
        lemma_tokens_keep_live(s, tokens.drop_last());
    }
}

proof fn lemma_tokens_after_end(s: OutputView, tokens: Seq<(Seq<char>, int)>)
    requires
        s.terminal,
    ensures
        after_tokens(s, tokens) == (s, Seq::<ActionView>::empty()),
    decreases tokens.len(),
{
    if tokens.len() > 0 {
        lemma_tokens_after_end(s, tokens.drop_last());
        assert(Seq::<ActionView>::empty() + Seq::<ActionView>::empty() =~= Seq::<ActionView>::empty());
    }
}

/// Cancellation ends the output once: whatever tokens came before, cancelling
/// a live output strikes every message and adds exactly one reply with the
/// cancellation text; after that, tokens, a finish or another error change
/// nothing and give no action.
pub proof fn lemma_cancel_is_final(
    s: OutputView,
    before: Seq<(Seq<char>, int)>,
    later: Seq<(Seq<char>, int)>,
    text: Seq<char>,
)
    requires
        !s.terminal,
    ensures
        after_error(after_tokens(s, before).0, cancelled_text()).0.terminal,
        after_error(after_tokens(s, before).0, cancelled_text()).0.cancel_at is None,
        after_error(after_tokens(s, before).0, cancelled_text()).0.contents.len()
            == after_tokens(s, before).0.contents.len(),
        after_error(after_tokens(s, before).0, cancelled_text()).1 == strike_all(
            after_tokens(s, before).0.contents,
        ).push(ActionView::Reply(cancelled_text())),
        after_tokens(after_error(after_tokens(s, before).0, cancelled_text()).0, later) == (
            after_error(after_tokens(s, before).0, cancelled_text()).0,
            Seq::<ActionView>::empty(),
        ),
        after_finish(after_error(after_tokens(s, before).0, cancelled_text()).0) == (
            after_error(after_tokens(s, before).0, cancelled_text()).0,
            Seq::<ActionView>::empty(),
        ),
        after_error(after_error(after_tokens(s, before).0, cancelled_text()).0, text) == (
            after_error(after_tokens(s, before).0, cancelled_text()).0,
            Seq::<ActionView>::empty(),
        ),
{
    lemma_tokens_keep_live(s, before);
    let ended = after_error(after_tokens(s, before).0, cancelled_text()).0;
    lemma_tokens_after_end(ended, later);
}

} // verus!
