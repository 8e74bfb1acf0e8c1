use vstd::prelude::*;

use crate::text::{chars_of, string_of};

verus! {

/// Why a generation ended early.
#[derive(Debug)]
pub enum InferenceError {
    /// The user asked to stop.
    Cancelled,
    /// The model runtime or the token channel failed; the description is kept verbatim.
    Custom(String),
}

/// What the user reads when a generation is cancelled.
pub open spec fn cancelled_text() -> Seq<char> {
    "The generation was cancelled."@
}

/// What the user reads when the token channel's receiver is gone.
pub open spec fn send_failed_text() -> Seq<char> {
    "Failed to send token to channel."@
}

impl InferenceError {
    pub open spec fn text(&self) -> Seq<char> {
        match self {
            InferenceError::Cancelled => cancelled_text(),
            InferenceError::Custom(m) => m@,
        }
    }

    /// An error with the description `s`.
    pub fn custom(s: &str) -> (r: Self)
        ensures
            r matches InferenceError::Custom(m) && m@ == s@,
    {
        InferenceError::Custom(string_of(&chars_of(s)))
    }

    /// The description shown to the user.
    pub fn message(&self) -> (r: String)
        ensures
            r@ == self.text(),
    {
        match self {
            InferenceError::Cancelled => {
                let s = String::from_str("The generation was cancelled.");
                proof {
                    reveal_strlit("The generation was cancelled.");
                }
                s
            },
            InferenceError::Custom(m) => m.clone(),
        }
    }
}

/// An event on a request's token channel.
#[derive(Debug)]
pub enum Token {
    /// Generated text.
    Token(String),
    /// The generation failed or was cancelled; nothing follows.
    Error(InferenceError),
}

/// What the per-token callback does with a produced token.
#[derive(Debug)]
pub enum Step {
    /// Send the text on the request's token channel and let the runtime go on.
    Forward(String),
    /// Stop the generation with this error.
    Halt(InferenceError),
}

/// What Verus sees of a decoder: how it stopped, if it did, and how many
/// tokens it forwarded.
pub struct DecodeView {
    pub session: u64,
    pub halted: Option<InferenceError>,
    pub forwarded: nat,
}

/// One token's decision: a decoder that has stopped stays stopped; else a
/// cancellation signal for `session` among those drained stops it; else the
/// token is forwarded.
pub open spec fn decode_step(s: DecodeView, drained: Seq<u64>) -> DecodeView {
    if s.halted is Some {
        s
    } else if drained.contains(s.session) {
        DecodeView { halted: Some(InferenceError::Cancelled), ..s }
    } else {
        DecodeView { forwarded: s.forwarded + 1, ..s }
    }
}

/// A decoder after one token per entry of `drains`, each entry holding the
/// cancellation signals drained before that token.
pub open spec fn decode_run(s: DecodeView, drains: Seq<Seq<u64>>) -> DecodeView
    decreases drains.len(),
{
    if drains.len() == 0 {
        s
    } else {
        decode_run(decode_step(s, drains[0]), drains.skip(1))
    }
}

/// The decisions of the inference worker for the request that it is decoding.
pub struct Decoder {
    session: u64,
    halted: Option<InferenceError>,
    forwarded: Ghost<nat>,
}

impl View for Decoder {
    type V = DecodeView;

    closed spec fn view(&self) -> DecodeView {
        DecodeView { session: self.session, halted: self.halted, forwarded: self.forwarded@ }
    }
}

impl Decoder {
    /// A decoder for `session` that has forwarded nothing.
    pub fn new(session: u64) -> (r: Self)
        ensures
            r@ == (DecodeView { session, halted: None, forwarded: 0 }),
    {
        Decoder { session, halted: None, forwarded: Ghost(0) }
    }

    /// The session that cancellation signals name.
    pub fn session(&self) -> (r: u64)
        ensures
            r == self@.session,
    {
        self.session
    }

    /// The error that stopped the generation, if it stopped.
    pub fn halted(&self) -> (r: &Option<InferenceError>)
        ensures
            *r == self@.halted,
    {
        &self.halted
    }

    /// Decides for one produced token, given the cancellation signals drained
    /// just before it.
    pub fn on_token(&mut self, drained: &[u64], token: &str) -> (r: Step)
        ensures
            final(self)@ == decode_step(old(self)@, drained@),
            match old(self)@.halted {
                Some(e) => r == Step::Halt(e),
                None => if drained@.contains(old(self)@.session) {
                    r == Step::Halt(InferenceError::Cancelled)
                } else {
                    r matches Step::Forward(t) && t@ == token@
                },
            },
    {
        if let Some(e) = &self.halted {
            return Step::Halt(e.clone_error());
        }
        let mut i: usize = 0;
        while i < drained.len()
            invariant
                i <= drained@.len(),
                *self == *old(self),
                self.halted is None,
                forall|k: int| 0 <= k < i ==> drained@[k] != self.session,
            decreases drained@.len() - i,
        {
            if drained[i] == self.session {
                assert(drained@[i as int] == self.session);
                self.halted = Some(InferenceError::Cancelled);
                return Step::Halt(InferenceError::Cancelled);
            }
            i = i + 1;
        }
        assert(!drained@.contains(self.session));
        self.forwarded = Ghost(self.forwarded@ + 1);
        Step::Forward(string_of(&chars_of(token)))
    }

    /// Records that the token channel's receiver is gone, and gives the error
    /// that stops the generation.
    pub fn on_send_failed(&mut self) -> (r: InferenceError)
        ensures
            r matches InferenceError::Custom(m) && m@ == send_failed_text(),
            final(self)@ == (DecodeView { halted: Some(r), ..old(self)@ }),
    {
        proof {
            reveal_strlit("Failed to send token to channel.");
        }
        let e = InferenceError::custom("Failed to send token to channel.");
        self.halted = Some(e.clone_error());
        e
    }

    /// The terminal token of the request once the runtime has returned, with
    /// the runtime's own description where it failed for a reason of its own.
    /// A stop decided here comes first; a clean return sends nothing, and the
    /// channel closes.
    pub fn conclude(self, engine_failure: Option<String>) -> (r: Option<Token>)
        ensures
            r == match self@.halted {
                Some(e) => Some(Token::Error(e)),
                None => match engine_failure {
                    Some(m) => Some(Token::Error(InferenceError::Custom(m))),
                    None => None,
                },
            },
    {
        match self.halted {
            Some(e) => Some(Token::Error(e)),
            None => match engine_failure {
                Some(m) => Some(Token::Error(InferenceError::Custom(m))),
                None => None,
            },
        }
    }
}

impl InferenceError {
    /// A copy of this error.
    pub fn clone_error(&self) -> (r: Self)
        ensures
            r == *self,
    {
        match self {
            InferenceError::Cancelled => InferenceError::Cancelled,
            InferenceError::Custom(m) => InferenceError::Custom(m.clone()),
        }
    }
}

/// A cancellation signal reaches the request being decoded in time: where the
/// signals drained before the `k`-th token name the session, the decoder
/// forwards at most `k` tokens and ends cancelled.
pub proof fn lemma_cancel_stops_within_one_token(session: u64, drains: Seq<Seq<u64>>, k: int)
    requires
        0 <= k < drains.len(),
        drains[k].contains(session),
    ensures
        decode_run(DecodeView { session, halted: None, forwarded: 0 }, drains).forwarded <= k,
        decode_run(DecodeView { session, halted: None, forwarded: 0 }, drains).halted == Some(
            InferenceError::Cancelled,
        ),
{
    lemma_run_bound(DecodeView { session, halted: None, forwarded: 0 }, drains, k);
}

proof fn lemma_run_halted(s: DecodeView, drains: Seq<Seq<u64>>)
    requires
        s.halted is Some,
    ensures
        decode_run(s, drains) == s,
    decreases drains.len(),
{
    if drains.len() > 0 {
        lemma_run_halted(s, drains.skip(1));
    }
}

proof fn lemma_run_bound(s: DecodeView, drains: Seq<Seq<u64>>, k: int)
    requires
        0 <= k < drains.len(),
        drains[k].contains(s.session),
        s.halted is None,
    ensures
        decode_run(s, drains).forwarded <= s.forwarded + k,
        decode_run(s, drains).halted == Some(InferenceError::Cancelled),
    decreases drains.len(),
{
    let next = decode_step(s, drains[0]);
    if k == 0 {
        lemma_run_halted(next, drains.skip(1));
    } else if next.halted is Some {
        lemma_run_halted(next, drains.skip(1));
    } else {
        assert(drains.skip(1)[k - 1] == drains[k]);
        lemma_run_bound(next, drains.skip(1), k - 1);
    }
}

} // verus!
