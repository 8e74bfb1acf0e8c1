use vstd::prelude::*;

use crate::text::{push_all, string_of};

verus! {

/// Largest number of characters that a chunk holds, unless it is one word.
pub const MESSAGE_CHUNK_SIZE: usize = 1500;

/// The views of a sequence of character vectors.
pub open spec fn views(ws: Seq<Vec<char>>) -> Seq<Seq<char>> {
    ws.map_values(|w: Vec<char>| w@)
}

/// The views of a sequence of strings.
pub open spec fn string_views(ws: Seq<String>) -> Seq<Seq<char>> {
    ws.map_values(|w: String| w@)
}

/// The pieces of `s` between occurrences of `sep`; never empty.
pub open spec fn pieces(s: Seq<char>, sep: char) -> Seq<Seq<char>>
    decreases s.len(),
{
    if s.len() == 0 {
        seq![Seq::<char>::empty()]
    } else {
        let w = pieces(s.drop_last(), sep);
        if s.last() == sep {
            w.push(Seq::<char>::empty())
        } else {
            w.update(w.len() - 1, w.last().push(s.last()))
        }
    }
}

/// The pieces of `s` between single spaces.
pub open spec fn words(s: Seq<char>) -> Seq<Seq<char>> {
    pieces(s, ' ')
}

/// The pieces joined with one space between neighbours.
pub open spec fn joined(ws: Seq<Seq<char>>) -> Seq<char>
    decreases ws.len(),
{
    if ws.len() == 0 {
        Seq::<char>::empty()
    } else if ws.len() == 1 {
        ws[0]
    } else {
        joined(ws.drop_last()) + seq![' '] + ws.last()
    }
}

/// Words packed greedily into chunks: a word joins the last chunk, after a
/// space, while that keeps the chunk within `bound`; else it starts a new one.
pub open spec fn packed(ws: Seq<Seq<char>>, bound: nat) -> Seq<Seq<char>>
    decreases ws.len(),
{
    if ws.len() == 0 {
        Seq::<Seq<char>>::empty()
    } else {
        let p = packed(ws.drop_last(), bound);
        let w = ws.last();
        if p.len() == 0 {
            seq![w]
        } else if p.last().len() + 1 + w.len() > bound {
            p.push(w)
        } else {
            p.update(p.len() - 1, p.last() + seq![' '] + w)
        }
    }
}

/// The chunks of a display text.
pub open spec fn chunked(s: Seq<char>) -> Seq<Seq<char>> {
    packed(words(s), MESSAGE_CHUNK_SIZE as nat)
}

/// No space in `s`.
pub open spec fn spaceless(s: Seq<char>) -> bool {
    forall|i: int| 0 <= i < s.len() ==> s[i] != ' '
}

proof fn lemma_joined_extend_last(ws: Seq<Seq<char>>, t: Seq<char>)
    requires
        ws.len() >= 1,
    ensures
        joined(ws.update(ws.len() - 1, ws.last() + t)) == joined(ws) + t,
{
    let u = ws.update(ws.len() - 1, ws.last() + t);
    if ws.len() == 1 {
        assert(u[0] == ws[0] + t);
    } else {
        assert(u.drop_last() =~= ws.drop_last());
        assert(joined(ws.drop_last()) + seq![' '] + (ws.last() + t) =~= joined(ws.drop_last())
            + seq![' '] + ws.last() + t);
    }
}

proof fn lemma_joined_push(ws: Seq<Seq<char>>, w: Seq<char>)
    requires
        ws.len() >= 1,
    ensures
        joined(ws.push(w)) == joined(ws) + seq![' '] + w,
{
    assert(ws.push(w).drop_last() =~= ws);
}

proof fn lemma_words(s: Seq<char>)
    ensures
        words(s).len() >= 1,
        joined(words(s)) == s,
        forall|i: int| 0 <= i < words(s).len() ==> spaceless(#[trigger] words(s)[i]),
    decreases s.len(),
{
    if s.len() > 0 {
        let w = words(s.drop_last());
        lemma_words(s.drop_last());
        assert(words(s) == pieces(s, ' '));
        if s.last() == ' ' {
            lemma_joined_push(w, Seq::<char>::empty());
            assert(s.drop_last() + seq![' '] + Seq::<char>::empty() =~= s);
        } else {
            assert(w.last().push(s.last()) =~= w.last() + seq![s.last()]);
            lemma_joined_extend_last(w, seq![s.last()]);
            assert(s.drop_last() + seq![s.last()] =~= s);
            let u = words(s);
            assert forall|i: int| 0 <= i < u.len() implies spaceless(#[trigger] u[i]) by {
                if i == u.len() - 1 {
                    assert(spaceless(w[i]));
                }
            }
        }
    }
}

proof fn lemma_packed(ws: Seq<Seq<char>>, bound: nat)
    requires
        ws.len() >= 1,
        forall|i: int| 0 <= i < ws.len() ==> spaceless(#[trigger] ws[i]),
    ensures
        packed(ws, bound).len() >= 1,
        joined(packed(ws, bound)) == joined(ws),
        forall|i: int|
            0 <= i < packed(ws, bound).len() ==> (#[trigger] packed(ws, bound)[i]).len() <= bound
                || spaceless(packed(ws, bound)[i]),
    decreases ws.len(),
{
    let w = ws.last();
    assert(spaceless(ws[ws.len() - 1]));
    if ws.len() == 1 {
        assert(packed(ws.drop_last(), bound).len() == 0);
    } else {
        let q = ws.drop_last();
        lemma_packed(q, bound);
        let p = packed(q, bound);
        if p.last().len() + 1 + w.len() > bound {
            lemma_joined_push(p, w);
        } else {
            lemma_joined_extend_last(p, seq![' '] + w);
            assert(p.last() + seq![' '] + w =~= p.last() + (seq![' '] + w));
            assert(joined(p) + (seq![' '] + w) =~= joined(q) + seq![' '] + w);
        }
    }
}

/// Chunking keeps the text and the bound: the chunks joined with single spaces
/// give back the display text, so chunking them again gives the same chunks,
/// and a chunk longer than the bound is one word.
pub proof fn lemma_chunks_cover_text(s: Seq<char>)
    ensures
        joined(chunked(s)) == s,
        chunked(joined(chunked(s))) == chunked(s),
        forall|i: int|
            0 <= i < chunked(s).len() ==> (#[trigger] chunked(s)[i]).len()
                <= MESSAGE_CHUNK_SIZE || spaceless(chunked(s)[i]),
{
    lemma_words(s);
    lemma_packed(words(s), MESSAGE_CHUNK_SIZE as nat);
}

/// The pieces of `s` between occurrences of `sep`.
pub fn split_on(s: &[char], sep: char) -> (r: Vec<Vec<char>>)
    ensures
        views(r@) == pieces(s@, sep),
{
    let mut done: Vec<Vec<char>> = Vec::new();
    let mut current: Vec<char> = Vec::new();
    let mut i: usize = 0;
    assert(s@.subrange(0, 0) =~= Seq::<char>::empty());
    assert(views(done@).push(current@) =~= pieces(Seq::<char>::empty(), sep));
    while i < s.len()
        invariant
            i <= s@.len(),
            views(done@).push(current@) == pieces(s@.subrange(0, i as int), sep),
        decreases s@.len() - i,
    {
        let c = s[i];
        let ghost prev = s@.subrange(0, i as int);
        assert(s@.subrange(0, i + 1).drop_last() =~= prev);
        if c == sep {
            done.push(current);
            current = Vec::new();
            assert(views(done@).push(current@) =~= pieces(prev, sep).push(Seq::<char>::empty()));
        } else {
            let ghost w = pieces(prev, sep);
            current.push(c);
            assert(views(done@).push(current@) =~= w.update(w.len() - 1, w.last().push(c)));
        }
        i = i + 1;
    }
    assert(s@.subrange(0, i as int) =~= s@);
    done.push(current);
    assert(views(done@) =~= pieces(s@, sep));
    done
}

/// Packs words greedily into chunks of at most `bound` characters, where a
/// single word does not exceed it alone.
pub fn pack_words(ws: &Vec<Vec<char>>, bound: usize) -> (r: Vec<Vec<char>>)
    ensures
        views(r@) == packed(views(ws@), bound as nat),
{
    let mut chunks: Vec<Vec<char>> = Vec::new();
    let mut k: usize = 0;
    assert(views(ws@).subrange(0, 0) =~= Seq::<Seq<char>>::empty());
    assert(views(chunks@) =~= Seq::<Seq<char>>::empty());
    while k < ws.len()
        invariant
            k <= ws@.len(),
            views(chunks@) == packed(views(ws@).subrange(0, k as int), bound as nat),
        decreases ws@.len() - k,
    {
        let w = &ws[k];
        let ghost before = views(chunks@);
        assert(views(ws@).subrange(0, k + 1).drop_last() =~= views(ws@).subrange(0, k as int));
        assert(views(ws@).subrange(0, k + 1).last() == w@);
        if chunks.len() == 0 {
            let mut first: Vec<char> = Vec::new();
            push_all(&mut first, w);
            chunks.push(first);
            assert(views(chunks@) =~= seq![w@]);
        } else {
            let last_len = chunks[chunks.len() - 1].len();
            if last_len >= bound || w.len() >= bound - last_len {
                let mut next: Vec<char> = Vec::new();
                push_all(&mut next, w);
                chunks.push(next);
                assert(views(chunks@) =~= before.push(w@));
            } else {
                let mut last = chunks.pop().unwrap();
                assert(last@ == before.last());
                assert(views(chunks@) =~= before.drop_last());
                last.push(' ');
                push_all(&mut last, w);
                assert(last@ =~= before.last() + seq![' '] + w@);
                chunks.push(last);
                assert(views(chunks@) =~= before.update(
                    before.len() - 1,
                    before.last() + seq![' '] + w@,
                ));
            }
        }
        k = k + 1;
    }
    assert(views(ws@).subrange(0, k as int) =~= views(ws@));
    chunks
}

/// The chunks of a display text, as strings.
pub fn chunk_text(s: &[char]) -> (r: Vec<String>)
    ensures
        string_views(r@) == chunked(s@),
{
    let words = split_on(s, ' ');
    let chunks = pack_words(&words, MESSAGE_CHUNK_SIZE);
    let mut out: Vec<String> = Vec::new();
    let mut k: usize = 0;
    while k < chunks.len()
        invariant
            k <= chunks@.len(),
            views(chunks@) == chunked(s@),
            string_views(out@) == views(chunks@).subrange(0, k as int),
        decreases chunks@.len() - k,
    {
        let piece = string_of(&chunks[k]);
        assert(piece@ == views(chunks@)[k as int]);
        let ghost before = out@;
        out.push(piece);
        assert(out@ == before.push(piece));
        assert(string_views(out@) =~= string_views(before).push(piece@));
        assert(views(chunks@).subrange(0, k + 1) =~= views(chunks@).subrange(0, k as int).push(piece@));
        k = k + 1;
        assert(string_views(out@) =~= views(chunks@).subrange(0, k as int));
    }
    assert(views(chunks@).subrange(0, k as int) =~= views(chunks@));
    out
}

} // verus!
