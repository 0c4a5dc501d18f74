//! Framing of pipe messages: every message is followed by an end-of-message
//! byte, and a reader cuts what it has received at those bytes.

use vstd::prelude::*;

use crate::text::{lemma_split_concat, lemma_split_no_sep, lemma_split_on_nonempty, split_on};

verus! {

/// The byte that ends every message on the pipe.
pub const EOF: u8 = 0x4;

/// The byte values of a list of byte vectors.
pub open spec fn frames_view(v: Seq<Vec<u8>>) -> Seq<Seq<u8>> {
    v.map_values(|f: Vec<u8>| f@)
}

/// The complete messages in `buf`: the pieces before each end byte.
pub open spec fn complete_frames(buf: Seq<u8>) -> Seq<Seq<u8>> {
    split_on(buf, EOF).drop_last()
}

/// How many bytes of `buf` the complete messages take, end bytes included.
pub open spec fn consumed_len(buf: Seq<u8>) -> int {
    buf.len() - split_on(buf, EOF).last().len()
}

/// The bytes a writer sends for a sequence of messages.
pub open spec fn framed(ps: Seq<Seq<u8>>) -> Seq<u8>
    decreases ps.len(),
{
    if ps.len() == 0 {
        Seq::empty()
    } else {
        framed(ps.drop_last()) + ps.last().push(EOF)
    }
}

/// A message may be sent when it holds no end byte.
pub open spec fn frameable(p: Seq<u8>) -> bool {
    !p.contains(EOF)
}

/// The message bytes followed by the end byte.
pub fn frame_message(payload: &[u8]) -> (res: Vec<u8>)
    ensures
        res@ == payload@.push(EOF),
{
    let mut res: Vec<u8> = Vec::new();
    for i in 0..payload.len()
        invariant
            res@ == payload@.take(i as int),
    {
        res.push(payload[i]);
    }
    assert(payload@.take(payload.len() as int) == payload@);
    res.push(EOF);
    res
}

/// Cuts received bytes into complete messages; returns them with the number
/// of bytes they take (the caller drops that many bytes and keeps the rest
/// for the next read).
pub fn split_frames(buf: &[u8]) -> (res: (Vec<Vec<u8>>, usize))
    ensures
        frames_view(res.0@) == complete_frames(buf@),
        res.1 == consumed_len(buf@),
{
    let mut frames: Vec<Vec<u8>> = Vec::new();
    let mut cur: Vec<u8> = Vec::new();
    let mut consumed: usize = 0;
    assert(buf@.take(0) =~= Seq::<u8>::empty());
    for i in 0..buf.len()
        invariant
            frames_view(frames@).push(cur@) == split_on(buf@.take(i as int), EOF),
            consumed == i - cur@.len(),
            cur@.len() <= i,
    {
        let ghost prefix = buf@.take(i as int);
        let ghost next = buf@.take(i + 1);
        assert(next.drop_last() == prefix);
        assert(next.last() == buf@[i as int]);
        let b = buf[i];
        if b == EOF {
            let ghost fv = frames_view(frames@);
            let mut done: Vec<u8> = Vec::new();
            std::mem::swap(&mut cur, &mut done);
            let ghost dv = done@;
            frames.push(done);
            assert(frames_view(frames@) =~= fv.push(dv));
            assert(frames_view(frames@).push(cur@) =~= split_on(prefix, EOF).push(Seq::empty()));
            consumed = i + 1;
        } else {
            let ghost parts = split_on(prefix, EOF);
            cur.push(b);
            assert(frames_view(frames@).push(cur@) =~= parts.update(
                parts.len() - 1,
                parts.last().push(b),
            ));
        }
    }
    assert(buf@.take(buf.len() as int) == buf@);
    proof {
        lemma_split_on_nonempty(buf@, EOF);
        assert(frames_view(frames@) =~= split_on(buf@, EOF).drop_last());
    }
    (frames, consumed)
}

/// Reading what a writer sent gives back the messages it framed, and
/// consumes all the bytes: cutting the framed bytes of messages without end
/// bytes returns those messages.
pub proof fn law_split_framed(ps: Seq<Seq<u8>>)
    requires
        forall|i: int| 0 <= i < ps.len() ==> frameable(#[trigger] ps[i]),
    ensures
        split_on(framed(ps), EOF) == ps.push(Seq::<u8>::empty()),
        complete_frames(framed(ps)) == ps,
        consumed_len(framed(ps)) == framed(ps).len(),
    decreases ps.len(),
{
    if ps.len() == 0 {
        assert(split_on(framed(ps), EOF) =~= ps.push(Seq::<u8>::empty()));
    } else {
        let init = ps.drop_last();
        let p = ps.last();
        assert forall|i: int| 0 <= i < init.len() implies frameable(#[trigger] init[i]) by {
            assert(init[i] == ps[i]);
        }
        law_split_framed(init);
        let a = framed(init);
        assert(a.len() == 0 || a.last() == EOF) by {
            if init.len() > 0 {
                assert(a == framed(init.drop_last()) + init.last().push(EOF));
            }
        }
        lemma_split_concat(a, p.push(EOF), EOF);
        assert(frameable(p)) by {
            assert(ps[ps.len() - 1] == p);
        }
        lemma_split_no_sep(p, EOF);
        assert(p.push(EOF).drop_last() == p);
        assert(split_on(p.push(EOF), EOF) == split_on(p, EOF).push(Seq::<u8>::empty()));
        assert(split_on(a, EOF).drop_last() =~= init);
        assert(split_on(framed(ps), EOF) =~= ps.push(Seq::<u8>::empty()));
    }
    assert(split_on(framed(ps), EOF).drop_last() =~= ps);
}

} // verus!
