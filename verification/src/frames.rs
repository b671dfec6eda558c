//! Frame splitting for line-delimited server-sent-event streams.
//!
//! A frame boundary is a blank line, i.e. the two bytes `\n\n`. Everything
//! before the first boundary is a complete frame, trimmed of leading and
//! trailing whitespace; everything after the last boundary stays in the
//! buffer for the next append. `lemma_split_incremental` shows that cutting
//! the byte stream at arbitrary points and feeding the pieces one by one
//! yields the same frames as splitting the whole stream at once.

use vstd::prelude::*;

use crate::text::{trim_spec, trim_bytes, subrange_vec};

verus! {

/// Index of the first frame boundary (`\n\n`) in `s`, if there is one.
pub open spec fn first_boundary(s: Seq<u8>) -> Option<int>
    decreases s.len(),
{
    if s.len() < 2 {
        None
    } else if s[0] == 10 && s[1] == 10 {
        Some(0int)
    } else {
        match first_boundary(s.drop_first()) {
            Some(i) => Some(i + 1),
            None => None,
        }
    }
}

/// What `first_boundary` returns: the least position of two adjacent
/// newline bytes, or nothing if no such position exists.
pub proof fn lemma_first_boundary(s: Seq<u8>)
    ensures
        match first_boundary(s) {
            Some(i) => 0 <= i && i + 2 <= s.len() && s[i] == 10 && s[i + 1] == 10 && forall|
                j: int,
            | 0 <= j < i ==> !(#[trigger] s[j] == 10 && s[j + 1] == 10),
            None => forall|j: int|
                0 <= j && j + 2 <= s.len() ==> !(#[trigger] s[j] == 10 && s[j + 1] == 10),
        },
    decreases s.len(),
{
    if s.len() < 2 {
    } else if s[0] == 10 && s[1] == 10 {
    } else {
        lemma_first_boundary(s.drop_first());
        match first_boundary(s.drop_first()) {
            Some(i) => {
                assert(s.drop_first()[i] == s[i + 1]);
                assert(s.drop_first()[i + 1] == s[i + 2]);
                assert forall|j: int| 0 <= j < i + 1 implies !(#[trigger] s[j] == 10 && s[j + 1] == 10) by {
                    if j > 0 {
                        assert(s.drop_first()[j - 1] == s[j]);
                        assert(s.drop_first()[j] == s[j + 1]);
                    }
                }
            },
            None => {
                assert forall|j: int|
                    0 <= j && j + 2 <= s.len() implies !(#[trigger] s[j] == 10 && s[j + 1]
                    == 10) by {
                    if j > 0 {
                        assert(s.drop_first()[j - 1] == s[j]);
                        assert(s.drop_first()[j] == s[j + 1]);
                    }
                }
            },
        }
    }
}

/// `first_boundary` is determined by its characterization: a boundary at
/// `i` with none earlier is the first one.
pub proof fn lemma_first_boundary_at(s: Seq<u8>, i: int)
    requires
        0 <= i,
        i + 2 <= s.len(),
        s[i] == 10,
        s[i + 1] == 10,
        forall|j: int| 0 <= j < i ==> !(#[trigger] s[j] == 10 && s[j + 1] == 10),
    ensures
        first_boundary(s) == Some(i),
    decreases s.len(),
{
    if i == 0 {
    } else {
        assert(!(s[0] == 10 && s[1] == 10));
        assert forall|j: int| 0 <= j < i - 1 implies !(#[trigger] s.drop_first()[j] == 10
            && s.drop_first()[j + 1] == 10) by {
            assert(s.drop_first()[j] == s[j + 1]);
            assert(s.drop_first()[j + 1] == s[j + 2]);
        }
        assert(s.drop_first()[i - 1] == s[i]);
        assert(s.drop_first()[i] == s[i + 1]);
        lemma_first_boundary_at(s.drop_first(), i - 1);
    }
}

/// The complete frames contained in `s`, trimmed, in order.
pub open spec fn split_frames(s: Seq<u8>) -> Seq<Seq<u8>>
    decreases s.len(),
    via split_frames_decreases
{
    match first_boundary(s) {
        Some(i) => seq![trim_spec(s.take(i))] + split_frames(s.skip(i + 2)),
        None => Seq::empty(),
    }
}

#[via_fn]
proof fn split_frames_decreases(s: Seq<u8>) {
    lemma_first_boundary(s);
}

/// The partial frame left over after taking every complete frame out of `s`.
pub open spec fn split_rest(s: Seq<u8>) -> Seq<u8>
    decreases s.len(),
    via split_rest_decreases
{
    match first_boundary(s) {
        Some(i) => split_rest(s.skip(i + 2)),
        None => s,
    }
}

#[via_fn]
proof fn split_rest_decreases(s: Seq<u8>) {
    lemma_first_boundary(s);
}

/// Splitting is insensitive to where the byte stream is cut: the frames of
/// `a + b` are the frames of `a` followed by the frames of what is left of
/// `a` extended with `b`, and the leftovers agree as well. This is what
/// lets a session feed arbitrarily chunked reads through one buffer.
pub proof fn lemma_split_incremental(a: Seq<u8>, b: Seq<u8>)
    ensures
        split_frames(a + b) =~= split_frames(a) + split_frames(split_rest(a) + b),
        split_rest(a + b) == split_rest(split_rest(a) + b),
    decreases a.len(),
{
    lemma_first_boundary(a);
    match first_boundary(a) {
        None => {
            assert(split_rest(a) == a);
            assert(split_frames(a) + split_frames(a + b) =~= split_frames(a + b));
        },
        Some(i) => {
            assert forall|j: int| 0 <= j < i implies !(#[trigger] (a + b)[j] == 10 && (a + b)[j
                + 1] == 10) by {
                assert((a + b)[j] == a[j]);
                assert((a + b)[j + 1] == a[j + 1]);
            }
            assert((a + b)[i] == a[i]);
            assert((a + b)[i + 1] == a[i + 1]);
            lemma_first_boundary_at(a + b, i);
            assert((a + b).take(i) =~= a.take(i));
            assert((a + b).skip(i + 2) =~= a.skip(i + 2) + b);
            lemma_split_incremental(a.skip(i + 2), b);
            assert(split_frames(a + b) =~= seq![trim_spec(a.take(i))] + split_frames(
                a.skip(i + 2) + b,
            ));
            assert(split_frames(a) + split_frames(split_rest(a) + b) =~= seq![
                trim_spec(a.take(i)),
            ] + (split_frames(a.skip(i + 2)) + split_frames(split_rest(a.skip(i + 2)) + b)));
        },
    }
}

/// A byte stream cut into any list of chunks: the chunks concatenated.
pub open spec fn concat_chunks(chunks: Seq<Seq<u8>>) -> Seq<u8>
    decreases chunks.len(),
{
    if chunks.len() == 0 {
        Seq::empty()
    } else {
        concat_chunks(chunks.drop_last()) + chunks.last()
    }
}

/// The frames produced by feeding the chunks one by one through a buffer.
pub open spec fn feed_frames(chunks: Seq<Seq<u8>>) -> Seq<Seq<u8>>
    decreases chunks.len(),
{
    if chunks.len() == 0 {
        Seq::empty()
    } else {
        feed_frames(chunks.drop_last()) + split_frames(feed_rest(chunks.drop_last())
            + chunks.last())
    }
}

/// The buffer contents after feeding the chunks one by one.
pub open spec fn feed_rest(chunks: Seq<Seq<u8>>) -> Seq<u8>
    decreases chunks.len(),
{
    if chunks.len() == 0 {
        Seq::empty()
    } else {
        split_rest(feed_rest(chunks.drop_last()) + chunks.last())
    }
}

/// Feeding a well-formed stream piecewise, at arbitrary cut points, yields
/// exactly the frames of the whole stream fed at once.
pub proof fn lemma_feed_matches_whole(chunks: Seq<Seq<u8>>)
    ensures
        feed_frames(chunks) =~= split_frames(concat_chunks(chunks)),
        feed_rest(chunks) == split_rest(concat_chunks(chunks)),
    decreases chunks.len(),
{
    if chunks.len() == 0 {
        assert(first_boundary(Seq::<u8>::empty()) is None);
    } else {
        lemma_feed_matches_whole(chunks.drop_last());
        lemma_split_incremental(concat_chunks(chunks.drop_last()), chunks.last());
    }
}

/// Finds the first frame boundary in `buf`.
pub fn find_boundary(buf: &[u8]) -> (r: Option<usize>)
    ensures
        match r {
            Some(i) => first_boundary(buf@) == Some(i as int),
            None => first_boundary(buf@) is None,
        },
{
    if buf.len() < 2 {
        proof {
            lemma_first_boundary(buf@);
            if first_boundary(buf@) is Some {
                assert(first_boundary(buf@)->0 + 2 <= buf@.len());
            }
        }
        return None;
    }
    let mut i: usize = 0;
    while i < buf.len() - 1
        invariant
            buf@.len() >= 2,
            0 <= i,
            i + 2 <= buf@.len() + 1,
            forall|j: int| 0 <= j < i ==> !(#[trigger] buf@[j] == 10 && buf@[j + 1] == 10),
        decreases buf@.len() - i,
    {
        if buf[i] == 10 && buf[i + 1] == 10 {
            proof {
                lemma_first_boundary_at(buf@, i as int);
            }
            return Some(i);
        }
        i += 1;
    }
    proof {
        lemma_first_boundary(buf@);
        if first_boundary(buf@) is Some {
            let k = first_boundary(buf@)->0;
            assert(!(buf@[k] == 10 && buf@[k + 1] == 10));
        }
    }
    None
}

/// Takes every complete frame out of `buf`, leaving the partial tail.
pub fn take_frames(buf: &mut Vec<u8>) -> (frames: Vec<Vec<u8>>)
    ensures
        frames@.map_values(|f: Vec<u8>| f@) == split_frames(old(buf)@),
        final(buf)@ == split_rest(old(buf)@),
{
    let mut frames: Vec<Vec<u8>> = Vec::new();
    loop
        invariant
            split_frames(old(buf)@) =~= frames@.map_values(|f: Vec<u8>| f@) + split_frames(buf@),
            split_rest(old(buf)@) == split_rest(buf@),
        ensures
            frames@.map_values(|f: Vec<u8>| f@) =~= split_frames(old(buf)@),
            buf@ == split_rest(old(buf)@),
        decreases buf@.len(),
    {
        match find_boundary(buf.as_slice()) {
            Some(i) => {
                proof {
                    lemma_first_boundary(buf@);
                }
                assert(i + 2 <= buf.len());
                let ghost prev = buf@;
                let head = subrange_vec(buf.as_slice(), 0, i);
                let frame = trim_bytes(head.as_slice());
                let rest = subrange_vec(buf.as_slice(), i + 2, buf.len());
                frames.push(frame);
                *buf = rest;
                proof {
                    assert(prev.take(i as int) =~= prev.subrange(0, i as int));
                    assert(buf@ =~= prev.skip(i + 2));
                    assert(split_frames(prev) =~= seq![trim_spec(prev.take(i as int))]
                        + split_frames(prev.skip(i + 2)));
                    assert(frames@.map_values(|f: Vec<u8>| f@) =~= frames@.drop_last().map_values(
                        |f: Vec<u8>| f@,
                    ).push(frame@));
                    assert(frames@.drop_last().map_values(|f: Vec<u8>| f@) + split_frames(prev)
                        =~= frames@.map_values(|f: Vec<u8>| f@) + split_frames(prev.skip(i + 2)));
                }
            },
            None => {
                proof {
                    assert(split_frames(buf@) =~= Seq::<Seq<u8>>::empty());
                    assert(split_rest(buf@) == buf@);
                }
                break;
            },
        }
    }
    frames
}

} // verus!
