//! Payload extraction from one event frame.
//!
//! A frame may span several lines; only lines carrying the `data: ` prefix
//! are payload candidates. When several data lines share a frame the last
//! one wins — observed provider behaviour that is preserved on purpose. A
//! frame with no data line carries no payload and is skipped silently.

use vstd::prelude::*;
use vstd::utf8::{encode_utf8, is_ascii_chars, is_ascii_chars_encode_utf8};

use crate::text::{has_prefix, starts_with, subrange_vec};

verus! {

/// The byte prefix that marks a data-bearing line.
pub open spec fn data_prefix() -> Seq<u8> {
    encode_utf8("data: "@)
}

/// Index of the first newline in `s`, if any.
pub open spec fn first_nl(s: Seq<u8>) -> Option<int>
    decreases s.len(),
{
    if s.len() == 0 {
        None
    } else if s[0] == 10 {
        Some(0int)
    } else {
        match first_nl(s.drop_first()) {
            Some(i) => Some(i + 1),
            None => None,
        }
    }
}

/// What `first_nl` returns: the least newline position, or nothing.
pub proof fn lemma_first_nl(s: Seq<u8>)
    ensures
        match first_nl(s) {
            Some(i) => 0 <= i < s.len() && s[i] == 10 && forall|j: int|
                0 <= j < i ==> #[trigger] s[j] != 10,
            None => forall|j: int| 0 <= j < s.len() ==> #[trigger] s[j] != 10,
        },
    decreases s.len(),
{
    if s.len() > 0 && s[0] != 10 {
        lemma_first_nl(s.drop_first());
        assert forall|j: int| 1 <= j < s.len() implies s.drop_first()[j - 1] == s[j] by {}
    }
}

/// A newline at `i` with none earlier is the first one.
pub proof fn lemma_first_nl_at(s: Seq<u8>, i: int)
    requires
        0 <= i < s.len(),
        s[i] == 10,
        forall|j: int| 0 <= j < i ==> #[trigger] s[j] != 10,
    ensures
        first_nl(s) == Some(i),
    decreases s.len(),
{
    if i > 0 {
        assert forall|j: int| 0 <= j < i - 1 implies #[trigger] s.drop_first()[j] != 10 by {
            assert(s.drop_first()[j] == s[j + 1]);
        }
        assert(s.drop_first()[i - 1] == s[i]);
        lemma_first_nl_at(s.drop_first(), i - 1);
    }
}

/// A line with its trailing carriage return removed, as `str::lines` does.
pub open spec fn strip_cr(l: Seq<u8>) -> Seq<u8> {
    if l.len() > 0 && l.last() == 13 {
        l.drop_last()
    } else {
        l
    }
}

/// The lines of a frame: split at `\n`, each without a trailing `\r`, and
/// with no final empty line after a trailing newline.
pub open spec fn lines_of(s: Seq<u8>) -> Seq<Seq<u8>>
    decreases s.len(),
    via lines_of_decreases
{
    if s.len() == 0 {
        Seq::empty()
    } else {
        match first_nl(s) {
            Some(i) => seq![strip_cr(s.take(i))] + lines_of(s.skip(i + 1)),
            None => seq![strip_cr(s)],
        }
    }
}

#[via_fn]
proof fn lines_of_decreases(s: Seq<u8>) {
    lemma_first_nl(s);
}

/// The payload of the last data-bearing line among `lines`, if any.
pub open spec fn last_data(lines: Seq<Seq<u8>>) -> Option<Seq<u8>>
    decreases lines.len(),
{
    if lines.len() == 0 {
        None
    } else {
        match last_data(lines.drop_first()) {
            Some(p) => Some(p),
            None => if has_prefix(lines[0], data_prefix()) {
                Some(lines[0].skip(data_prefix().len() as int))
            } else {
                None
            },
        }
    }
}

/// The payload a frame designates: the last `data: ` line wins; a frame
/// with no data line yields nothing.
pub open spec fn extract_spec(frame: Seq<u8>) -> Option<Seq<u8>> {
    last_data(lines_of(frame))
}

/// The second operand only where the first carries nothing.
pub open spec fn opt_or(a: Option<Seq<u8>>, b: Option<Seq<u8>>) -> Option<Seq<u8>> {
    match a {
        Some(p) => Some(p),
        None => b,
    }
}

/// Finds the first newline at or after `from`.
fn find_nl(frame: &[u8], from: usize) -> (r: Option<usize>)
    requires
        from <= frame@.len(),
    ensures
        match r {
            Some(i) => from <= i < frame@.len() && frame@[i as int] == 10 && forall|j: int|
                from <= j < i ==> #[trigger] frame@[j] != 10,
            None => forall|j: int| from <= j < frame@.len() ==> #[trigger] frame@[j] != 10,
        },
{
    let mut i: usize = from;
    while i < frame.len()
        invariant
            from <= i <= frame@.len(),
            forall|j: int| from <= j < i ==> #[trigger] frame@[j] != 10,
        decreases frame@.len() - i,
    {
        if frame[i] == 10 {
            return Some(i);
        }
        i += 1;
    }
    None
}

/// Extracts the designated payload from one frame.
pub fn extract_payload(frame: &[u8]) -> (r: Option<Vec<u8>>)
    ensures
        match r {
            Some(p) => extract_spec(frame@) == Some(p@),
            None => extract_spec(frame@) is None,
        },
{
    proof {
        reveal_strlit("data: ");
        assert(is_ascii_chars("data: "@));
        is_ascii_chars_encode_utf8("data: "@);
        assert(data_prefix().len() == 6);
        assert(frame@.skip(0) =~= frame@);
    }
    let mut best: Option<Vec<u8>> = None;
    let mut pos: usize = 0;
    loop
        invariant
            pos <= frame@.len(),
            data_prefix().len() == 6,
            extract_spec(frame@) == opt_or(
                last_data(lines_of(frame@.skip(pos as int))),
                match best {
                    Some(p) => Some(p@),
                    None => None,
                },
            ),
        ensures
            extract_spec(frame@) == (match best {
                Some(p) => Some(p@),
                None => None,
            }),
        decreases frame@.len() - pos,
    {
        let ghost rest = frame@.skip(pos as int);
        if pos == frame.len() {
            proof {
                assert(rest =~= Seq::<u8>::empty());
                assert(lines_of(rest) =~= Seq::<Seq<u8>>::empty());
            }
            break;
        }
        let end: usize;
        let has_nl: bool;
        match find_nl(frame, pos) {
            Some(i) => {
                end = i;
                has_nl = true;
                proof {
                    assert forall|j: int| 0 <= j < i - pos implies #[trigger] rest[j] != 10 by {
                        assert(rest[j] == frame@[pos + j]);
                    }
                    assert(rest[i - pos] == frame@[i as int]);
                    lemma_first_nl_at(rest, i - pos);
                }
            },
            None => {
                end = frame.len();
                has_nl = false;
                proof {
                    assert forall|j: int| 0 <= j < rest.len() implies #[trigger] rest[j] != 10 by {
                        assert(rest[j] == frame@[pos + j]);
                    }
                    lemma_first_nl(rest);
                }
            },
        }
        let ghost raw_line = if has_nl {
            rest.take(end - pos)
        } else {
            rest
        };
        let mut line = subrange_vec(frame, pos, end);
        proof {
            assert(raw_line =~= frame@.subrange(pos as int, end as int));
        }
        if line.len() > 0 && line[line.len() - 1] == 13 {
            line.pop();
        }
        proof {
            assert(line@ == strip_cr(raw_line));
            if has_nl {
                assert(first_nl(rest) == Some(end - pos));
                assert(lines_of(rest) =~= seq![strip_cr(raw_line)] + lines_of(
                    rest.skip(end - pos + 1),
                ));
            } else {
                assert(first_nl(rest) is None);
                assert(lines_of(rest) =~= seq![strip_cr(raw_line)]);
            }
        }
        if starts_with(line.as_slice(), "data: ".as_bytes()) {
            let payload = subrange_vec(line.as_slice(), 6, line.len());
            proof {
                assert(payload@ =~= line@.skip(data_prefix().len() as int));
            }
            best = Some(payload);
        }
        if has_nl {
            proof {
                assert(lines_of(rest).drop_first() =~= lines_of(rest.skip(end - pos + 1)));
                assert(frame@.skip(end + 1 as int) =~= rest.skip(end - pos + 1));
            }
            pos = end + 1;
        } else {
            proof {
                assert(lines_of(rest).drop_first() =~= Seq::<Seq<u8>>::empty());
            }
            break;
        }
    }
    best
}

} // verus!
