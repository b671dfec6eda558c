//! Byte-level text helpers shared by the frame splitter and the extractor.
//!
//! All stream text is handled as UTF-8 bytes; the helpers here give the
//! executable operations (equality, prefix tests, trimming, concatenation)
//! together with the spec functions the rest of the crate states its
//! contracts over.

use vstd::prelude::*;
use vstd::utf8::{decode_utf8, encode_utf8, valid_utf8};

verus! {

/// ASCII whitespace. Frames are trimmed of these bytes only: SSE framing
/// never puts other whitespace at a frame's edges, and a byte-level trim
/// must not cut into multi-byte characters.
pub open spec fn is_space(b: u8) -> bool {
    b == 32 || (9 <= b && b <= 13)
}

/// Number of leading whitespace bytes of `s`.
pub open spec fn leading_spaces(s: Seq<u8>) -> int
    decreases s.len(),
{
    if s.len() == 0 {
        0
    } else if is_space(s[0]) {
        1 + leading_spaces(s.drop_first())
    } else {
        0
    }
}

/// Number of trailing whitespace bytes of `s`.
pub open spec fn trailing_spaces(s: Seq<u8>) -> int
    decreases s.len(),
{
    if s.len() == 0 {
        0
    } else if is_space(s[s.len() - 1]) {
        1 + trailing_spaces(s.drop_last())
    } else {
        0
    }
}

/// `s` with leading and trailing whitespace removed.
pub open spec fn trim_spec(s: Seq<u8>) -> Seq<u8> {
    let from = leading_spaces(s);
    let to = s.len() - trailing_spaces(s.skip(from));
    s.subrange(from, to)
}

proof fn lemma_leading_spaces_bound(s: Seq<u8>)
    ensures
        0 <= leading_spaces(s) <= s.len(),
        forall|i: int| 0 <= i < leading_spaces(s) ==> is_space(s[i]),
        leading_spaces(s) < s.len() ==> !is_space(s[leading_spaces(s)]),
    decreases s.len(),
{
    if s.len() > 0 && is_space(s[0]) {
        lemma_leading_spaces_bound(s.drop_first());
        assert forall|i: int| 0 <= i < leading_spaces(s) implies is_space(s[i]) by {
            if i > 0 {
                assert(is_space(s.drop_first()[i - 1]));
                assert(s.drop_first()[i - 1] == s[i]);
            }
        }
        if leading_spaces(s) < s.len() {
            assert(s.drop_first()[leading_spaces(s) - 1] == s[leading_spaces(s)]);
        }
    }
}

proof fn lemma_trailing_spaces_bound(s: Seq<u8>)
    ensures
        0 <= trailing_spaces(s) <= s.len(),
        forall|i: int| s.len() - trailing_spaces(s) <= i < s.len() ==> is_space(s[i]),
        trailing_spaces(s) < s.len() ==> !is_space(s[s.len() - 1 - trailing_spaces(s)]),
    decreases s.len(),
{
    if s.len() > 0 && is_space(s[s.len() - 1]) {
        lemma_trailing_spaces_bound(s.drop_last());
        assert forall|i: int| s.len() - trailing_spaces(s) <= i < s.len() implies is_space(
            s[i],
        ) by {
            if i < s.len() - 1 {
                assert(is_space(s.drop_last()[i]));
                assert(s.drop_last()[i] == s[i]);
            }
        }
        if trailing_spaces(s) < s.len() {
            assert(s.drop_last()[s.len() - 1 - trailing_spaces(s)] == s[s.len() - 1
                - trailing_spaces(s)]);
        }
    }
}

/// Byte equality of two slices.
pub fn bytes_eq(a: &[u8], b: &[u8]) -> (r: bool)
    ensures
        r <==> a@ == b@,
{
    if a.len() != b.len() {
        proof {
            assert(a@.len() != b@.len());
        }
        return false;
    }
    let mut i: usize = 0;
    while i < a.len()
        invariant
            0 <= i <= a@.len(),
            a@.len() == b@.len(),
            forall|j: int| 0 <= j < i ==> a@[j] == b@[j],
        decreases a@.len() - i,
    {
        if a[i] != b[i] {
            return false;
        }
        i += 1;
    }
    proof {
        assert(a@ =~= b@);
    }
    true
}

/// Whether `s` starts with `prefix`.
pub open spec fn has_prefix(s: Seq<u8>, prefix: Seq<u8>) -> bool {
    prefix.len() <= s.len() && s.take(prefix.len() as int) == prefix
}

/// Prefix test on slices.
pub fn starts_with(s: &[u8], prefix: &[u8]) -> (r: bool)
    ensures
        r <==> has_prefix(s@, prefix@),
{
    if prefix.len() > s.len() {
        return false;
    }
    let mut i: usize = 0;
    while i < prefix.len()
        invariant
            0 <= i <= prefix@.len(),
            prefix@.len() <= s@.len(),
            forall|j: int| 0 <= j < i ==> s@[j] == prefix@[j],
        decreases prefix@.len() - i,
    {
        if s[i] != prefix[i] {
            assert(s@.take(prefix@.len() as int)[i as int] != prefix@[i as int]);
            return false;
        }
        i += 1;
    }
    proof {
        assert(s@.take(prefix@.len() as int) =~= prefix@);
    }
    true
}

/// Appends all of `src` to `dst`.
pub fn push_bytes(dst: &mut Vec<u8>, src: &[u8])
    ensures
        final(dst)@ == old(dst)@ + src@,
{
    let mut i: usize = 0;
    while i < src.len()
        invariant
            0 <= i <= src@.len(),
            dst@ == old(dst)@ + src@.take(i as int),
        decreases src@.len() - i,
    {
        dst.push(src[i]);
        proof {
            assert(old(dst)@ + src@.take(i + 1 as int) =~= (old(dst)@ + src@.take(i as int)).push(
                src@[i as int],
            ));
        }
        i += 1;
    }
    proof {
        assert(src@.take(src@.len() as int) =~= src@);
    }
}

/// Copies `src[from..to]` into a fresh vector.
pub fn subrange_vec(src: &[u8], from: usize, to: usize) -> (r: Vec<u8>)
    requires
        0 <= from <= to <= src@.len(),
    ensures
        r@ == src@.subrange(from as int, to as int),
{
    let mut r: Vec<u8> = Vec::new();
    let mut i: usize = from;
    while i < to
        invariant
            from <= i <= to <= src@.len(),
            r@ == src@.subrange(from as int, i as int),
        decreases to - i,
    {
        r.push(src[i]);
        proof {
            assert(src@.subrange(from as int, i + 1 as int) =~= src@.subrange(
                from as int,
                i as int,
            ).push(src@[i as int]));
        }
        i += 1;
    }
    r
}

/// Whitespace test on a single byte.
pub fn is_space_byte(b: u8) -> (r: bool)
    ensures
        r == is_space(b),
{
    b == 32 || (9 <= b && b <= 13)
}

/// Trims leading and trailing ASCII whitespace from `s`.
pub fn trim_bytes(s: &[u8]) -> (r: Vec<u8>)
    ensures
        r@ == trim_spec(s@),
{
    proof {
        lemma_leading_spaces_bound(s@);
    }
    let mut from: usize = 0;
    while from < s.len() && is_space_byte(s[from])
        invariant
            0 <= from <= s@.len(),
            forall|i: int| 0 <= i < from ==> is_space(s@[i]),
            leading_spaces(s@) >= from,
        decreases s@.len() - from,
    {
        proof {
            lemma_leading_spaces_prefix(s@, from + 1);
        }
        from += 1;
    }
    proof {
        lemma_leading_spaces_bound(s@);
        assert(leading_spaces(s@) == from);
    }
    proof {
        lemma_trailing_spaces_bound(s@.skip(from as int));
    }
    let mut to: usize = s.len();
    while to > from && is_space_byte(s[to - 1])
        invariant
            from <= to <= s@.len(),
            forall|i: int| to <= i < s@.len() ==> is_space(s@[i]),
            trailing_spaces(s@.skip(from as int)) >= s@.len() - to,
        decreases to,
    {
        proof {
            lemma_trailing_spaces_suffix(s@.skip(from as int), s@.len() - to + 1);
            assert(s@.skip(from as int)[to - 1 - from] == s@[to - 1]);
        }
        to -= 1;
    }
    proof {
        lemma_trailing_spaces_bound(s@.skip(from as int));
        if to > from {
            assert(s@.skip(from as int)[to - 1 - from] == s@[to - 1]);
        }
        assert(trailing_spaces(s@.skip(from as int)) == s@.len() - to);
        assert(trim_spec(s@) == s@.subrange(from as int, to as int));
    }
    subrange_vec(s, from, to)
}

proof fn lemma_leading_spaces_prefix(s: Seq<u8>, k: int)
    requires
        0 <= k <= s.len(),
        forall|i: int| 0 <= i < k ==> is_space(s[i]),
    ensures
        leading_spaces(s) >= k,
    decreases k,
{
    if k > 0 {
        assert(is_space(s[0]));
        assert forall|i: int| 0 <= i < k - 1 implies is_space(s.drop_first()[i]) by {
            assert(s.drop_first()[i] == s[i + 1]);
            assert(is_space(s[i + 1]));
        }
        lemma_leading_spaces_prefix(s.drop_first(), k - 1);
        assert(leading_spaces(s) == 1 + leading_spaces(s.drop_first()));
    } else {
        lemma_leading_spaces_bound(s);
    }
}

/// What decoding rejected bytes reports: the rendered `Utf8Error`, a
/// function of the bytes alone.
pub uninterp spec fn utf8_error_detail(bytes: Seq<u8>) -> Seq<char>;

/// Relies on `core::str::from_utf8`: it accepts exactly the valid UTF-8
/// byte sequences, and its error is determined by the bytes alone.
#[verifier::external_body]
pub fn utf8_error(bytes: &[u8]) -> (r: Option<String>)
    ensures
        match r {
            None => valid_utf8(bytes@),
            Some(d) => !valid_utf8(bytes@) && d@ == utf8_error_detail(bytes@),
        },
{
    match core::str::from_utf8(bytes) {
        Ok(_) => None,
        Err(e) => Some(format!("{}", e)),
    }
}

/// Relies on `String::from_utf8`: it accepts exactly valid UTF-8 and keeps
/// the bytes.
#[verifier::external_body]
pub fn utf8_to_string(bytes: Vec<u8>) -> (r: Option<String>)
    ensures
        valid_utf8(bytes@) <==> r is Some,
        r matches Some(s) ==> encode_utf8(s@) == bytes@,
{
    String::from_utf8(bytes).ok()
}

/// UTF-8 encoding distributes over concatenation.
pub proof fn lemma_encode_concat(c1: Seq<char>, c2: Seq<char>)
    ensures
        encode_utf8(c1 + c2) =~= encode_utf8(c1) + encode_utf8(c2),
    decreases c1.len(),
{
    if c1.len() == 0 {
        assert(c1 + c2 =~= c2);
    } else {
        assert((c1 + c2).drop_first() =~= c1.drop_first() + c2);
        lemma_encode_concat(c1.drop_first(), c2);
        assert((c1 + c2)[0] == c1[0]);
    }
}

/// String slice equality, decided bytewise.
pub fn str_eq(a: &str, b: &str) -> (r: bool)
    ensures
        r == (a@ == b@),
{
    broadcast use vstd::utf8::encode_utf8_decode_utf8;

    let r = bytes_eq(a.as_bytes(), b.as_bytes());
    proof {
        if encode_utf8(a@) == encode_utf8(b@) {
            assert(decode_utf8(encode_utf8(a@)) =~= a@);
            assert(decode_utf8(encode_utf8(b@)) =~= b@);
            assert(a@ =~= b@);
        }
    }
    r
}

/// Concatenation of two string slices.
pub fn concat2(a: &str, b: &str) -> (r: String)
    ensures
        r@ == a@ + b@,
{
    broadcast use vstd::utf8::encode_utf8_valid_utf8, vstd::utf8::encode_utf8_decode_utf8;

    let mut bytes: Vec<u8> = Vec::new();
    push_bytes(&mut bytes, a.as_bytes());
    push_bytes(&mut bytes, b.as_bytes());
    proof {
        lemma_encode_concat(a@, b@);
        assert(bytes@ =~= encode_utf8(a@ + b@));
    }
    match utf8_to_string(bytes) {
        Some(s) => {
            proof {
                assert(decode_utf8(encode_utf8(s@)) =~= s@);
                assert(decode_utf8(encode_utf8(a@ + b@)) =~= a@ + b@);
            }
            s
        },
        None => vstd::pervasive::unreached(),
    }
}

/// Concatenation of three string slices.
pub fn concat3(a: &str, b: &str, c: &str) -> (r: String)
    ensures
        r@ == a@ + b@ + c@,
{
    broadcast use vstd::utf8::encode_utf8_valid_utf8, vstd::utf8::encode_utf8_decode_utf8;

    let mut bytes: Vec<u8> = Vec::new();
    push_bytes(&mut bytes, a.as_bytes());
    push_bytes(&mut bytes, b.as_bytes());
    push_bytes(&mut bytes, c.as_bytes());
    proof {
        lemma_encode_concat(a@, b@);
        lemma_encode_concat(a@ + b@, c@);
        assert(bytes@ =~= encode_utf8(a@ + b@ + c@));
    }
    match utf8_to_string(bytes) {
        Some(s) => {
            proof {
                assert(decode_utf8(encode_utf8(s@)) =~= s@);
                assert(decode_utf8(encode_utf8(a@ + b@ + c@)) =~= a@ + b@ + c@);
            }
            s
        },
        None => vstd::pervasive::unreached(),
    }
}

/// The character for one decimal digit.
pub open spec fn digit_char(d: int) -> char
    recommends
        0 <= d < 10,
{
    ((48 + d) as u8) as char
}

/// The decimal digits of a number, most significant first.
pub open spec fn decimal_of(n: int) -> Seq<char>
    recommends
        n >= 0,
    decreases n,
    via decimal_of_decreases
{
    if n < 10 {
        seq![digit_char(n)]
    } else {
        decimal_of(n / 10).push(digit_char(n % 10))
    }
}

#[via_fn]
proof fn decimal_of_decreases(n: int) {
    if n >= 10 {
        vstd::arithmetic::div_mod::lemma_div_decreases(n, 10);
    }
}

/// The bytes read as characters, for ASCII content.
pub open spec fn chars_of_bytes(bs: Seq<u8>) -> Seq<char> {
    bs.map_values(|b: u8| b as char)
}

/// Renders a number in decimal.
pub fn decimal_string(n: u64) -> (r: String)
    ensures
        r@ == decimal_of(n as int),
{
    broadcast use vstd::utf8::encode_utf8_valid_utf8, vstd::utf8::encode_utf8_decode_utf8,
        vstd::utf8::is_ascii_chars_encode_utf8;

    // digits, least significant first
    let mut digits: Vec<u8> = Vec::new();
    if n == 0 {
        digits.push(48);
        proof {
            assert(digits@.reverse() =~= seq![48u8]);
            assert(decimal_of(0) =~= chars_of_bytes(digits@.reverse()));
        }
    }
    let mut m: u64 = n;
    while m > 0
        invariant
            forall|k: int| 0 <= k < digits@.len() ==> 48 <= #[trigger] digits@[k] < 58,
            digits@.len() > 0 || m > 0,
            m > 0 ==> decimal_of(n as int) =~= decimal_of(m as int) + chars_of_bytes(
                digits@.reverse(),
            ),
            m == 0 ==> decimal_of(n as int) =~= chars_of_bytes(digits@.reverse()),
        decreases m,
    {
        let ghost old_digits = digits@;
        let ghost old_m = m as int;
        let d = (m % 10) as u8 + 48;
        digits.push(d);
        m = m / 10;
        proof {
            vstd::arithmetic::div_mod::lemma_div_decreases(old_m, 10);
            assert(digits@.reverse() =~= seq![d] + old_digits.reverse());
            assert(chars_of_bytes(digits@.reverse()) =~= seq![digit_char(old_m % 10)]
                + chars_of_bytes(old_digits.reverse()));
            if old_m >= 10 {
                assert(decimal_of(old_m) == decimal_of(old_m / 10).push(digit_char(old_m % 10)));
                assert(decimal_of(old_m / 10) + (seq![digit_char(old_m % 10)] + chars_of_bytes(
                    old_digits.reverse(),
                )) =~= (decimal_of(old_m) + chars_of_bytes(old_digits.reverse())));
            } else {
                assert(decimal_of(old_m) =~= seq![digit_char(old_m)]);
            }
        }
    }
    // the digits in reading order
    let mut out: Vec<u8> = Vec::new();
    let mut i: usize = digits.len();
    while i > 0
        invariant
            i <= digits@.len(),
            forall|k: int| 0 <= k < digits@.len() ==> 48 <= #[trigger] digits@[k] < 58,
            out@ =~= digits@.reverse().take(digits@.len() - i),
        decreases i,
    {
        i -= 1;
        out.push(digits[i]);
        proof {
            assert(digits@.reverse()[digits@.len() - 1 - i] == digits@[i as int]);
            assert(out@ =~= digits@.reverse().take(digits@.len() - i));
        }
    }
    proof {
        assert(out@ =~= digits@.reverse());
    }
    let ghost cs = chars_of_bytes(out@);
    proof {
        assert(vstd::utf8::is_ascii_chars(cs)) by {
            assert forall|k: int| 0 <= k < cs.len() implies '\0' <= #[trigger] cs[k]
                <= '\u{7f}' by {
                assert(48 <= out@[k] < 58);
            }
        }
        assert(encode_utf8(cs) =~= out@);
    }
    match utf8_to_string(out) {
        Some(s) => {
            proof {
                assert(decode_utf8(encode_utf8(s@)) =~= s@);
                assert(decode_utf8(encode_utf8(cs)) =~= cs);
                if n == 0 {
                    assert(digits@.len() > 0 || n == 0);
                }
                assert(s@ =~= decimal_of(n as int));
            }
            s
        },
        None => vstd::pervasive::unreached(),
    }
}

proof fn lemma_trailing_spaces_suffix(s: Seq<u8>, k: int)
    requires
        0 <= k <= s.len(),
        forall|i: int| s.len() - k <= i < s.len() ==> is_space(s[i]),
    ensures
        trailing_spaces(s) >= k,
    decreases k,
{
    if k > 0 {
        assert(is_space(s[s.len() - 1]));
        assert forall|i: int| s.len() - 1 - (k - 1) <= i < s.len() - 1 implies is_space(
            s.drop_last()[i],
        ) by {
            assert(s.drop_last()[i] == s[i]);
            assert(is_space(s[i]));
        }
        lemma_trailing_spaces_suffix(s.drop_last(), k - 1);
        assert(trailing_spaces(s) == 1 + trailing_spaces(s.drop_last()));
    } else {
        lemma_trailing_spaces_bound(s);
    }
}

} // verus!
