//! The textual pixel-image codec.
//!
//! The format is ASCII text. The header line reads `P3 <width> <height> 255`
//! and ends at the first line break; the rest of the file holds
//! `width * height * 3` whitespace-separated decimal integers, the red,
//! green and blue channels of each pixel in row-major order. No alpha is
//! ever written; decoding always yields fully opaque pixels. Malformed
//! input is reported as a typed failure, never silently repaired.

use vstd::prelude::*;

use crate::color::Pixel;
use crate::geometry::{Size, Vec2};
use crate::sprite::{Sprite, SpriteModel};

verus! {

/// ASCII whitespace: space, tab, line feed, form feed, carriage return.
pub open spec fn is_space(b: u8) -> bool {
    b == 32 || b == 9 || b == 10 || b == 12 || b == 13
}

/// Executable mirror of [`is_space`].
pub fn byte_is_space(b: u8) -> (r: bool)
    ensures
        r == is_space(b),
{
    b == 32 || b == 9 || b == 10 || b == 12 || b == 13
}

/// Length of the maximal non-whitespace prefix of `s`.
pub open spec fn token_len(s: Seq<u8>) -> nat
    decreases s.len(),
{
    if s.len() == 0 || is_space(s[0]) {
        0
    } else {
        1 + token_len(s.skip(1))
    }
}

/// The token prefix never runs past the end of the input.
proof fn lemma_token_len_le(s: Seq<u8>)
    ensures
        token_len(s) <= s.len(),
    decreases s.len(),
{
    if s.len() != 0 && !is_space(s[0]) {
        lemma_token_len_le(s.skip(1));
    }
}

/// The whitespace-separated tokens of `s`, in order.
pub open spec fn spec_tokens(s: Seq<u8>) -> Seq<Seq<u8>>
    decreases s.len(),
    via spec_tokens_decreases
{
    if s.len() == 0 {
        Seq::empty()
    } else if is_space(s[0]) {
        spec_tokens(s.skip(1))
    } else {
        let n = (1 + token_len(s.skip(1))) as int;
        seq![s.take(n)] + spec_tokens(s.skip(n))
    }
}

#[via_fn]
proof fn spec_tokens_decreases(s: Seq<u8>) {
    if s.len() != 0 && !is_space(s[0]) {
        lemma_token_len_le(s.skip(1));
    }
}

/// The byte sequences of a vector of byte vectors.
pub open spec fn token_views(toks: Seq<Vec<u8>>) -> Seq<Seq<u8>> {
    toks.map_values(|t: Vec<u8>| t@)
}

/// A maximal non-whitespace run is characterized by its first whitespace
/// (or end-of-input) position.
proof fn lemma_token_scan(s: Seq<u8>, k: int)
    requires
        0 <= k <= s.len(),
        forall|j: int| 0 <= j < k ==> !is_space(s[j]),
        k == s.len() || is_space(s[k]),
    ensures
        token_len(s) == k,
    decreases k,
{
    if k == 0 {
    } else {
        assert(!is_space(s[0]));
        let t = s.skip(1);
        assert forall|j: int| 0 <= j < k - 1 implies !is_space(t[j]) by {
            assert(t[j] == s[j + 1]);
        }
        if k < s.len() {
            assert(t[k - 1] == s[k]);
        }
        lemma_token_scan(t, k - 1);
    }
}

/// Split `s` into its whitespace-separated tokens.
pub fn tokenize(s: &[u8]) -> (toks: Vec<Vec<u8>>)
    ensures
        token_views(toks@) == spec_tokens(s@),
{
    let len = s.len();
    let mut toks: Vec<Vec<u8>> = Vec::new();
    let mut i: usize = 0;
    proof {
        assert(s@.skip(0) =~= s@);
        assert(token_views(toks@) + spec_tokens(s@) =~= spec_tokens(s@));
    }
    while i < len
        invariant
            len == s@.len(),
            i <= len,
            spec_tokens(s@) == token_views(toks@) + spec_tokens(s@.skip(i as int)),
        decreases len - i,
    {
        if byte_is_space(s[i]) {
            proof {
                assert(s@.skip(i as int).skip(1) =~= s@.skip(i + 1));
            }
            i = i + 1;
        } else {
            let start = i;
            let mut tok: Vec<u8> = Vec::new();
            while i < len && !byte_is_space(s[i])
                invariant
                    len == s@.len(),
                    start <= i <= len,
                    tok@ =~= s@.subrange(start as int, i as int),
                    forall|j: int| start <= j < i ==> !is_space(s@[j]),
                decreases len - i,
            {
                tok.push(s[i]);
                proof {
                    assert(tok@ =~= s@.subrange(start as int, i + 1));
                }
                i = i + 1;
            }
            proof {
                let rest = s@.skip(start as int);
                assert forall|j: int| 0 <= j < i - start implies !is_space(rest[j]) by {
                    assert(rest[j] == s@[start + j]);
                }
                if i < len {
                    assert(rest[i - start] == s@[i as int]);
                }
                lemma_token_scan(rest, i - start);
                assert(rest.take(i - start) =~= s@.subrange(start as int, i as int));
                assert(rest.skip(i - start) =~= s@.skip(i as int));
                assert(spec_tokens(rest) == seq![tok@] + spec_tokens(s@.skip(i as int)));
                assert(token_views(toks@.push(tok)) =~= token_views(toks@) + seq![tok@]);
                assert(token_views(toks@.push(tok)) + spec_tokens(s@.skip(i as int))
                    =~= token_views(toks@) + spec_tokens(s@.skip(start as int)));
            }
            toks.push(tok);
        }
    }
    proof {
        assert(s@.skip(len as int) =~= Seq::<u8>::empty());
        assert(token_views(toks@) + spec_tokens(s@.skip(len as int)) =~= token_views(toks@));
    }
    toks
}


/// An ASCII decimal digit.
pub open spec fn is_digit(b: u8) -> bool {
    48 <= b <= 57
}

/// Every byte of `t` is a decimal digit.
pub open spec fn all_digits(t: Seq<u8>) -> bool {
    forall|i: int| 0 <= i < t.len() ==> is_digit(t[i])
}

/// The value of a sequence of decimal digits, most significant first.
pub open spec fn digits_value(t: Seq<u8>) -> int
    decreases t.len(),
{
    if t.len() == 0 {
        0
    } else {
        10 * digits_value(t.drop_last()) + (t.last() - 48)
    }
}

/// A token accepted as a non-negative integer: decimal digits, optionally
/// preceded by a plus sign.
pub open spec fn is_uint_token(t: Seq<u8>) -> bool {
    if t.len() > 0 && t[0] == 43 {
        t.len() > 1 && all_digits(t.skip(1))
    } else {
        t.len() > 0 && all_digits(t)
    }
}

/// The value of a token accepted by [`is_uint_token`].
pub open spec fn uint_value(t: Seq<u8>) -> int {
    if t.len() > 0 && t[0] == 43 {
        digits_value(t.skip(1))
    } else {
        digits_value(t)
    }
}

/// A digit string has a non-negative value.
proof fn lemma_digits_value_nonneg(t: Seq<u8>)
    requires
        all_digits(t),
    ensures
        digits_value(t) >= 0,
    decreases t.len(),
{
    if t.len() > 0 {
        assert(all_digits(t.drop_last()));
        lemma_digits_value_nonneg(t.drop_last());
    }
}

/// Reading one more digit multiplies the prefix value by ten and adds it.
proof fn lemma_digits_value_take_step(t: Seq<u8>, i: int)
    requires
        0 <= i < t.len(),
    ensures
        digits_value(t.take(i + 1)) == 10 * digits_value(t.take(i)) + (t[i] - 48),
{
    assert(t.take(i + 1).drop_last() =~= t.take(i));
    assert(t.take(i + 1).last() == t[i]);
}

/// The value of a digit string is at least the value of any of its prefixes.
proof fn lemma_digits_value_prefix_le(t: Seq<u8>, i: int)
    requires
        all_digits(t),
        0 <= i <= t.len(),
    ensures
        digits_value(t.take(i)) <= digits_value(t),
    decreases t.len() - i,
{
    if i == t.len() {
        assert(t.take(i) =~= t);
    } else {
        lemma_digits_value_take_step(t, i);
        assert(all_digits(t.take(i)));
        lemma_digits_value_nonneg(t.take(i));
        lemma_digits_value_prefix_le(t, i + 1);
    }
}

/// Parse a token as a non-negative integer no greater than `bound`.
/// Succeeds exactly on the tokens [`is_uint_token`] accepts whose value
/// fits the bound, and returns that value.
pub fn parse_uint(t: &[u8], bound: u64) -> (r: Option<u64>)
    ensures
        match r {
            Some(v) => is_uint_token(t@) && uint_value(t@) == v && v <= bound,
            None => !(is_uint_token(t@) && uint_value(t@) <= bound),
        },
{
    let len = t.len();
    let start: usize = if len > 0 && t[0] == 43 { 1 } else { 0 };
    if len == start {
        return None;
    }
    let ghost digits = t@.skip(start as int);
    proof {
        if start == 0 {
            assert(digits =~= t@);
        }
    }
    let mut i: usize = start;
    while i < len
        invariant
            len == t@.len(),
            start <= i <= len,
            start < len,
            start == (if t@.len() > 0 && t@[0] == 43 { 1int } else { 0int }),
            digits == t@.skip(start as int),
            forall|j: int| 0 <= j < i - start ==> is_digit(digits[j]),
        decreases len - i,
    {
        let b = t[i];
        if b < 48 || b > 57 {
            proof {
                assert(digits[i - start] == t@[i as int]);
                assert(!is_digit(digits[i - start]));
                assert(!all_digits(digits));
            }
            return None;
        }
        proof {
            assert(digits[i - start] == t@[i as int]);
        }
        i = i + 1;
    }
    proof {
        assert(all_digits(digits));
        assert(is_uint_token(t@));
        assert(uint_value(t@) == digits_value(digits));
    }
    let mut acc: u64 = 0;
    let mut i: usize = start;
    while i < len
        invariant
            len == t@.len(),
            start <= i <= len,
            start < len,
            start == (if t@.len() > 0 && t@[0] == 43 { 1int } else { 0int }),
            digits == t@.skip(start as int),
            all_digits(digits),
            acc == digits_value(digits.take(i - start)),
            acc <= bound,
        decreases len - i,
    {
        let b = t[i];
        proof {
            assert(digits[i - start] == t@[i as int]);
            assert(is_digit(b));
        }
        let d: u64 = (b - 48) as u64;
        proof {
            lemma_digits_value_take_step(digits, i - start);
        }
        let next: u128 = (acc as u128) * 10 + (d as u128);
        if next > bound as u128 {
            proof {
                assert(digits_value(digits.take(i - start + 1)) == next);
                lemma_digits_value_prefix_le(digits, i - start + 1);
                assert(digits_value(digits) > bound);
                if start == 0 {
                    assert(digits =~= t@);
                }
                assert(uint_value(t@) == digits_value(digits));
            }
            return None;
        }
        acc = next as u64;
        i = i + 1;
    }
    proof {
        assert(digits.take(len - start) =~= digits);
    }
    Some(acc)
}

/// The shortest decimal representation of `n`: its digits, most
/// significant first, with no leading zeros (a single zero for zero).
pub open spec fn dec_bytes(n: nat) -> Seq<u8>
    decreases n,
{
    if n < 10 {
        seq![(48 + n) as u8]
    } else {
        dec_bytes(n / 10) + seq![(48 + n % 10) as u8]
    }
}

/// A decimal representation consists of digits alone.
pub proof fn lemma_dec_bytes_digits(n: nat)
    ensures
        dec_bytes(n).len() >= 1,
        all_digits(dec_bytes(n)),
    decreases n,
{
    if n >= 10 {
        lemma_dec_bytes_digits(n / 10);
        assert(forall|i: int| 0 <= i < dec_bytes(n).len() - 1
            ==> dec_bytes(n)[i] == dec_bytes(n / 10)[i]);
    }
}

/// Reading back the decimal representation of `n` yields `n`.
pub proof fn lemma_dec_bytes_value(n: nat)
    ensures
        digits_value(dec_bytes(n)) == n,
    decreases n,
{
    if n < 10 {
        assert(dec_bytes(n) == seq![(48 + n) as u8]);
        assert(dec_bytes(n).drop_last() =~= Seq::<u8>::empty());
        assert(dec_bytes(n).last() == (48 + n) as u8);
        assert((48 + n) as u8 == 48 + n);
        assert(digits_value(Seq::<u8>::empty()) == 0);
        assert(digits_value(dec_bytes(n)) == 10 * 0 + ((48 + n) - 48));
    } else {
        lemma_dec_bytes_value(n / 10);
        assert(dec_bytes(n).drop_last() =~= dec_bytes(n / 10));
        assert(dec_bytes(n).last() == (48 + n % 10) as u8);
        assert((48 + n % 10) as u8 == 48 + n % 10);
        assert(digits_value(dec_bytes(n)) == 10 * (n / 10) + n % 10);
        assert(n == 10 * (n / 10) + n % 10) by {
            vstd::arithmetic::div_mod::lemma_fundamental_div_mod(n as int, 10);
        }
    }
}

/// Append a copy of every byte of `src` to `dst`.
pub fn push_all(dst: &mut Vec<u8>, src: &[u8])
    ensures
        final(dst)@ == old(dst)@ + src@,
{
    let len = src.len();
    let mut i: usize = 0;
    while i < len
        invariant
            len == src@.len(),
            i <= len,
            dst@ == old(dst)@ + src@.take(i as int),
        decreases len - i,
    {
        dst.push(src[i]);
        proof {
            assert(old(dst)@ + src@.take(i + 1) =~= (old(dst)@ + src@.take(i as int)).push(src@[i as int]));
        }
        i = i + 1;
    }
    proof {
        assert(src@.take(len as int) =~= src@);
    }
}

/// Render `n` in decimal.
pub fn u32_to_dec(n: u32) -> (out: Vec<u8>)
    ensures
        out@ == dec_bytes(n as nat),
{
    let mut rev: Vec<u8> = Vec::new();
    let mut m: u32 = n;
    loop
        invariant_except_break
            m > 0 || rev@.len() == 0,
            dec_bytes(n as nat) =~= (
                if rev@.len() == 0 {
                    dec_bytes(m as nat)
                } else {
                    dec_bytes(m as nat) + rev@.reverse()
                }
            ),
        ensures
            rev@.len() > 0,
            dec_bytes(n as nat) =~= rev@.reverse(),
        decreases m,
    {
        let d: u8 = (48 + (m % 10) as u8) as u8;
        let m2 = m / 10;
        proof {
            let r = rev@;
            assert(r.push(d).reverse() =~= seq![d] + r.reverse());
            if m >= 10 {
                assert(dec_bytes(m as nat) == dec_bytes((m / 10) as nat) + seq![d]);
                if r.len() == 0 {
                    assert(dec_bytes(n as nat) =~= dec_bytes(m2 as nat) + r.push(d).reverse());
                } else {
                    assert(dec_bytes(m2 as nat) + seq![d] + r.reverse()
                        =~= dec_bytes(m2 as nat) + r.push(d).reverse());
                    assert(dec_bytes(n as nat) =~= dec_bytes(m2 as nat) + r.push(d).reverse());
                }
            } else {
                assert(dec_bytes(m as nat) == seq![d]);
                if r.len() == 0 {
                    assert(dec_bytes(n as nat) =~= r.push(d).reverse());
                } else {
                    assert(seq![d] + r.reverse() =~= r.push(d).reverse());
                    assert(dec_bytes(n as nat) =~= r.push(d).reverse());
                }
            }
        }
        rev.push(d);
        m = m2;
        if m == 0 {
            break;
        }
    }
    let mut out: Vec<u8> = Vec::new();
    let rlen = rev.len();
    let mut i: usize = 0;
    while i < rlen
        invariant
            rlen == rev@.len(),
            i <= rlen,
            out@ =~= rev@.reverse().take(i as int),
        decreases rlen - i,
    {
        let b = rev[rlen - 1 - i];
        proof {
            assert(rev@.reverse()[i as int] == rev@[rlen - 1 - i]);
            assert(out@.push(b) =~= rev@.reverse().take(i + 1));
        }
        out.push(b);
        i = i + 1;
    }
    proof {
        assert(rev@.reverse().take(rlen as int) =~= rev@.reverse());
    }
    out
}


/// Why decoding failed.
#[derive(Clone, Copy, PartialEq, Eq, Structural, Debug)]
pub enum DecodeError {
    /// The input has no line break separating header from body.
    MalformedFile,
    /// The header does not hold exactly four tokens, or a dimension is not
    /// a representable non-negative integer.
    InvalidHeader,
    /// The format tag is not the literal `P3`.
    UnsupportedFormat,
    /// The maximum channel value is not the literal `255`.
    UnsupportedDepth,
    /// The body holds fewer tokens than the header promises.
    TruncatedData,
    /// A body token is not a valid 8-bit unsigned integer.
    InvalidPixelValue,
}

/// Index of the first line feed in `s`, or `-1` if there is none.
pub open spec fn first_newline(s: Seq<u8>) -> int
    decreases s.len(),
{
    if s.len() == 0 {
        -1
    } else if s[0] == 10 {
        0
    } else {
        let r = first_newline(s.skip(1));
        if r < 0 {
            -1
        } else {
            1 + r
        }
    }
}

/// The first line feed is characterized by scanning: everything before
/// position `k` is not a line feed, and `k` is one (or the end).
pub(crate) proof fn lemma_first_newline_scan(s: Seq<u8>, k: int)
    requires
        0 <= k <= s.len(),
        forall|j: int| 0 <= j < k ==> s[j] != 10,
        k == s.len() || s[k] == 10,
    ensures
        first_newline(s) == (if k == s.len() { -1int } else { k }),
    decreases k,
{
    if k == 0 {
    } else {
        let t = s.skip(1);
        assert forall|j: int| 0 <= j < k - 1 implies t[j] != 10 by {
            assert(t[j] == s[j + 1]);
        }
        if k < s.len() {
            assert(t[k - 1] == s[k]);
        }
        lemma_first_newline_scan(t, k - 1);
    }
}

/// Where there is a first line feed, it lies in range and is a line feed.
pub(crate) proof fn lemma_first_newline_props(s: Seq<u8>)
    ensures
        first_newline(s) >= 0 ==> 0 <= first_newline(s) < s.len() && s[first_newline(s)] == 10,
    decreases s.len(),
{
    if s.len() > 0 && s[0] != 10 {
        lemma_first_newline_props(s.skip(1));
    }
}

/// The format tag the codec accepts: `P3`.
pub open spec fn tok_p3() -> Seq<u8> {
    seq![80u8, 51u8]
}

/// The only accepted maximum channel value: the literal `255`.
pub open spec fn tok_255() -> Seq<u8> {
    seq![50u8, 53u8, 53u8]
}

/// A header dimension: a non-negative integer that fits the grid type.
pub open spec fn valid_dim(t: Seq<u8>) -> bool {
    is_uint_token(t) && uint_value(t) <= u32::MAX
}

/// A body token: a non-negative integer that fits one 8-bit channel.
pub open spec fn valid_channel(t: Seq<u8>) -> bool {
    is_uint_token(t) && uint_value(t) <= 255
}

/// What decoding yields on every input: the header line (up to the first
/// line break) must read `P3 <width> <height> 255` exactly; the body must
/// supply at least `width * height * 3` channel tokens, consumed row-major
/// with any surplus ignored; each failure is a typed error. The decoded
/// canvas sits at the origin and is fully opaque.
pub open spec fn spec_decode(s: Seq<u8>) -> Result<SpriteModel, DecodeError> {
    if first_newline(s) < 0 {
        Err(DecodeError::MalformedFile)
    } else {
        let k = first_newline(s);
        let ht = spec_tokens(s.take(k));
        let bt = spec_tokens(s.skip(k + 1));
        if ht.len() != 4 {
            Err(DecodeError::InvalidHeader)
        } else if ht[0] != tok_p3() {
            Err(DecodeError::UnsupportedFormat)
        } else if !valid_dim(ht[1]) || !valid_dim(ht[2]) {
            Err(DecodeError::InvalidHeader)
        } else if ht[3] != tok_255() {
            Err(DecodeError::UnsupportedDepth)
        } else {
            let w = uint_value(ht[1]) as nat;
            let h = uint_value(ht[2]) as nat;
            if bt.len() < 3 * w * h {
                Err(DecodeError::TruncatedData)
            } else if exists|i: int| 0 <= i < 3 * w * h && !valid_channel(bt[i]) {
                Err(DecodeError::InvalidPixelValue)
            } else {
                Ok(
                    SpriteModel {
                        origin_x: 0,
                        origin_y: 0,
                        width: w,
                        height: h,
                        pixels: Seq::new(
                            w * h,
                            |i: int|
                                Pixel {
                                    r: uint_value(bt[3 * i]) as u8,
                                    g: uint_value(bt[3 * i + 1]) as u8,
                                    b: uint_value(bt[3 * i + 2]) as u8,
                                    a: 255u8,
                                },
                        ),
                    },
                )
            }
        }
    }
}

/// Does this token read `P3`?
fn token_is_p3(t: &Vec<u8>) -> (r: bool)
    ensures
        r == (t@ == tok_p3()),
{
    let r = t.len() == 2 && t[0] == 80 && t[1] == 51;
    proof {
        if r {
            assert(t@ =~= tok_p3());
        } else {
            assert(tok_p3()[0] == 80 && tok_p3()[1] == 51);
        }
    }
    r
}

/// Does this token read `255`?
fn token_is_255(t: &Vec<u8>) -> (r: bool)
    ensures
        r == (t@ == tok_255()),
{
    let r = t.len() == 3 && t[0] == 50 && t[1] == 53 && t[2] == 53;
    proof {
        if r {
            assert(t@ =~= tok_255());
        } else {
            assert(tok_255()[0] == 50 && tok_255()[1] == 53 && tok_255()[2] == 53);
        }
    }
    r
}

/// Decode a textual pixel image. Succeeds exactly when [`spec_decode`]
/// does, with the same typed failure otherwise; never panics and never
/// repairs malformed input.
pub fn decode(data: &[u8]) -> (r: Result<Sprite, DecodeError>)
    ensures
        match r {
            Ok(sprite) => sprite@.wf() && spec_decode(data@) == Ok::<SpriteModel, DecodeError>(sprite@),
            Err(e) => spec_decode(data@) == Err::<SpriteModel, DecodeError>(e),
        },
{
    let len = data.len();
    let mut k: usize = 0;
    while k < len && data[k] != 10
        invariant
            len == data@.len(),
            k <= len,
            forall|j: int| 0 <= j < k ==> data@[j] != 10,
        decreases len - k,
    {
        k = k + 1;
    }
    proof {
        lemma_first_newline_scan(data@, k as int);
    }
    if k == len {
        return Err(DecodeError::MalformedFile);
    }

    let header = vstd::slice::slice_subrange(data, 0, k);
    let ht = tokenize(header);
    proof {
        assert(data@.take(k as int) =~= data@.subrange(0, k as int));
        assert(token_views(ht@).len() == ht@.len());
    }
    let ghost sht = spec_tokens(data@.take(first_newline(data@)));
    proof {
        assert(sht == token_views(ht@));
    }
    if ht.len() != 4 {
        return Err(DecodeError::InvalidHeader);
    }
    proof {
        assert(sht[0] == ht@[0]@ && sht[1] == ht@[1]@ && sht[2] == ht@[2]@ && sht[3] == ht@[3]@);
    }
    if !token_is_p3(&ht[0]) {
        return Err(DecodeError::UnsupportedFormat);
    }
    let w64 = match parse_uint(ht[1].as_slice(), 0xffff_ffffu64) {
        Some(v) => v,
        None => {
            return Err(DecodeError::InvalidHeader);
        },
    };
    let h64 = match parse_uint(ht[2].as_slice(), 0xffff_ffffu64) {
        Some(v) => v,
        None => {
            return Err(DecodeError::InvalidHeader);
        },
    };
    if !token_is_255(&ht[3]) {
        return Err(DecodeError::UnsupportedDepth);
    }
    let w = w64 as u32;
    let h = h64 as u32;
    let ghost gw = uint_value(sht[1]) as nat;
    let ghost gh = uint_value(sht[2]) as nat;
    proof {
        assert(gw == w as nat);
        assert(gh == h as nat);
    }

    let body = vstd::slice::slice_subrange(data, k + 1, len);
    let bt = tokenize(body);
    proof {
        assert(data@.skip(first_newline(data@) + 1) =~= data@.subrange(k + 1, len as int));
    }
    let ghost sbt = spec_tokens(data@.skip(first_newline(data@) + 1));
    proof {
        assert(sbt == token_views(bt@));
        assert(sbt.len() == bt@.len());
    }
    let bt_len = bt.len();

    let cells = match (w as usize).checked_mul(h as usize) {
        Some(c) => c,
        None => {
            proof {
                assert(gw * gh > usize::MAX);
                assert(3 * gw * gh >= gw * gh) by (nonlinear_arith)
                    requires
                        gw >= 0,
                        gh >= 0,
                ;
                assert(sbt.len() < 3 * gw * gh);
            }
            return Err(DecodeError::TruncatedData);
        },
    };
    let need = match cells.checked_mul(3) {
        Some(c) => c,
        None => {
            proof {
                assert(cells * 3 > usize::MAX);
                assert(3 * gw * gh == 3 * (gw * gh)) by (nonlinear_arith);
                assert(sbt.len() < 3 * gw * gh);
            }
            return Err(DecodeError::TruncatedData);
        },
    };
    proof {
        assert(3 * gw * gh == 3 * (gw * gh)) by (nonlinear_arith);
        assert(need == 3 * gw * gh);
    }
    if bt_len < need {
        return Err(DecodeError::TruncatedData);
    }

    let ghost f = |i: int|
        Pixel {
            r: uint_value(sbt[3 * i]) as u8,
            g: uint_value(sbt[3 * i + 1]) as u8,
            b: uint_value(sbt[3 * i + 2]) as u8,
            a: 255u8,
        };
    let mut pixels: Vec<Pixel> = Vec::new();
    let mut px: usize = 0;
    while px < cells
        invariant
            cells == gw * gh,
            3 * cells == need,
            need == 3 * gw * gh,
            need <= bt@.len(),
            sbt == token_views(bt@),
            f == (|i: int|
                Pixel {
                    r: uint_value(sbt[3 * i]) as u8,
                    g: uint_value(sbt[3 * i + 1]) as u8,
                    b: uint_value(sbt[3 * i + 2]) as u8,
                    a: 255u8,
                }),
            px <= cells,
            pixels@.len() == px,
            forall|j: int| 0 <= j < 3 * px ==> valid_channel(sbt[j]),
            forall|j: int| 0 <= j < px ==> pixels@[j] == f(j),
            (exists|i: int| 0 <= i < 3 * gw * gh && !valid_channel(sbt[i])) ==> spec_decode(
                data@,
            ) == Err::<SpriteModel, DecodeError>(DecodeError::InvalidPixelValue),
        decreases cells - px,
    {
        let base = 3 * px;
        let rv = match parse_uint(bt[base].as_slice(), 255) {
            Some(v) => v,
            None => {
                proof {
                    assert(sbt[base as int] == bt@[base as int]@);
                    assert(!valid_channel(sbt[base as int]));
                    assert(0 <= base && (base as int) < 3 * gw * gh && !valid_channel(sbt[base as int]));
                }
                return Err(DecodeError::InvalidPixelValue);
            },
        };
        let gv = match parse_uint(bt[base + 1].as_slice(), 255) {
            Some(v) => v,
            None => {
                proof {
                    assert(sbt[base + 1] == bt@[base + 1]@);
                    assert(0 <= base + 1 && base + 1 < 3 * gw * gh && !valid_channel(sbt[base + 1]));
                }
                return Err(DecodeError::InvalidPixelValue);
            },
        };
        let bv = match parse_uint(bt[base + 2].as_slice(), 255) {
            Some(v) => v,
            None => {
                proof {
                    assert(sbt[base + 2] == bt@[base + 2]@);
                    assert(0 <= base + 2 && base + 2 < 3 * gw * gh && !valid_channel(sbt[base + 2]));
                }
                return Err(DecodeError::InvalidPixelValue);
            },
        };
        let p = Pixel { r: rv as u8, g: gv as u8, b: bv as u8, a: 255 };
        proof {
            assert(sbt[base as int] == bt@[base as int]@);
            assert(sbt[base + 1] == bt@[base + 1]@);
            assert(sbt[base + 2] == bt@[base + 2]@);
            assert(3 * (px as int) == base as int);
            assert(p == f(px as int));
        }
        pixels.push(p);
        px = px + 1;
    }
    proof {
        assert(forall|j: int| 0 <= j < 3 * gw * gh ==> valid_channel(sbt[j]));
        assert(!(exists|i: int| 0 <= i < 3 * gw * gh && !valid_channel(sbt[i])));
        assert(pixels@ =~= Seq::new(gw * gh, f));
    }
    let sprite = Sprite::new(Vec2::new(0, 0), Size::new(w, h), pixels);
    proof {
        assert(spec_decode(data@) == Ok::<SpriteModel, DecodeError>(sprite@));
    }
    Ok(sprite)
}

/// What encoding emits: the header line `P3 <width> <height> 255`, then
/// each pixel's red, green and blue channels in decimal, row-major, every
/// token followed by one separator. No alpha is written.
pub open spec fn spec_header(w: nat, h: nat) -> Seq<u8> {
    seq![80u8, 51u8, 32u8] + dec_bytes(w) + seq![32u8] + dec_bytes(h) + seq![
        32u8,
        50u8,
        53u8,
        53u8,
        10u8,
    ]
}

/// The encoded channels of one pixel: `<r> <g> <b> `.
pub open spec fn spec_encode_pixel(p: Pixel) -> Seq<u8> {
    dec_bytes(p.r as nat) + seq![32u8] + dec_bytes(p.g as nat) + seq![32u8] + dec_bytes(
        p.b as nat,
    ) + seq![32u8]
}

/// The encoded body: every pixel in order.
pub open spec fn spec_encode_body(pixels: Seq<Pixel>) -> Seq<u8>
    decreases pixels.len(),
{
    if pixels.len() == 0 {
        Seq::empty()
    } else {
        spec_encode_pixel(pixels[0]) + spec_encode_body(pixels.skip(1))
    }
}

/// The full encoded image.
pub open spec fn spec_encode(m: SpriteModel) -> Seq<u8> {
    spec_header(m.width, m.height) + spec_encode_body(m.pixels)
}

/// Appending a pixel to the image appends its encoding to the body.
proof fn lemma_encode_body_push(pixels: Seq<Pixel>, p: Pixel)
    ensures
        spec_encode_body(pixels.push(p)) == spec_encode_body(pixels) + spec_encode_pixel(p),
    decreases pixels.len(),
{
    if pixels.len() == 0 {
        reveal_with_fuel(spec_encode_body, 3);
        assert(pixels.push(p)[0] == p);
        assert(pixels.push(p).skip(1) =~= Seq::<Pixel>::empty());
        assert(spec_encode_body(pixels.push(p)) =~= spec_encode_body(pixels) + spec_encode_pixel(p));
    } else {
        assert(pixels.push(p).skip(1) =~= pixels.skip(1).push(p));
        lemma_encode_body_push(pixels.skip(1), p);
        assert(pixels.push(p)[0] == pixels[0]);
        let a = spec_encode_pixel(pixels[0]);
        let b = spec_encode_body(pixels.skip(1));
        let c = spec_encode_pixel(p);
        assert(spec_encode_body(pixels.push(p)) == a + (b + c));
        assert(a + (b + c) =~= (a + b) + c);
        assert(spec_encode_body(pixels) + spec_encode_pixel(p) == (a + b) + c);
    }
}

/// Encode a canvas as textual pixel-image bytes.
pub fn encode(sprite: &Sprite) -> (out: Vec<u8>)
    requires
        sprite@.wf(),
    ensures
        out@ == spec_encode(sprite@),
{
    let ghost header = spec_header(sprite@.width, sprite@.height);
    let mut out: Vec<u8> = Vec::new();
    out.push(80);
    out.push(51);
    out.push(32);
    let wd = u32_to_dec(sprite.size.width);
    push_all(&mut out, wd.as_slice());
    out.push(32);
    let hd = u32_to_dec(sprite.size.height);
    push_all(&mut out, hd.as_slice());
    out.push(32);
    out.push(50);
    out.push(53);
    out.push(53);
    out.push(10);
    proof {
        assert(out@ =~= header);
        assert(spec_encode_body(sprite@.pixels.take(0)) =~= Seq::<u8>::empty());
        assert(out@ =~= header + spec_encode_body(sprite@.pixels.take(0)));
    }
    let n = sprite.pixels.len();
    let mut i: usize = 0;
    while i < n
        invariant
            n == sprite@.pixels.len(),
            i <= n,
            header == spec_header(sprite@.width, sprite@.height),
            out@ == header + spec_encode_body(sprite@.pixels.take(i as int)),
        decreases n - i,
    {
        let p = sprite.pixels[i];
        let rd = u32_to_dec(p.r as u32);
        push_all(&mut out, rd.as_slice());
        out.push(32);
        let gd = u32_to_dec(p.g as u32);
        push_all(&mut out, gd.as_slice());
        out.push(32);
        let bd = u32_to_dec(p.b as u32);
        push_all(&mut out, bd.as_slice());
        out.push(32);
        proof {
            let prefix = sprite@.pixels.take(i as int);
            lemma_encode_body_push(prefix, p);
            assert(prefix.push(p) =~= sprite@.pixels.take(i + 1));
            assert(out@ =~= header + spec_encode_body(sprite@.pixels.take(i + 1)));
        }
        i = i + 1;
    }
    proof {
        assert(sprite@.pixels.take(n as int) =~= sprite@.pixels);
    }
    out
}


/// A leading non-whitespace word followed by whitespace (or the end) is
/// the first token, and tokenization continues after it.
proof fn lemma_tokens_word(word: Seq<u8>, rest: Seq<u8>)
    requires
        word.len() > 0,
        forall|j: int| 0 <= j < word.len() ==> !is_space(word[j]),
        rest.len() == 0 || is_space(rest[0]),
    ensures
        spec_tokens(word + rest) == seq![word] + spec_tokens(rest),
{
    let s = word + rest;
    assert forall|j: int| 0 <= j < word.len() implies !is_space(s[j]) by {
        assert(s[j] == word[j]);
    }
    if rest.len() > 0 {
        assert(s[word.len() as int] == rest[0]);
    }
    lemma_token_scan(s, word.len() as int);
    assert(!is_space(s[0]));
    assert(token_len(s) == word.len());
    assert(s.take(word.len() as int) =~= word);
    assert(s.skip(word.len() as int) =~= rest);
}

/// Leading whitespace does not affect tokenization.
proof fn lemma_tokens_space(rest: Seq<u8>)
    ensures
        spec_tokens(seq![32u8] + rest) == spec_tokens(rest),
{
    let s = seq![32u8] + rest;
    assert(is_space(s[0]));
    assert(s.skip(1) =~= rest);
}

/// The tokens of an encoded body: the decimal representation of every
/// channel of every pixel, in order.
pub open spec fn pixel_tokens(pixels: Seq<Pixel>) -> Seq<Seq<u8>>
    decreases pixels.len(),
{
    if pixels.len() == 0 {
        Seq::empty()
    } else {
        seq![
            dec_bytes(pixels[0].r as nat),
            dec_bytes(pixels[0].g as nat),
            dec_bytes(pixels[0].b as nat),
        ] + pixel_tokens(pixels.skip(1))
    }
}

proof fn lemma_pixel_tokens_len(pixels: Seq<Pixel>)
    ensures
        pixel_tokens(pixels).len() == 3 * pixels.len(),
    decreases pixels.len(),
{
    if pixels.len() > 0 {
        lemma_pixel_tokens_len(pixels.skip(1));
    }
}

proof fn lemma_pixel_tokens_index(pixels: Seq<Pixel>, i: int)
    requires
        0 <= i < pixels.len(),
    ensures
        pixel_tokens(pixels)[3 * i] == dec_bytes(pixels[i].r as nat),
        pixel_tokens(pixels)[3 * i + 1] == dec_bytes(pixels[i].g as nat),
        pixel_tokens(pixels)[3 * i + 2] == dec_bytes(pixels[i].b as nat),
    decreases i,
{
    lemma_pixel_tokens_len(pixels.skip(1));
    if i == 0 {
    } else {
        lemma_pixel_tokens_index(pixels.skip(1), i - 1);
        assert(pixels.skip(1)[i - 1] == pixels[i]);
        assert(pixel_tokens(pixels)[3 * i] == pixel_tokens(pixels.skip(1))[3 * i - 3]);
        assert(3 * i - 3 == 3 * (i - 1));
        assert(pixel_tokens(pixels)[3 * i + 1] == pixel_tokens(pixels.skip(1))[3 * (i - 1) + 1]);
        assert(pixel_tokens(pixels)[3 * i + 2] == pixel_tokens(pixels.skip(1))[3 * (i - 1) + 2]);
    }
}

/// Digits are not whitespace.
proof fn lemma_dec_bytes_word(n: nat)
    ensures
        dec_bytes(n).len() > 0,
        forall|j: int| 0 <= j < dec_bytes(n).len() ==> !is_space(dec_bytes(n)[j]),
        forall|j: int| 0 <= j < dec_bytes(n).len() ==> dec_bytes(n)[j] != 10,
{
    lemma_dec_bytes_digits(n);
    assert forall|j: int| 0 <= j < dec_bytes(n).len() implies !is_space(dec_bytes(n)[j])
        && dec_bytes(n)[j] != 10 by {
        assert(is_digit(dec_bytes(n)[j]));
    }
}

/// Tokenizing an encoded body yields exactly the channel tokens.
proof fn lemma_body_tokens(pixels: Seq<Pixel>)
    ensures
        spec_tokens(spec_encode_body(pixels)) == pixel_tokens(pixels),
    decreases pixels.len(),
{
    if pixels.len() == 0 {
        assert(spec_tokens(spec_encode_body(pixels)) =~= pixel_tokens(pixels));
    } else {
        let p = pixels[0];
        let rest_body = spec_encode_body(pixels.skip(1));
        lemma_body_tokens(pixels.skip(1));
        let wr = dec_bytes(p.r as nat);
        let wg = dec_bytes(p.g as nat);
        let wb = dec_bytes(p.b as nat);
        lemma_dec_bytes_word(p.r as nat);
        lemma_dec_bytes_word(p.g as nat);
        lemma_dec_bytes_word(p.b as nat);
        let x3 = seq![32u8] + rest_body;
        let x2b = wb + x3;
        let x2 = seq![32u8] + x2b;
        let x1b = wg + x2;
        let x1 = seq![32u8] + x1b;
        let s0 = wr + x1;
        assert(spec_encode_body(pixels) =~= s0);
        assert(is_space(x1[0]) && is_space(x2[0]) && is_space(x3[0]));
        lemma_tokens_word(wr, x1);
        lemma_tokens_space(x1b);
        lemma_tokens_word(wg, x2);
        lemma_tokens_space(x2b);
        lemma_tokens_word(wb, x3);
        lemma_tokens_space(rest_body);
        assert(spec_tokens(s0) == seq![wr] + (seq![wg] + (seq![wb] + pixel_tokens(pixels.skip(1)))));
        assert(seq![wr] + (seq![wg] + (seq![wb] + pixel_tokens(pixels.skip(1))))
            =~= pixel_tokens(pixels));
    }
}

/// The pixels of a decoded image: the same channels, fully opaque.
pub open spec fn opaque_pixels(pixels: Seq<Pixel>) -> Seq<Pixel> {
    Seq::new(
        pixels.len(),
        |i: int| Pixel { r: pixels[i].r, g: pixels[i].g, b: pixels[i].b, a: 255u8 },
    )
}

/// The round-trip law: decoding the encoding of any well-formed canvas
/// succeeds and yields a canvas at the origin with the same size and the
/// same red, green and blue channels, every pixel fully opaque. Alpha is
/// deliberately not preserved: it is never written and is reset on reload.
pub proof fn lemma_round_trip(m: SpriteModel)
    requires
        m.wf(),
        m.width <= u32::MAX,
        m.height <= u32::MAX,
    ensures
        spec_decode(spec_encode(m)) == Ok::<SpriteModel, DecodeError>(
            SpriteModel {
                origin_x: 0,
                origin_y: 0,
                width: m.width,
                height: m.height,
                pixels: opaque_pixels(m.pixels),
            },
        ),
{
    let dec_w = dec_bytes(m.width);
    let dec_h = dec_bytes(m.height);
    lemma_dec_bytes_word(m.width);
    lemma_dec_bytes_word(m.height);
    lemma_dec_bytes_digits(m.width);
    lemma_dec_bytes_digits(m.height);
    lemma_dec_bytes_value(m.width);
    lemma_dec_bytes_value(m.height);
    let body = spec_encode_body(m.pixels);
    let full = spec_encode(m);
    let hline = seq![80u8, 51u8, 32u8] + dec_w + seq![32u8] + dec_h + seq![32u8, 50u8, 53u8, 53u8];
    let lw = dec_w.len() as int;
    let lh = dec_h.len() as int;
    assert(hline.len() == 8 + lw + lh);
    assert(full =~= hline + (seq![10u8] + body));

    // The first line feed closes the header line.
    assert forall|j: int| 0 <= j < hline.len() implies full[j] != 10 by {
        assert(full[j] == hline[j]);
        if j < 3 {
            assert(hline[j] == seq![80u8, 51u8, 32u8][j]);
        } else if j < 3 + lw {
            assert(hline[j] == dec_w[j - 3]);
        } else if j == 3 + lw {
            assert(hline[j] == 32);
        } else if j < 4 + lw + lh {
            assert(hline[j] == dec_h[j - 4 - lw]);
        } else {
            assert(hline[j] == seq![32u8, 50u8, 53u8, 53u8][j - 4 - lw - lh]);
        }
    }
    assert(full[hline.len() as int] == 10);
    lemma_first_newline_scan(full, hline.len() as int);
    let k = first_newline(full);
    assert(k == hline.len());
    assert(full.take(k) =~= hline);
    assert(full.skip(k + 1) =~= body);

    // Header tokens: P3, width, height, 255.
    let w255 = seq![50u8, 53u8, 53u8];
    let y2 = seq![32u8] + w255;
    let y1b = dec_h + y2;
    let y1 = seq![32u8] + y1b;
    let y0b = dec_w + y1;
    let y0 = seq![32u8] + y0b;
    let wp3 = seq![80u8, 51u8];
    assert(hline =~= wp3 + y0);
    assert(forall|j: int| 0 <= j < wp3.len() ==> !is_space(wp3[j]));
    assert(forall|j: int| 0 <= j < w255.len() ==> !is_space(w255[j]));
    lemma_tokens_word(wp3, y0);
    lemma_tokens_space(y0b);
    lemma_tokens_word(dec_w, y1);
    lemma_tokens_space(y1b);
    lemma_tokens_word(dec_h, y2);
    lemma_tokens_space(w255);
    assert(w255 + Seq::<u8>::empty() =~= w255);
    lemma_tokens_word(w255, Seq::<u8>::empty());
    assert(spec_tokens(Seq::<u8>::empty()) =~= Seq::<Seq<u8>>::empty());
    assert(spec_tokens(w255) == seq![w255] + Seq::<Seq<u8>>::empty());
    let ht = spec_tokens(full.take(k));
    assert(ht == seq![wp3] + (seq![dec_w] + (seq![dec_h] + (seq![w255] + Seq::<Seq<u8>>::empty()))));
    assert(ht =~= seq![wp3, dec_w, dec_h, w255]);
    assert(ht.len() == 4);
    assert(ht[0] == tok_p3());
    assert(ht[3] == tok_255());
    assert(dec_w[0] != 43 && dec_h[0] != 43) by {
        assert(is_digit(dec_w[0]) && is_digit(dec_h[0]));
    }
    assert(valid_dim(ht[1]) && uint_value(ht[1]) == m.width);
    assert(valid_dim(ht[2]) && uint_value(ht[2]) == m.height);

    // Body tokens: every channel in decimal, and nothing else.
    lemma_body_tokens(m.pixels);
    lemma_pixel_tokens_len(m.pixels);
    let bt = spec_tokens(full.skip(k + 1));
    assert(bt == pixel_tokens(m.pixels));
    let w = m.width;
    let h = m.height;
    assert(3 * (w * h) == 3 * w * h) by (nonlinear_arith);
    assert(bt.len() == 3 * w * h);

    assert forall|i: int| 0 <= i < 3 * w * h implies valid_channel(bt[i]) && (
        i % 3 == 0 ==> bt[i] == dec_bytes(m.pixels[i / 3].r as nat)) by {
        vstd::arithmetic::div_mod::lemma_fundamental_div_mod(i, 3);
        let q = i / 3;
        let r = i % 3;
        assert(0 <= r < 3);
        assert(i == 3 * q + r);
        assert(0 <= q < m.pixels.len()) by (nonlinear_arith)
            requires
                i == 3 * q + r,
                0 <= r < 3,
                0 <= i < 3 * (m.pixels.len() as int),
        ;
        lemma_pixel_tokens_index(m.pixels, q);
        let p = m.pixels[q];
        if r == 0 {
            assert(bt[i] == dec_bytes(p.r as nat));
            lemma_dec_bytes_digits(p.r as nat);
            lemma_dec_bytes_value(p.r as nat);
            assert(bt[i][0] != 43) by {
                assert(is_digit(bt[i][0]));
            }
        } else if r == 1 {
            assert(bt[i] == dec_bytes(p.g as nat));
            lemma_dec_bytes_digits(p.g as nat);
            lemma_dec_bytes_value(p.g as nat);
            assert(bt[i][0] != 43) by {
                assert(is_digit(bt[i][0]));
            }
        } else {
            assert(bt[i] == dec_bytes(p.b as nat));
            lemma_dec_bytes_digits(p.b as nat);
            lemma_dec_bytes_value(p.b as nat);
            assert(bt[i][0] != 43) by {
                assert(is_digit(bt[i][0]));
            }
        }
    }
    assert(!(exists|i: int| 0 <= i < 3 * w * h && !valid_channel(bt[i])));

    // The decoded pixels are the encoded ones, fully opaque.
    let decoded = Seq::new(
        w * h,
        |i: int|
            Pixel {
                r: uint_value(bt[3 * i]) as u8,
                g: uint_value(bt[3 * i + 1]) as u8,
                b: uint_value(bt[3 * i + 2]) as u8,
                a: 255u8,
            },
    );
    assert forall|i: int| 0 <= i < w * h implies decoded[i] == opaque_pixels(m.pixels)[i] by {
        lemma_pixel_tokens_index(m.pixels, i);
        let p = m.pixels[i];
        lemma_dec_bytes_digits(p.r as nat);
        lemma_dec_bytes_digits(p.g as nat);
        lemma_dec_bytes_digits(p.b as nat);
        lemma_dec_bytes_value(p.r as nat);
        lemma_dec_bytes_value(p.g as nat);
        lemma_dec_bytes_value(p.b as nat);
        assert(is_digit(dec_bytes(p.r as nat)[0]));
        assert(is_digit(dec_bytes(p.g as nat)[0]));
        assert(is_digit(dec_bytes(p.b as nat)[0]));
        assert(uint_value(bt[3 * i]) == p.r);
        assert(uint_value(bt[3 * i + 1]) == p.g);
        assert(uint_value(bt[3 * i + 2]) == p.b);
    }
    assert(decoded =~= opaque_pixels(m.pixels));
}

} // verus!
