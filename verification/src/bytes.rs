//! Counting a text in bytes of UTF-8.

use vstd::prelude::*;
use vstd::utf8::{encode_scalar, encode_utf8};

verus! {

/// The number of bytes that `c` takes in UTF-8.
pub open spec fn utf8_width(c: char) -> nat {
    encode_scalar(c as u32).len()
}

/// Why a text has no part that starts right after its first `n` bytes.
#[derive(Clone, Copy, Debug, PartialEq, Eq)]
pub enum CutError {
    /// The text is shorter than that.
    TooShort,
    /// That many bytes end inside a character.
    InsideCharacter,
}

/// `s` without its first `n` bytes of UTF-8: whole characters are taken from
/// the front until `n` bytes are gone.
pub open spec fn skip_bytes(s: Seq<char>, n: nat) -> Result<Seq<char>, CutError>
    decreases s.len(),
{
    if n == 0 {
        Ok(s)
    } else if s.len() == 0 {
        Err(CutError::TooShort)
    } else if utf8_width(s[0]) > n {
        Err(CutError::InsideCharacter)
    } else {
        skip_bytes(s.drop_first(), (n - utf8_width(s[0])) as nat)
    }
}

/// The encoding of a prefix with at least one character starts with the
/// encoding of the first character.
proof fn lemma_encode_prefix(s: Seq<char>, k: int)
    requires
        1 <= k <= s.len(),
    ensures
        encode_utf8(s.take(k)).len() == utf8_width(s[0]) + encode_utf8(
            s.drop_first().take(k - 1),
        ).len(),
        utf8_width(s[0]) >= 1,
{
    assert(s.take(k).drop_first() =~= s.drop_first().take(k - 1));
}

/// `skip_bytes` cuts where the UTF-8 encoding of the text has `n` bytes
/// before it. It gives what follows the first `k` characters exactly when
/// those take `n` bytes; it finds the text too short exactly when all of it
/// takes fewer; and otherwise no prefix takes `n` bytes: byte `n` is inside
/// a character.
pub proof fn lemma_skip_bytes_cuts_at_byte(s: Seq<char>, n: nat)
    ensures
        match skip_bytes(s, n) {
            Ok(rest) => exists|k: int|
                0 <= k <= s.len() && #[trigger] encode_utf8(s.take(k)).len() == n && rest == s.skip(
                    k,
                ),
            Err(CutError::TooShort) => encode_utf8(s).len() < n,
            Err(CutError::InsideCharacter) => n <= encode_utf8(s).len() && forall|k: int|
                0 <= k <= s.len() ==> #[trigger] encode_utf8(s.take(k)).len() != n,
        },
    decreases s.len(),
{
    if n == 0 {
        assert(encode_utf8(s.take(0)).len() == 0);
    } else if s.len() > 0 && utf8_width(s[0]) <= n {
        let rest = s.drop_first();
        let m = (n - utf8_width(s[0])) as nat;
        lemma_skip_bytes_cuts_at_byte(rest, m);
        if skip_bytes(rest, m) is Ok {
            let k = choose|k: int|
                0 <= k <= rest.len() && #[trigger] encode_utf8(rest.take(k)).len() == m
                    && skip_bytes(rest, m) == Ok::<Seq<char>, CutError>(rest.skip(k));
            lemma_encode_prefix(s, k + 1);
        } else {
            assert forall|k: int| 1 <= k <= s.len() implies #[trigger] encode_utf8(
                s.take(k),
            ).len() == utf8_width(s[0]) + encode_utf8(rest.take(k - 1)).len() by {
                lemma_encode_prefix(s, k);
            }
        }
    }
}

/// The number of bytes that `c` takes in UTF-8.
pub fn utf8_width_of(c: char) -> (w: usize)
    ensures
        w == utf8_width(c),
        1 <= w <= 4,
{
    let u: u32 = c as u32;
    if u < 0x80 {
        1
    } else if u < 0x800 {
        2
    } else if u < 0x10000 {
        3
    } else {
        4
    }
}

/// The start of what is left of `v[from..to]` once its first `n` bytes of
/// UTF-8 are taken away.
pub fn skip_bytes_start(v: &Vec<char>, from: usize, to: usize, n: usize) -> (r: Result<
    usize,
    CutError,
>)
    requires
        from <= to <= v.len(),
    ensures
        match r {
            Ok(start) => from <= start <= to && skip_bytes(
                v@.subrange(from as int, to as int),
                n as nat,
            ) == Ok::<Seq<char>, CutError>(v@.subrange(start as int, to as int)),
            Err(e) => skip_bytes(v@.subrange(from as int, to as int), n as nat) == Err::<
                Seq<char>,
                CutError,
            >(e),
        },
{
    let ghost part = v@.subrange(from as int, to as int);
    let mut start: usize = from;
    let mut left: usize = n;
    while left > 0
        invariant
            from <= start <= to <= v.len(),
            part == v@.subrange(from as int, to as int),
            skip_bytes(part, n as nat) == skip_bytes(v@.subrange(start as int, to as int), left as nat),
        decreases left,
    {
        let ghost rest = v@.subrange(start as int, to as int);
        if start == to {
            return Err(CutError::TooShort);
        }
        let w: usize = utf8_width_of(v[start]);
        if w > left {
            return Err(CutError::InsideCharacter);
        }
        assert(rest.drop_first() =~= v@.subrange(start + 1, to as int));
        left -= w;
        start += 1;
    }
    Ok(start)
}

} // verus!
