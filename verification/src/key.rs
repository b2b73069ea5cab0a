//! Handles for loaded detectors. A detector is known by the MD5 digest of the
//! cascade it was built from; callers see the digest as a 32-character
//! lower-case hex string, and the registry keys entries by the digest's
//! big-endian value.
use vstd::prelude::*;

verus! {

/// MD5 digest (16 bytes) of a byte string, as computed by the `md5` crate.
pub uninterp spec fn md5_digest(data: Seq<u8>) -> Seq<u8>;

/// `md5::compute`: the 16-byte MD5 digest of `data`.
#[verifier::external_body]
pub(crate) fn md5_compute(data: &[u8]) -> (digest: [u8; 16])
    ensures
        digest@ == md5_digest(data@),
{
    md5::compute(data).0
}

/// Lower-case ASCII hex digit for a value in `0..16`.
pub open spec fn hex_digit(n: int) -> u8 {
    if n < 10 {
        (48 + n) as u8
    } else {
        (87 + n) as u8
    }
}

/// Value of a lower-case ASCII hex digit; `None` for any other byte.
pub open spec fn hex_value(c: u8) -> Option<int> {
    if 48 <= c <= 57 {
        Some(c - 48)
    } else if 97 <= c <= 102 {
        Some(c - 87)
    } else {
        None
    }
}

/// The text of a handle: each digest byte as two lower-case hex digits,
/// high nibble first (what `format!("{:x}", digest)` prints).
pub open spec fn hex_text(digest: Seq<u8>) -> Seq<u8> {
    Seq::new(
        2 * digest.len(),
        |i: int|
            if i % 2 == 0 {
                hex_digit(digest[i / 2] as int / 16)
            } else {
                hex_digit(digest[i / 2] as int % 16)
            },
    )
}

/// The digest a handle text stands for: `Some` exactly for 32 lower-case hex digits.
pub open spec fn parse_hex_text(text: Seq<u8>) -> Option<Seq<u8>> {
    if text.len() == 32 && forall|i: int| 0 <= i < 32 ==> #[trigger] hex_value(text[i]) is Some {
        Some(
            Seq::new(
                16,
                |i: int| (hex_value(text[2 * i]).unwrap() * 16 + hex_value(text[2 * i + 1]).unwrap()) as u8,
            ),
        )
    } else {
        None
    }
}

/// Big-endian value of a byte string.
pub open spec fn be_value(bytes: Seq<u8>) -> int
    decreases bytes.len(),
{
    if bytes.len() == 0 {
        0
    } else {
        be_value(bytes.drop_last()) * 256 + bytes.last()
    }
}

/// `256` to the power `n`.
pub open spec fn pow256(n: nat) -> int
    decreases n,
{
    if n == 0 {
        1
    } else {
        256 * pow256((n - 1) as nat)
    }
}

proof fn lemma_be_value_bounds(bytes: Seq<u8>)
    ensures
        0 <= be_value(bytes) < pow256(bytes.len()),
    decreases bytes.len(),
{
    if bytes.len() > 0 {
        lemma_be_value_bounds(bytes.drop_last());
    }
}

proof fn lemma_pow256_le(m: nat, n: nat)
    requires
        m <= n,
    ensures
        1 <= pow256(m) <= pow256(n),
    decreases n,
{
    if n > m {
        lemma_pow256_le(m, (n - 1) as nat);
    } else if n > 0 {
        lemma_pow256_le(0, (n - 1) as nat);
    }
}

/// Different byte strings of one length have different big-endian values.
pub proof fn lemma_be_value_injective(a: Seq<u8>, b: Seq<u8>)
    requires
        a.len() == b.len(),
        be_value(a) == be_value(b),
    ensures
        a == b,
    decreases a.len(),
{
    if a.len() > 0 {
        let qa = be_value(a.drop_last());
        let qb = be_value(b.drop_last());
        lemma_be_value_bounds(a.drop_last());
        lemma_be_value_bounds(b.drop_last());
        vstd::arithmetic::div_mod::lemma_fundamental_div_mod_converse(be_value(a), 256, qa, a.last() as int);
        vstd::arithmetic::div_mod::lemma_fundamental_div_mod_converse(be_value(b), 256, qb, b.last() as int);
        lemma_be_value_injective(a.drop_last(), b.drop_last());
        assert(a =~= a.drop_last().push(a.last()));
        assert(b =~= b.drop_last().push(b.last()));
    } else {
        assert(a =~= b);
    }
}

/// The registry key of a 16-byte digest: its big-endian value.
pub fn key_of_digest(digest: &[u8; 16]) -> (key: u128)
    ensures
        key == be_value(digest@),
{
    let mut key: u128 = 0;
    let mut i: usize = 0;
    while i < 16
        invariant
            0 <= i <= 16,
            key == be_value(digest@.subrange(0, i as int)),
        decreases 16 - i,
    {
        proof {
            lemma_be_value_bounds(digest@.subrange(0, i as int));
            lemma_pow256_le((i + 1) as nat, 16);
            reveal_with_fuel(pow256, 17);
            assert(pow256(16) == 0x1_0000_0000_0000_0000_0000_0000_0000_0000);
            assert(digest@.subrange(0, i + 1).drop_last() =~= digest@.subrange(0, i as int));
        }
        key = key * 256 + digest[i] as u128;
        i += 1;
    }
    assert(digest@.subrange(0, 16) =~= digest@);
    key
}

/// Hex text of a digest byte string.
pub fn hex_of(digest: &[u8]) -> (text: Vec<u8>)
    requires
        digest@.len() <= usize::MAX / 2,
    ensures
        text@ == hex_text(digest@),
{
    let mut text: Vec<u8> = Vec::new();
    let mut i: usize = 0;
    while i < digest.len()
        invariant
            0 <= i <= digest@.len(),
            digest@.len() <= usize::MAX / 2,
            text@.len() == 2 * i,
            forall|k: int| 0 <= k < 2 * i ==> text@[k] == #[trigger] hex_text(digest@)[k],
        decreases digest@.len() - i,
    {
        let b = digest[i];
        let hi = b / 16;
        let lo = b % 16;
        text.push(if hi < 10 { 48 + hi } else { 87 + hi });
        text.push(if lo < 10 { 48 + lo } else { 87 + lo });
        i += 1;
    }
    assert(text@ =~= hex_text(digest@));
    text
}

/// Value of one byte as a lower-case hex digit.
fn hex_digit_value(c: u8) -> (v: Option<u8>)
    ensures
        v matches Some(x) ==> hex_value(c) == Some(x as int),
        v is None ==> hex_value(c) is None,
{
    if 48 <= c && c <= 57 {
        Some(c - 48)
    } else if 97 <= c && c <= 102 {
        Some(c - 87)
    } else {
        None
    }
}

/// Reads a handle text back into its digest; `None` unless the text is
/// exactly 32 lower-case hex digits.
pub fn parse_hex(text: &[u8]) -> (digest: Option<[u8; 16]>)
    ensures
        match digest {
            Some(d) => parse_hex_text(text@) == Some(d@),
            None => parse_hex_text(text@) is None,
        },
{
    if text.len() != 32 {
        return None;
    }
    let mut digest: [u8; 16] = [0u8; 16];
    let mut i: usize = 0;
    while i < 16
        invariant
            text@.len() == 32,
            0 <= i <= 16,
            forall|k: int| 0 <= k < 2 * i ==> #[trigger] hex_value(text@[k]) is Some,
            forall|k: int|
                0 <= k < i ==> digest@[k] == (hex_value(text@[2 * k]).unwrap() * 16 + hex_value(
                    text@[2 * k + 1],
                ).unwrap()) as u8,
        decreases 16 - i,
    {
        let hi = hex_digit_value(text[2 * i]);
        let lo = hex_digit_value(text[2 * i + 1]);
        match (hi, lo) {
            (Some(h), Some(l)) => {
                digest[i] = h * 16 + l;
            },
            _ => {
                proof {
                    assert(hex_value(text@[2 * i as int]) is None || hex_value(text@[2 * i + 1]) is None);
                }
                return None;
            },
        }
        i += 1;
    }
    assert(parse_hex_text(text@) == Some(digest@)) by {
        assert(digest@ =~= parse_hex_text(text@).unwrap());
    }
    Some(digest)
}

/// Reading the hex text of a 16-byte digest gives the digest back.
pub proof fn lemma_parse_hex_of_text(digest: Seq<u8>)
    requires
        digest.len() == 16,
    ensures
        parse_hex_text(hex_text(digest)) == Some(digest),
{
    let t = hex_text(digest);
    assert forall|i: int| 0 <= i < 32 implies #[trigger] hex_value(t[i]) is Some by {
        assert(0 <= digest[i / 2] / 16 < 16);
    }
    let d = parse_hex_text(t).unwrap();
    assert forall|i: int| 0 <= i < 16 implies d[i] == digest[i] by {
        assert((2 * i) / 2 == i);
        assert((2 * i + 1) / 2 == i);
        assert((2 * i) % 2 == 0);
        assert((2 * i + 1) % 2 == 1);
        assert(digest[i] / 16 * 16 + digest[i] % 16 == digest[i]);
    }
    assert(d =~= digest);
}

/// A text that reads as a digest is that digest's hex text: handles have a
/// single spelling.
pub proof fn lemma_hex_text_of_parse(text: Seq<u8>)
    requires
        parse_hex_text(text) is Some,
    ensures
        hex_text(parse_hex_text(text).unwrap()) == text,
{
    let d = parse_hex_text(text).unwrap();
    let t = hex_text(d);
    assert forall|i: int| 0 <= i < 32 implies t[i] == text[i] by {
        let j = i / 2;
        assert(hex_value(text[2 * j]) is Some);
        assert(hex_value(text[2 * j + 1]) is Some);
        let h = hex_value(text[2 * j]).unwrap();
        let l = hex_value(text[2 * j + 1]).unwrap();
        assert(d[j] == h * 16 + l);
        assert((h * 16 + l) / 16 == h);
        assert((h * 16 + l) % 16 == l);
    }
    assert(t =~= text);
}

} // verus!
