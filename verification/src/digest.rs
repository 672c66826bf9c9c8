//! Content addresses: SHA-256 digests in hexadecimal.

use sha2::Digest;
use vstd::prelude::*;

verus! {

/// The SHA-256 digest of `data`.
pub uninterp spec fn sha256_of(data: Seq<u8>) -> Seq<u8>;

/// `sha2::Sha256::digest` computes the SHA-256 digest of the data, which is a function of the
/// data and has 32 bytes.
#[verifier::external_body]
fn sha256(data: &[u8]) -> (res: Vec<u8>)
    ensures
        res@ == sha256_of(data@),
        res@.len() == 32,
{
    sha2::Sha256::digest(data).to_vec()
}

pub open spec fn nibble_char(d: int) -> char {
    if d < 10 {
        ('0' as u32 + d) as char
    } else {
        ('a' as u32 + (d - 10)) as char
    }
}

/// The bytes in lower-case hexadecimal, two digits each.
pub open spec fn hex_text(bytes: Seq<u8>) -> Seq<char> {
    Seq::new(
        bytes.len() * 2,
        |i: int|
            if i % 2 == 0 {
                nibble_char(bytes[i / 2] as int / 16)
            } else {
                nibble_char(bytes[i / 2] as int % 16)
            },
    )
}

fn nibble(d: u8) -> (c: char)
    requires
        d < 16,
    ensures
        c == nibble_char(d as int),
{
    if d < 10 {
        (48u8 + d) as char
    } else {
        (97u8 + (d - 10)) as char
    }
}

/// The bytes in lower-case hexadecimal, two digits each.
pub fn hex(bytes: &[u8]) -> (res: String)
    ensures
        res@ == hex_text(bytes@),
{
    let mut res = String::new();
    for i in 0..bytes.len()
        invariant
            res@ == hex_text(bytes@.take(i as int)),
    {
        let b = bytes[i];
        res.push(nibble(b / 16));
        res.push(nibble(b % 16));
        let ghost next = hex_text(bytes@.take(i + 1));
        assert(res@ =~= next) by {
            assert forall|k: int| 0 <= k < res@.len() implies res@[k] == next[k] by {
                if k < 2 * i {
                    assert(bytes@.take(i as int)[k / 2] == bytes@.take(i + 1)[k / 2]);
                }
            }
        }
    }
    assert(bytes@.take(bytes@.len() as int) =~= bytes@);
    res
}

/// The content address of `data`.
pub open spec fn address_of(data: Seq<u8>) -> Seq<char> {
    hex_text(sha256_of(data))
}

/// The content address of `data`: its SHA-256 digest in hexadecimal.
pub fn content_address(data: &[u8]) -> (res: String)
    ensures
        res@ == address_of(data@),
        res@.len() == 64,
{
    hex(sha256(data).as_slice())
}

/// Different byte strings have different hexadecimal texts.
pub proof fn law_hex_injective(a: Seq<u8>, b: Seq<u8>)
    requires
        hex_text(a) == hex_text(b),
    ensures
        a == b,
{
    let x = hex_text(a);
    let y = hex_text(b);
    assert(x.len() == y.len());
    assert forall|i: int| 0 <= i < a.len() implies a[i] == b[i] by {
        assert(x[2 * i] == y[2 * i]);
        assert(x[2 * i + 1] == y[2 * i + 1]);
        assert((2 * i) / 2 == i && (2 * i + 1) / 2 == i);
        lemma_nibble(a[i] as int / 16, b[i] as int / 16);
        lemma_nibble(a[i] as int % 16, b[i] as int % 16);
    }
    assert(a =~= b);
}

proof fn lemma_nibble(d: int, e: int)
    requires
        0 <= d < 16,
        0 <= e < 16,
        nibble_char(d) == nibble_char(e),
    ensures
        d == e,
{
}

/// A hexadecimal text holds the digits and the letters a to f alone.
pub proof fn lemma_hex_chars(bytes: Seq<u8>)
    ensures
        forall|i: int|
            0 <= i < hex_text(bytes).len() ==> {
                ||| '0' <= #[trigger] hex_text(bytes)[i] <= '9'
                ||| 'a' <= hex_text(bytes)[i] <= 'f'
            },
{
}

} // verus!
