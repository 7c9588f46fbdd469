//! Numbers and text in raw bytes.

use vstd::prelude::*;

verus! {

/// The number that `n` bytes from `i` on write, the least significant first.
pub open spec fn le(b: Seq<u8>, i: int, n: nat) -> nat
    decreases n,
{
    if n == 0 {
        0
    } else {
        b[i] as nat + 256 * le(b, i + 1, (n - 1) as nat)
    }
}

/// The two-byte number at `i`.
pub fn read_u16(b: &[u8], i: usize) -> (r: u16)
    requires
        i + 2 <= b.len(),
    ensures
        r == le(b@, i as int, 2),
{
    proof {
        reveal_with_fuel(le, 3);
    }
    b[i] as u16 + 256 * (b[i + 1] as u16)
}

/// The four-byte number at `i`.
pub fn read_u32(b: &[u8], i: usize) -> (r: u32)
    requires
        i + 4 <= b.len(),
    ensures
        r == le(b@, i as int, 4),
{
    proof {
        reveal_with_fuel(le, 5);
    }
    b[i] as u32 + 256 * (b[i + 1] as u32 + 256 * (b[i + 2] as u32 + 256 * (b[i + 3] as u32)))
}

/// The eight-byte number at `i`.
pub fn read_u64(b: &[u8], i: usize) -> (r: u64)
    requires
        i + 8 <= b.len(),
    ensures
        r == le(b@, i as int, 8),
{
    proof {
        reveal_with_fuel(le, 9);
    }
    let low = read_u32(b, i) as u64;
    let high = read_u32(b, i + 4) as u64;
    low + 0x1_0000_0000 * high
}

/// The text that bytes stand for as UTF-8, as `String::from_utf8_lossy` gives it.
pub uninterp spec fn lossy_text(b: Seq<u8>) -> Seq<char>;

/// `String::from_utf8_lossy`: decodes UTF-8, with the replacement character for what is
/// not UTF-8. Bytes below 128 stand for the ASCII characters with those codes.
#[verifier::external_body]
fn decode(b: &[u8]) -> (out: String)
    ensures
        out@ == lossy_text(b@),
        (forall|i: int| 0 <= i < b@.len() ==> #[trigger] b@[i] < 128) ==> out@ == b@.map_values(
            |x: u8| x as char,
        ),
{
    String::from_utf8_lossy(b).to_string()
}

/// The number of bytes from `i` on that come before the first NUL.
pub open spec fn cstr_len(b: Seq<u8>, i: int) -> nat
    decreases b.len() - i,
{
    if i < 0 || i >= b.len() || b[i] == 0 {
        0
    } else {
        1 + cstr_len(b, i + 1)
    }
}

/// The text at `offset` up to the next NUL, or up to the end.
pub open spec fn cstr(b: Seq<u8>, offset: int) -> Seq<char> {
    lossy_text(b.subrange(offset, offset + cstr_len(b, offset)))
}

/// Reads the text at `offset` up to the next NUL, or up to the end.
pub fn read_cstr(data: &[u8], offset: usize) -> (out: String)
    requires
        offset <= data@.len(),
    ensures
        out@ == cstr(data@, offset as int),
{
    let mut part: Vec<u8> = Vec::new();
    let mut i: usize = offset;
    while i < data.len() && data[i] != 0
        invariant
            offset <= i <= data@.len(),
            part@ == data@.subrange(offset as int, i as int),
            cstr_len(data@, offset as int) == i - offset + cstr_len(data@, i as int),
        decreases data@.len() - i,
    {
        part.push(data[i]);
        i += 1;
    }
    decode(part.as_slice())
}

// ---------------------------------------------------------------------------
// Laws
// ---------------------------------------------------------------------------

/// The least significant byte of a number stands first: byte `k` counts `256` to the power of
/// `k`.
pub proof fn lemma_le_byte(b: Seq<u8>, i: int, n: nat, k: nat)
    requires
        k < n,
    ensures
        (le(b, i, n) / crate::wire_laws::pow256(k)) % 256 == b[i + k],
    decreases k,
{
    let rest = le(b, i + 1, (n - 1) as nat);
    let v = le(b, i, n);
    assert(v == b[i] as nat + 256 * rest);
    if k == 0 {
        assert(crate::wire_laws::pow256(0) == 1);
    } else {
        let p = crate::wire_laws::pow256((k - 1) as nat);
        lemma_le_byte(b, i + 1, (n - 1) as nat, (k - 1) as nat);
        crate::wire_laws::lemma_pow256_positive((k - 1) as nat);
        assert(crate::wire_laws::pow256(k) == 256 * p);
        vstd::arithmetic::div_mod::lemma_div_denominator(v as int, 256, p as int);
        assert(v / 256 == rest);
    }
}

/// A text in raw bytes runs up to its first NUL, or to the end where there is none.
pub proof fn lemma_cstr_len(b: Seq<u8>, i: int)
    requires
        0 <= i <= b.len(),
    ensures
        i + cstr_len(b, i) <= b.len(),
        forall|j: int| i <= j < i + cstr_len(b, i) ==> b[j] != 0,
        i + cstr_len(b, i) < b.len() ==> b[i + cstr_len(b, i)] == 0,
    decreases b.len() - i,
{
    if i < b.len() && b[i] != 0 {
        lemma_cstr_len(b, i + 1);
    }
}

} // verus!
