//! Text for the kernel's console, and for a console server.

use crate::handle::{EndpointHandle, ReplyHandle};
use crate::numerals::{decimal, hex, numeral_chars};
use crate::syscall::{Request, Words};
use vstd::prelude::*;
use vstd::string::StrSliceExecFns;
use vstd::string::StringSliceAdditionalSpecFns;

verus! {

/// Characters as bytes, one each.
pub open spec fn ascii(s: Seq<char>) -> Seq<u8> {
    Seq::new(s.len(), |i: int| s[i] as u8)
}

/// The bytes of a text, to be put out in one piece.
pub fn puts(s: &str) -> (out: Vec<u8>)
    ensures
        out@ == s.spec_bytes(),
{
    s.as_bytes_vec()
}

/// The bytes of two texts, to be put out in one piece.
pub fn puts2(a: &str, b: &str) -> (out: Vec<u8>)
    ensures
        out@ == a.spec_bytes() + b.spec_bytes(),
{
    let mut out = a.as_bytes_vec();
    let mut tail = b.as_bytes_vec();
    out.append(&mut tail);
    out
}

fn to_ascii(v: &Vec<char>) -> (out: Vec<u8>)
    ensures
        out@ == ascii(v@),
{
    let mut out: Vec<u8> = Vec::new();
    let mut i: usize = 0;
    while i < v.len()
        invariant
            i <= v@.len(),
            out@ == ascii(v@.take(i as int)),
        decreases v@.len() - i,
    {
        let c: char = v[i];
        out.push(c as u8);
        assert(out@ =~= ascii(v@.take(i + 1)));
        i += 1;
    }
    assert(v@.take(i as int) =~= v@);
    out
}

/// A number in base ten, to be put out in one piece.
pub fn put_decimal(n: u64) -> (out: Vec<u8>)
    ensures
        out@ == ascii(decimal(n as nat)),
{
    to_ascii(&numeral_chars(n, 10, false))
}

/// A number in base sixteen behind `0x`, to be put out in one piece.
pub fn put_hex(n: u64) -> (out: Vec<u8>)
    ensures
        out@ == seq![0x30u8, 0x78u8] + ascii(hex(n as nat)),
{
    let mut out: Vec<u8> = Vec::new();
    out.push(0x30);
    out.push(0x78);
    let mut digits = to_ascii(&numeral_chars(n, 16, false));
    out.append(&mut digits);
    assert(out@ =~= seq![0x30u8, 0x78u8] + ascii(hex(n as nat)));
    out
}

/// The calls that hand a text to a console server, one for each byte.
pub fn ipc_puts(ep: EndpointHandle, reply: ReplyHandle, s: &str) -> (out: Vec<Request>)
    ensures
        out@ == Seq::new(
            s.spec_bytes().len(),
            |i: int|
                Request::Call {
                    endpoint: ep.0,
                    reply: reply.0,
                    message: Words(s.spec_bytes()[i] as u64, 0, 0, 0),
                },
        ),
{
    let bytes = s.as_bytes_vec();
    let mut out: Vec<Request> = Vec::new();
    let mut i: usize = 0;
    while i < bytes.len()
        invariant
            i <= bytes@.len(),
            bytes@ == s.spec_bytes(),
            out@.len() == i,
            forall|k: int|
                0 <= k < i ==> #[trigger] out@[k] == (Request::Call {
                    endpoint: ep.0,
                    reply: reply.0,
                    message: Words(s.spec_bytes()[k] as u64, 0, 0, 0),
                }),
        decreases bytes@.len() - i,
    {
        out.push(
            Request::Call {
                endpoint: ep.0,
                reply: reply.0,
                message: Words(bytes[i] as u64, 0, 0, 0),
            },
        );
        i += 1;
    }
    assert(out@ =~= Seq::new(
        s.spec_bytes().len(),
        |i: int|
            Request::Call {
                endpoint: ep.0,
                reply: reply.0,
                message: Words(s.spec_bytes()[i] as u64, 0, 0, 0),
            },
    ));
    out
}

} // verus!
