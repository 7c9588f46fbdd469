//! Appending several pieces of text at once.
//!
//! The emitters write one line per call. What a call appends stands in the same order
//! in the text that the contract names.

use vstd::prelude::*;

verus! {

pub fn put2(out: &mut String, a: &str, b: &str)
    ensures
        final(out)@ == old(out)@ + a@ + b@,
{
    out.append(a);
    out.append(b);
}

pub fn put3(out: &mut String, a: &str, b: &str, c: &str)
    ensures
        final(out)@ == old(out)@ + a@ + b@ + c@,
{
    out.append(a);
    out.append(b);
    out.append(c);
}

pub fn put5(out: &mut String, a: &str, b: &str, c: &str, d: &str, e: &str)
    ensures
        final(out)@ == old(out)@ + a@ + b@ + c@ + d@ + e@,
{
    put3(out, a, b, c);
    put2(out, d, e);
}

pub fn put7(out: &mut String, a: &str, b: &str, c: &str, d: &str, e: &str, f: &str, g: &str)
    ensures
        final(out)@ == old(out)@ + a@ + b@ + c@ + d@ + e@ + f@ + g@,
{
    put5(out, a, b, c, d, e);
    put2(out, f, g);
}

pub fn put9(
    out: &mut String,
    a: &str,
    b: &str,
    c: &str,
    d: &str,
    e: &str,
    f: &str,
    g: &str,
    h: &str,
    i: &str,
)
    ensures
        final(out)@ == old(out)@ + a@ + b@ + c@ + d@ + e@ + f@ + g@ + h@ + i@,
{
    put5(out, a, b, c, d, e);
    put2(out, f, g);
    put2(out, h, i);
}

} // verus!
