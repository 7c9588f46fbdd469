//! The description of one device's registers.

use vstd::prelude::*;

verus! {

/// One device: its registers and what is synthesized over them.
pub struct Spec {
    pub device: DeviceMeta,
    pub registers: Vec<Register>,
    pub descriptors: Vec<Descriptor>,
    /// Pairs of 32-bit registers that are read and written as one `u64`.
    pub u64_pairs: Vec<U64Pair>,
    /// Selector and value registers that are walked as one wide value.
    pub windowed: Vec<Windowed>,
    /// Registers whose offset must equal a constant of another module.
    pub verify_offsets: Vec<VerifyOffset>,
}

pub struct DeviceMeta {
    pub name: String,
    pub description: Option<String>,
    /// Whether a module is generated; a description may also only be checked.
    pub emit: bool,
    /// The module that `verify_offsets` names constants of.
    pub verify_against: Option<String>,
}

pub struct U64Pair {
    /// The stem of the synthesized accessors' names.
    pub name: String,
    /// The register with the 32 low bits.
    pub low: String,
    /// The register with the 32 high bits.
    pub high: String,
    pub endian: U64PairEndian,
}

#[derive(Clone, Copy, PartialEq, Eq, Structural)]
pub enum U64PairEndian {
    Little,
}

pub struct Windowed {
    pub name: String,
    /// The register that the window index is written to.
    pub selector: String,
    /// The register that a chunk is read from or written to.
    pub value: String,
    pub chunk_width: u8,
    pub chunk_count: u8,
    pub direction: WindowedDirection,
    /// Whether a barrier stands between the selector write and the chunk access.
    pub requires_barrier: bool,
}

#[derive(Clone, Copy, PartialEq, Eq, Structural)]
pub enum WindowedDirection {
    Read,
    Write,
}

pub struct VerifyOffset {
    pub reg: String,
    pub const_name: String,
}

pub struct Register {
    pub name: String,
    pub offset: u64,
    pub width: u8,
    pub access: Access,
    pub description: Option<String>,
    pub kind: Option<RegisterKind>,
    pub flags: Vec<Flag>,
    pub fields: Vec<Field>,
    pub parts: Vec<Part>,
    pub aliases: Vec<String>,
    pub endian: Option<Endian>,
}

#[derive(Clone, Copy, PartialEq, Eq, Structural)]
pub enum Access {
    Ro,
    Rw,
    Wo,
    W1c,
    Trigger,
}

#[derive(Clone, Copy, PartialEq, Eq, Structural)]
pub enum RegisterKind {
    CombinedTrigger,
    Aliased,
    Stream,
    PasswdProtected,
}

#[derive(Clone, Copy, PartialEq, Eq, Structural)]
pub enum Endian {
    Big,
    Little,
}

pub struct Flag {
    pub name: String,
    pub bit: u8,
    pub description: Option<String>,
}

pub struct Field {
    pub name: String,
    /// The field's bits, written `high:low`.
    pub bits: String,
    pub description: Option<String>,
    pub enum_values: Vec<EnumValue>,
    pub access: FieldAccess,
}

#[derive(Clone, Copy, PartialEq, Eq, Structural)]
pub enum FieldAccess {
    /// Set by the hardware; no setter is generated.
    Ro,
    Rw,
}

pub struct EnumValue {
    pub name: String,
    pub value: u64,
}

pub struct Part {
    pub name: String,
    pub bits: String,
}

pub struct Descriptor {
    pub name: String,
    pub width: u8,
    pub description: Option<String>,
    pub fields: Vec<Field>,
}

/// Whether `w` is a register width.
pub open spec fn is_width(w: u8) -> bool {
    w == 8 || w == 16 || w == 32 || w == 64
}

/// The index of the first register from `i` on that is named `name`, or the number of
/// registers.
pub open spec fn register_from(regs: Seq<Register>, name: Seq<char>, i: int) -> int
    decreases regs.len() - i,
{
    if i >= regs.len() || i < 0 {
        regs.len() as int
    } else if regs[i].name@ == name {
        i
    } else {
        register_from(regs, name, i + 1)
    }
}

/// The index of the register named `name`, or the number of registers.
pub open spec fn register_named(regs: Seq<Register>, name: Seq<char>) -> int {
    register_from(regs, name, 0)
}

/// Whether a register is named `name`.
pub open spec fn has_register(regs: Seq<Register>, name: Seq<char>) -> bool {
    register_named(regs, name) < regs.len()
}

/// The index of the register named `name`.
pub fn find_register(regs: &Vec<Register>, name: &str) -> (r: Option<usize>)
    ensures
        match r {
            Some(i) => i < regs@.len() && i == register_named(regs@, name@),
            None => !has_register(regs@, name@),
        },
        r matches Some(i) ==> regs@[i as int].name@ == name@,
{
    let mut i: usize = 0;
    while i < regs.len()
        invariant
            i <= regs@.len(),
            register_named(regs@, name@) == register_from(regs@, name@, i as int),
        decreases regs@.len() - i,
    {
        if crate::text::same_text(regs[i].name.as_str(), name) {
            return Some(i);
        }
        i += 1;
    }
    None
}

/// The bits that `high:low` names.
pub open spec fn bits_of(s: Seq<char>) -> Option<(u8, u8)> {
    let k = crate::text::index_of(s, ':');
    if k >= s.len() {
        None
    } else {
        let hi = crate::text::unsigned_of(crate::text::trimmed(s.take(k)), 10, 255);
        let lo = crate::text::unsigned_of(crate::text::trimmed(s.skip(k + 1)), 10, 255);
        if hi is Some && lo is Some {
            Some((hi->0 as u8, lo->0 as u8))
        } else {
            None
        }
    }
}

/// Reads `high:low`.
pub fn parse_bits(s: &str) -> (r: Option<(u8, u8)>)
    ensures
        r == bits_of(s@),
{
    let v = crate::text::chars_of(s);
    match crate::text::find_char(&v, ':') {
        None => None,
        Some(k) => {
            let h = crate::text::cut(&v, 0, k);
            let l = crate::text::cut(&v, k + 1, v.len());
            assert(h@ =~= v@.take(k as int));
            assert(l@ =~= v@.skip(k + 1));
            let ht = crate::text::trim(&h);
            let lt = crate::text::trim(&l);
            let hi = crate::text::parse_unsigned(&ht, 10, 255);
            let lo = crate::text::parse_unsigned(&lt, 10, 255);
            match (hi, lo) {
                (Some(a), Some(b)) => Some((a as u8, b as u8)),
                _ => None,
            }
        },
    }
}

/// The number of bits from `lo` up to `hi`.
pub open spec fn bit_count(bits: (u8, u8)) -> int {
    bits.0 - bits.1 + 1
}

/// The largest number of `w` bits; of 64 and more bits, the largest `u64`.
pub open spec fn largest(w: int) -> nat {
    if w >= 64 {
        u64::MAX as nat
    } else if w <= 0 {
        0
    } else {
        (vstd::arithmetic::power2::pow2(w as nat) - 1) as nat
    }
}

/// The largest number of `w` bits.
pub fn largest_of(w: u8) -> (r: u64)
    ensures
        r == largest(w as int),
{
    if w >= 64 {
        u64::MAX
    } else {
        proof {
            vstd::arithmetic::power2::lemma_pow2_pos(w as nat);
            vstd::arithmetic::power2::lemma2_to64();
            vstd::bits::lemma_u64_pow2_no_overflow(w as nat);
            vstd::bits::lemma_u64_shl_is_mul(1, w as u64);
        }
        (1u64 << (w as u64)) - 1
    }
}

/// The bits that a field covers in a register of `width` bits.
pub open spec fn field_mask(bits: (u8, u8), width: u8) -> nat {
    if bit_count(bits) >= width {
        largest(width as int)
    } else {
        largest(bit_count(bits)) * vstd::arithmetic::power2::pow2(bits.1 as nat)
    }
}

/// The bits that a field covers in a register of `width` bits.
pub fn field_mask_of(bits: (u8, u8), width: u8) -> (r: u64)
    requires
        is_width(width),
        bits.1 <= bits.0 < width,
    ensures
        r == field_mask(bits, width),
{
    let n: u8 = bits.0 - bits.1 + 1;
    if n >= width {
        largest_of(width)
    } else {
        let m = largest_of(n);
        proof {
            lemma_mask_fits(n as nat, bits.1 as nat);
            vstd::bits::lemma_u64_shl_is_mul(m, bits.1 as u64);
        }
        m << (bits.1 as u64)
    }
}

proof fn lemma_mask_fits(n: nat, lo: nat)
    requires
        1 <= n < 64,
        n + lo <= 64,
    ensures
        largest(n as int) * vstd::arithmetic::power2::pow2(lo) <= u64::MAX,
{
    let a = vstd::arithmetic::power2::pow2(n);
    let b = vstd::arithmetic::power2::pow2(lo);
    vstd::arithmetic::power2::lemma_pow2_adds(n, lo);
    vstd::arithmetic::power2::lemma_pow2_pos(n);
    vstd::arithmetic::power2::lemma_pow2_pos(lo);
    vstd::arithmetic::power2::lemma2_to64();
    if n + lo < 64 {
        vstd::arithmetic::power2::lemma_pow2_strictly_increases(n + lo, 64);
    }
    assert((a - 1) * b <= a * b - 1) by (nonlinear_arith)
        requires
            a >= 1,
            b >= 1,
    ;
}

} // verus!
