//! Whether a device description makes sense.
//!
//! The checks run in a fixed order and the first fault is reported. A fault names its
//! place by indices into the description.

use super::model::{
    bit_count, bits_of, find_register, has_register, is_width, largest, largest_of, parse_bits,
    register_named, Access, Descriptor, Field, Register, RegisterKind, Spec, U64Pair, Windowed,
    WindowedDirection,
};
use vstd::prelude::*;

verus! {

/// What a field belongs to.
#[derive(Clone, Copy, PartialEq, Eq, Structural)]
pub enum Container {
    Register(usize),
    Descriptor(usize),
}

/// What is wrong with one field.
#[derive(Clone, Copy, PartialEq, Eq, Structural)]
pub enum FieldFault {
    /// The bits are not written `high:low`.
    BadBits,
    /// The bits do not lie within the container, or `low` is above `high`.
    OutOfRange,
    /// An enum value does not fit in the field's bits.
    EnumTooLarge { value: usize },
}

/// What is wrong with a device description.
#[derive(Clone, Copy, PartialEq, Eq, Structural)]
pub enum SpecFault {
    /// The width is not 8, 16, 32 or 64.
    RegisterWidth { reg: usize },
    /// The offset is not a multiple of the register's size.
    Unaligned { reg: usize },
    /// An earlier register has the same offset, and not both are aliased.
    OffsetTaken { reg: usize },
    FlagsAndFields { reg: usize },
    FlagBit { reg: usize, flag: usize },
    Field { container: Container, field: usize, fault: FieldFault },
    PartBits { reg: usize, part: usize },
    PartRange { reg: usize, part: usize },
    PairLowMissing { pair: usize },
    PairHighMissing { pair: usize },
    PairWidth { pair: usize },
    PairAccessDiffers { pair: usize },
    PairAccess { pair: usize },
    PairNameTaken { pair: usize },
    WindowSelectorMissing { win: usize },
    WindowValueMissing { win: usize },
    WindowSelectorNotWritable { win: usize },
    WindowChunkWidth { win: usize },
    WindowNotReadable { win: usize },
    WindowNotWritable { win: usize },
    WindowEmpty { win: usize },
    /// Offsets are to be verified, but against no module.
    NoVerifyModule,
    VerifyRegisterMissing { entry: usize },
    DescriptorWidth { desc: usize },
}

// ---------------------------------------------------------------------------
// Fields
// ---------------------------------------------------------------------------

/// The first enum value, from `i` on, that exceeds `max`.
pub open spec fn enum_fault_from(f: Field, max: nat, i: int) -> Option<FieldFault>
    decreases f.enum_values@.len() - i,
{
    if i < 0 || i >= f.enum_values@.len() {
        None
    } else if f.enum_values@[i].value > max {
        Some(FieldFault::EnumTooLarge { value: i as usize })
    } else {
        enum_fault_from(f, max, i + 1)
    }
}

/// What is wrong with a field of a container of `width` bits.
pub open spec fn field_fault(f: Field, width: u8) -> Option<FieldFault> {
    match bits_of(f.bits@) {
        None => Some(FieldFault::BadBits),
        Some(bits) => if bits.0 >= width || bits.1 > bits.0 {
            Some(FieldFault::OutOfRange)
        } else {
            enum_fault_from(f, largest(bit_count(bits)), 0)
        },
    }
}

/// Checks one field of a container of `width` bits.
pub fn validate_field(f: &Field, width: u8) -> (r: Option<FieldFault>)
    ensures
        r == field_fault(*f, width),
{
    match parse_bits(f.bits.as_str()) {
        None => Some(FieldFault::BadBits),
        Some((hi, lo)) => {
            if hi >= width || lo > hi {
                return Some(FieldFault::OutOfRange);
            }
            let max = if hi - lo >= 63 {
                u64::MAX
            } else {
                largest_of(hi - lo + 1)
            };
            assert(max == largest(bit_count((hi, lo))));
            let mut i: usize = 0;
            while i < f.enum_values.len()
                invariant
                    i <= f.enum_values@.len(),
                    field_fault(*f, width) == enum_fault_from(*f, max as nat, i as int),
                decreases f.enum_values@.len() - i,
            {
                if f.enum_values[i].value > max {
                    return Some(FieldFault::EnumTooLarge { value: i });
                }
                i += 1;
            }
            None
        },
    }
}

/// The first fault among the fields from `i` on.
pub open spec fn fields_fault_from(
    fields: Seq<Field>,
    width: u8,
    container: Container,
    i: int,
) -> Option<SpecFault>
    decreases fields.len() - i,
{
    if i < 0 || i >= fields.len() {
        None
    } else {
        match field_fault(fields[i], width) {
            Some(fault) => Some(SpecFault::Field { container, field: i as usize, fault }),
            None => fields_fault_from(fields, width, container, i + 1),
        }
    }
}

fn validate_fields(fields: &Vec<Field>, width: u8, container: Container) -> (r: Option<SpecFault>)
    ensures
        r == fields_fault_from(fields@, width, container, 0),
{
    let mut i: usize = 0;
    while i < fields.len()
        invariant
            i <= fields@.len(),
            fields_fault_from(fields@, width, container, 0) == fields_fault_from(
                fields@,
                width,
                container,
                i as int,
            ),
        decreases fields@.len() - i,
    {
        match validate_field(&fields[i], width) {
            Some(fault) => {
                return Some(SpecFault::Field { container, field: i, fault });
            },
            None => {},
        }
        i += 1;
    }
    None
}

// ---------------------------------------------------------------------------
// Registers
// ---------------------------------------------------------------------------

/// Whether the register is declared as one of several at its offset.
pub open spec fn is_aliased(r: Register) -> bool {
    r.kind == Some(RegisterKind::Aliased)
}

/// Whether a register before `i` has the offset of register `i` without both being
/// aliased.
pub open spec fn offset_taken(regs: Seq<Register>, i: int) -> bool {
    exists|j: int|
        0 <= j < i && #[trigger] regs[j].offset == regs[i].offset && !(is_aliased(regs[j])
            && is_aliased(regs[i]))
}

/// The first flag, from `i` on, whose bit lies outside the register.
pub open spec fn flag_fault_from(reg: Register, at: usize, i: int) -> Option<SpecFault>
    decreases reg.flags@.len() - i,
{
    if i < 0 || i >= reg.flags@.len() {
        None
    } else if reg.flags@[i].bit >= reg.width {
        Some(SpecFault::FlagBit { reg: at, flag: i as usize })
    } else {
        flag_fault_from(reg, at, i + 1)
    }
}

/// The first fault among the parts from `i` on.
pub open spec fn part_fault_from(reg: Register, at: usize, i: int) -> Option<SpecFault>
    decreases reg.parts@.len() - i,
{
    if i < 0 || i >= reg.parts@.len() {
        None
    } else {
        match bits_of(reg.parts@[i].bits@) {
            None => Some(SpecFault::PartBits { reg: at, part: i as usize }),
            Some(bits) => if bits.0 >= reg.width || bits.1 > bits.0 {
                Some(SpecFault::PartRange { reg: at, part: i as usize })
            } else {
                part_fault_from(reg, at, i + 1)
            },
        }
    }
}

/// What is wrong with register `i`.
pub open spec fn register_fault(regs: Seq<Register>, i: int) -> Option<SpecFault> {
    let reg = regs[i];
    let at = i as usize;
    if !is_width(reg.width) {
        Some(SpecFault::RegisterWidth { reg: at })
    } else if reg.offset % (reg.width as u64 / 8) != 0 {
        Some(SpecFault::Unaligned { reg: at })
    } else if offset_taken(regs, i) {
        Some(SpecFault::OffsetTaken { reg: at })
    } else if reg.flags@.len() > 0 && reg.fields@.len() > 0 {
        Some(SpecFault::FlagsAndFields { reg: at })
    } else if flag_fault_from(reg, at, 0) is Some {
        flag_fault_from(reg, at, 0)
    } else if fields_fault_from(reg.fields@, reg.width, Container::Register(at), 0) is Some {
        fields_fault_from(reg.fields@, reg.width, Container::Register(at), 0)
    } else {
        part_fault_from(reg, at, 0)
    }
}

/// The first fault among the registers from `i` on.
pub open spec fn registers_fault_from(regs: Seq<Register>, i: int) -> Option<SpecFault>
    decreases regs.len() - i,
{
    if i < 0 || i >= regs.len() {
        None
    } else {
        match register_fault(regs, i) {
            Some(fault) => Some(fault),
            None => registers_fault_from(regs, i + 1),
        }
    }
}

fn validate_flags(reg: &Register, at: usize) -> (r: Option<SpecFault>)
    ensures
        r == flag_fault_from(*reg, at, 0),
{
    let mut i: usize = 0;
    while i < reg.flags.len()
        invariant
            i <= reg.flags@.len(),
            flag_fault_from(*reg, at, 0) == flag_fault_from(*reg, at, i as int),
        decreases reg.flags@.len() - i,
    {
        if reg.flags[i].bit >= reg.width {
            return Some(SpecFault::FlagBit { reg: at, flag: i });
        }
        i += 1;
    }
    None
}

fn validate_parts(reg: &Register, at: usize) -> (r: Option<SpecFault>)
    ensures
        r == part_fault_from(*reg, at, 0),
{
    let mut i: usize = 0;
    while i < reg.parts.len()
        invariant
            i <= reg.parts@.len(),
            part_fault_from(*reg, at, 0) == part_fault_from(*reg, at, i as int),
        decreases reg.parts@.len() - i,
    {
        match parse_bits(reg.parts[i].bits.as_str()) {
            None => {
                return Some(SpecFault::PartBits { reg: at, part: i });
            },
            Some((hi, lo)) => {
                if hi >= reg.width || lo > hi {
                    return Some(SpecFault::PartRange { reg: at, part: i });
                }
            },
        }
        i += 1;
    }
    None
}

fn aliased(r: &Register) -> (b: bool)
    ensures
        b == is_aliased(*r),
{
    match r.kind {
        Some(RegisterKind::Aliased) => true,
        _ => false,
    }
}

fn taken(regs: &Vec<Register>, i: usize) -> (b: bool)
    requires
        i < regs@.len(),
    ensures
        b == offset_taken(regs@, i as int),
{
    let mut j: usize = 0;
    while j < i
        invariant
            j <= i < regs@.len(),
            forall|k: int|
                0 <= k < j ==> !(#[trigger] regs@[k].offset == regs@[i as int].offset && !(
                is_aliased(regs@[k]) && is_aliased(regs@[i as int]))),
        decreases i - j,
    {
        if regs[j].offset == regs[i].offset && !(aliased(&regs[j]) && aliased(&regs[i])) {
            assert(regs@[j as int].offset == regs@[i as int].offset);
            return true;
        }
        j += 1;
    }
    false
}

fn validate_register(regs: &Vec<Register>, i: usize) -> (r: Option<SpecFault>)
    requires
        i < regs@.len(),
    ensures
        r == register_fault(regs@, i as int),
{
    let reg = &regs[i];
    let w = reg.width;
    if w != 8 && w != 16 && w != 32 && w != 64 {
        return Some(SpecFault::RegisterWidth { reg: i });
    }
    if reg.offset % (w as u64 / 8) != 0 {
        return Some(SpecFault::Unaligned { reg: i });
    }
    if taken(regs, i) {
        return Some(SpecFault::OffsetTaken { reg: i });
    }
    if reg.flags.len() > 0 && reg.fields.len() > 0 {
        return Some(SpecFault::FlagsAndFields { reg: i });
    }
    let flags = validate_flags(reg, i);
    if flags.is_some() {
        return flags;
    }
    let fields = validate_fields(&reg.fields, w, Container::Register(i));
    if fields.is_some() {
        return fields;
    }
    validate_parts(reg, i)
}

fn validate_registers(regs: &Vec<Register>) -> (r: Option<SpecFault>)
    ensures
        r == registers_fault_from(regs@, 0),
{
    let mut i: usize = 0;
    while i < regs.len()
        invariant
            i <= regs@.len(),
            registers_fault_from(regs@, 0) == registers_fault_from(regs@, i as int),
        decreases regs@.len() - i,
    {
        let fault = validate_register(regs, i);
        if fault.is_some() {
            return fault;
        }
        i += 1;
    }
    None
}

// ---------------------------------------------------------------------------
// Pairs, windows, verified offsets, descriptors
// ---------------------------------------------------------------------------

/// What is wrong with a pair of 32-bit registers.
pub open spec fn pair_fault(regs: Seq<Register>, pair: U64Pair, at: usize) -> Option<SpecFault> {
    let low = regs[register_named(regs, pair.low@)];
    let high = regs[register_named(regs, pair.high@)];
    if !has_register(regs, pair.low@) {
        Some(SpecFault::PairLowMissing { pair: at })
    } else if !has_register(regs, pair.high@) {
        Some(SpecFault::PairHighMissing { pair: at })
    } else if low.width != 32 || high.width != 32 {
        Some(SpecFault::PairWidth { pair: at })
    } else if low.access != high.access {
        Some(SpecFault::PairAccessDiffers { pair: at })
    } else if !(low.access is Ro || low.access is Rw || low.access is Wo) {
        Some(SpecFault::PairAccess { pair: at })
    } else if has_register(regs, pair.name@) {
        Some(SpecFault::PairNameTaken { pair: at })
    } else {
        None
    }
}

/// The first fault among the pairs from `i` on.
pub open spec fn pairs_fault_from(spec: Spec, i: int) -> Option<SpecFault>
    decreases spec.u64_pairs@.len() - i,
{
    if i < 0 || i >= spec.u64_pairs@.len() {
        None
    } else {
        match pair_fault(spec.registers@, spec.u64_pairs@[i], i as usize) {
            Some(fault) => Some(fault),
            None => pairs_fault_from(spec, i + 1),
        }
    }
}

fn validate_pair(regs: &Vec<Register>, pair: &U64Pair, at: usize) -> (r: Option<SpecFault>)
    ensures
        r == pair_fault(regs@, *pair, at),
{
    let low = match find_register(regs, pair.low.as_str()) {
        Some(i) => i,
        None => {
            return Some(SpecFault::PairLowMissing { pair: at });
        },
    };
    let high = match find_register(regs, pair.high.as_str()) {
        Some(i) => i,
        None => {
            return Some(SpecFault::PairHighMissing { pair: at });
        },
    };
    if regs[low].width != 32 || regs[high].width != 32 {
        return Some(SpecFault::PairWidth { pair: at });
    }
    if regs[low].access != regs[high].access {
        return Some(SpecFault::PairAccessDiffers { pair: at });
    }
    match regs[low].access {
        Access::Ro | Access::Rw | Access::Wo => {},
        _ => {
            return Some(SpecFault::PairAccess { pair: at });
        },
    }
    if find_register(regs, pair.name.as_str()).is_some() {
        return Some(SpecFault::PairNameTaken { pair: at });
    }
    None
}

fn validate_pairs(spec: &Spec) -> (r: Option<SpecFault>)
    ensures
        r == pairs_fault_from(*spec, 0),
{
    let mut i: usize = 0;
    while i < spec.u64_pairs.len()
        invariant
            i <= spec.u64_pairs@.len(),
            pairs_fault_from(*spec, 0) == pairs_fault_from(*spec, i as int),
        decreases spec.u64_pairs@.len() - i,
    {
        let fault = validate_pair(&spec.registers, &spec.u64_pairs[i], i);
        if fault.is_some() {
            return fault;
        }
        i += 1;
    }
    None
}

/// What is wrong with a selector and value pair.
pub open spec fn window_fault(regs: Seq<Register>, win: Windowed, at: usize) -> Option<SpecFault> {
    let sel = regs[register_named(regs, win.selector@)];
    let val = regs[register_named(regs, win.value@)];
    if !has_register(regs, win.selector@) {
        Some(SpecFault::WindowSelectorMissing { win: at })
    } else if !has_register(regs, win.value@) {
        Some(SpecFault::WindowValueMissing { win: at })
    } else if !(sel.access is Wo || sel.access is Rw) {
        Some(SpecFault::WindowSelectorNotWritable { win: at })
    } else if win.chunk_width != val.width {
        Some(SpecFault::WindowChunkWidth { win: at })
    } else if win.direction is Read && !(val.access is Ro || val.access is Rw) {
        Some(SpecFault::WindowNotReadable { win: at })
    } else if win.direction is Write && !(val.access is Wo || val.access is Rw) {
        Some(SpecFault::WindowNotWritable { win: at })
    } else if win.chunk_count == 0 {
        Some(SpecFault::WindowEmpty { win: at })
    } else {
        None
    }
}

/// The first fault among the windows from `i` on.
pub open spec fn windows_fault_from(spec: Spec, i: int) -> Option<SpecFault>
    decreases spec.windowed@.len() - i,
{
    if i < 0 || i >= spec.windowed@.len() {
        None
    } else {
        match window_fault(spec.registers@, spec.windowed@[i], i as usize) {
            Some(fault) => Some(fault),
            None => windows_fault_from(spec, i + 1),
        }
    }
}

fn validate_window(regs: &Vec<Register>, win: &Windowed, at: usize) -> (r: Option<SpecFault>)
    ensures
        r == window_fault(regs@, *win, at),
{
    let sel = match find_register(regs, win.selector.as_str()) {
        Some(i) => i,
        None => {
            return Some(SpecFault::WindowSelectorMissing { win: at });
        },
    };
    let val = match find_register(regs, win.value.as_str()) {
        Some(i) => i,
        None => {
            return Some(SpecFault::WindowValueMissing { win: at });
        },
    };
    match regs[sel].access {
        Access::Wo | Access::Rw => {},
        _ => {
            return Some(SpecFault::WindowSelectorNotWritable { win: at });
        },
    }
    if win.chunk_width != regs[val].width {
        return Some(SpecFault::WindowChunkWidth { win: at });
    }
    match win.direction {
        WindowedDirection::Read => match regs[val].access {
            Access::Ro | Access::Rw => {},
            _ => {
                return Some(SpecFault::WindowNotReadable { win: at });
            },
        },
        WindowedDirection::Write => match regs[val].access {
            Access::Wo | Access::Rw => {},
            _ => {
                return Some(SpecFault::WindowNotWritable { win: at });
            },
        },
    }
    if win.chunk_count == 0 {
        return Some(SpecFault::WindowEmpty { win: at });
    }
    None
}

fn validate_windows(spec: &Spec) -> (r: Option<SpecFault>)
    ensures
        r == windows_fault_from(*spec, 0),
{
    let mut i: usize = 0;
    while i < spec.windowed.len()
        invariant
            i <= spec.windowed@.len(),
            windows_fault_from(*spec, 0) == windows_fault_from(*spec, i as int),
        decreases spec.windowed@.len() - i,
    {
        let fault = validate_window(&spec.registers, &spec.windowed[i], i);
        if fault.is_some() {
            return fault;
        }
        i += 1;
    }
    None
}

/// The first verified offset, from `i` on, that names no register.
pub open spec fn verify_fault_from(spec: Spec, i: int) -> Option<SpecFault>
    decreases spec.verify_offsets@.len() - i,
{
    if i < 0 || i >= spec.verify_offsets@.len() {
        None
    } else if !has_register(spec.registers@, spec.verify_offsets@[i].reg@) {
        Some(SpecFault::VerifyRegisterMissing { entry: i as usize })
    } else {
        verify_fault_from(spec, i + 1)
    }
}

fn validate_verify_offsets(spec: &Spec) -> (r: Option<SpecFault>)
    ensures
        r == verify_fault_from(*spec, 0),
{
    let mut i: usize = 0;
    while i < spec.verify_offsets.len()
        invariant
            i <= spec.verify_offsets@.len(),
            verify_fault_from(*spec, 0) == verify_fault_from(*spec, i as int),
        decreases spec.verify_offsets@.len() - i,
    {
        if find_register(&spec.registers, spec.verify_offsets[i].reg.as_str()).is_none() {
            return Some(SpecFault::VerifyRegisterMissing { entry: i });
        }
        i += 1;
    }
    None
}

/// The first fault among the descriptors from `i` on.
pub open spec fn descriptors_fault_from(spec: Spec, i: int) -> Option<SpecFault>
    decreases spec.descriptors@.len() - i,
{
    if i < 0 || i >= spec.descriptors@.len() {
        None
    } else {
        let d = spec.descriptors@[i];
        let fields = fields_fault_from(d.fields@, d.width, Container::Descriptor(i as usize), 0);
        if !is_width(d.width) {
            Some(SpecFault::DescriptorWidth { desc: i as usize })
        } else if fields is Some {
            fields
        } else {
            descriptors_fault_from(spec, i + 1)
        }
    }
}

fn validate_descriptors(spec: &Spec) -> (r: Option<SpecFault>)
    ensures
        r == descriptors_fault_from(*spec, 0),
{
    let mut i: usize = 0;
    while i < spec.descriptors.len()
        invariant
            i <= spec.descriptors@.len(),
            descriptors_fault_from(*spec, 0) == descriptors_fault_from(*spec, i as int),
        decreases spec.descriptors@.len() - i,
    {
        let d = &spec.descriptors[i];
        let w = d.width;
        if w != 8 && w != 16 && w != 32 && w != 64 {
            return Some(SpecFault::DescriptorWidth { desc: i });
        }
        let fault = validate_fields(&d.fields, w, Container::Descriptor(i));
        if fault.is_some() {
            return fault;
        }
        i += 1;
    }
    None
}

// ---------------------------------------------------------------------------
// The whole description
// ---------------------------------------------------------------------------

/// The first fault of a device description, in the order in which it is checked.
pub open spec fn spec_fault(spec: Spec) -> Option<SpecFault> {
    if registers_fault_from(spec.registers@, 0) is Some {
        registers_fault_from(spec.registers@, 0)
    } else if pairs_fault_from(spec, 0) is Some {
        pairs_fault_from(spec, 0)
    } else if windows_fault_from(spec, 0) is Some {
        windows_fault_from(spec, 0)
    } else if spec.verify_offsets@.len() > 0 && spec.device.verify_against is None {
        Some(SpecFault::NoVerifyModule)
    } else if verify_fault_from(spec, 0) is Some {
        verify_fault_from(spec, 0)
    } else {
        descriptors_fault_from(spec, 0)
    }
}

/// Whether a device description passes every check.
pub open spec fn is_valid(spec: Spec) -> bool {
    spec_fault(spec) is None
}

/// Checks a device description.
pub fn validate(spec: &Spec) -> (r: Result<(), SpecFault>)
    ensures
        r is Ok <==> is_valid(*spec),
        r matches Err(fault) ==> spec_fault(*spec) == Some(fault),
{
    if let Some(fault) = validate_registers(&spec.registers) {
        return Err(fault);
    }
    if let Some(fault) = validate_pairs(spec) {
        return Err(fault);
    }
    if let Some(fault) = validate_windows(spec) {
        return Err(fault);
    }
    if spec.verify_offsets.len() > 0 && spec.device.verify_against.is_none() {
        return Err(SpecFault::NoVerifyModule);
    }
    if let Some(fault) = validate_verify_offsets(spec) {
        return Err(fault);
    }
    if let Some(fault) = validate_descriptors(spec) {
        return Err(fault);
    }
    Ok(())
}

// ---------------------------------------------------------------------------
// What a valid description satisfies
// ---------------------------------------------------------------------------

/// Whether the bits of a field lie within a register of `width` bits.
pub open spec fn field_fits(f: Field, width: u8) -> bool {
    bits_of(f.bits@) matches Some(bits) && bits.1 <= bits.0 < width
}

proof fn lemma_fields_fit(fields: Seq<Field>, width: u8, container: Container, i: int, k: int)
    requires
        0 <= i <= k < fields.len(),
        fields_fault_from(fields, width, container, i) is None,
    ensures
        field_fits(fields[k], width),
    decreases k - i,
{
    if i < k {
        lemma_fields_fit(fields, width, container, i + 1, k);
    }
}

proof fn lemma_register_ok(regs: Seq<Register>, i: int, k: int)
    requires
        0 <= i <= k < regs.len(),
        registers_fault_from(regs, i) is None,
    ensures
        register_fault(regs, k) is None,
    decreases k - i,
{
    if i < k {
        lemma_register_ok(regs, i + 1, k);
    }
}

/// In a valid description every register has one of the four widths and an offset that
/// is a multiple of its size.
pub proof fn lemma_valid_register(spec: Spec, k: int)
    requires
        is_valid(spec),
        0 <= k < spec.registers@.len(),
    ensures
        is_width(spec.registers@[k].width),
        spec.registers@[k].offset % (spec.registers@[k].width as u64 / 8) == 0,
        spec.registers@[k].flags@.len() == 0 || spec.registers@[k].fields@.len() == 0,
{
    lemma_register_ok(spec.registers@, 0, k);
}

/// In a valid description every field lies within its register.
pub proof fn lemma_valid_field(spec: Spec, k: int, f: int)
    requires
        is_valid(spec),
        0 <= k < spec.registers@.len(),
        0 <= f < spec.registers@[k].fields@.len(),
    ensures
        field_fits(spec.registers@[k].fields@[f], spec.registers@[k].width),
{
    lemma_register_ok(spec.registers@, 0, k);
    let reg = spec.registers@[k];
    lemma_fields_fit(reg.fields@, reg.width, Container::Register(k as usize), 0, f);
}

/// In a valid description two registers share an offset only where both are aliased.
pub proof fn lemma_valid_offsets(spec: Spec, j: int, k: int)
    requires
        is_valid(spec),
        0 <= j < k < spec.registers@.len(),
        spec.registers@[j].offset == spec.registers@[k].offset,
    ensures
        is_aliased(spec.registers@[j]),
        is_aliased(spec.registers@[k]),
{
    lemma_register_ok(spec.registers@, 0, k);
    assert(!offset_taken(spec.registers@, k));
}

proof fn lemma_pair_ok(spec: Spec, i: int, k: int)
    requires
        0 <= i <= k < spec.u64_pairs@.len(),
        pairs_fault_from(spec, i) is None,
    ensures
        pair_fault(spec.registers@, spec.u64_pairs@[k], k as usize) is None,
    decreases k - i,
{
    if i < k {
        lemma_pair_ok(spec, i + 1, k);
    }
}

/// In a valid description both halves of a pair are 32-bit registers with the same
/// access.
pub proof fn lemma_valid_pair(spec: Spec, k: int)
    requires
        is_valid(spec),
        0 <= k < spec.u64_pairs@.len(),
    ensures
        has_register(spec.registers@, spec.u64_pairs@[k].low@),
        has_register(spec.registers@, spec.u64_pairs@[k].high@),
        !has_register(spec.registers@, spec.u64_pairs@[k].name@),
        ({
            let low = spec.registers@[register_named(spec.registers@, spec.u64_pairs@[k].low@)];
            let high = spec.registers@[register_named(spec.registers@, spec.u64_pairs@[k].high@)];
            low.width == 32 && high.width == 32 && low.access == high.access
        }),
{
    lemma_pair_ok(spec, 0, k);
}

proof fn lemma_window_ok(spec: Spec, i: int, k: int)
    requires
        0 <= i <= k < spec.windowed@.len(),
        windows_fault_from(spec, i) is None,
    ensures
        window_fault(spec.registers@, spec.windowed@[k], k as usize) is None,
    decreases k - i,
{
    if i < k {
        lemma_window_ok(spec, i + 1, k);
    }
}

/// In a valid description both registers of a window exist, and it has a chunk.
pub proof fn lemma_valid_window(spec: Spec, k: int)
    requires
        is_valid(spec),
        0 <= k < spec.windowed@.len(),
    ensures
        has_register(spec.registers@, spec.windowed@[k].selector@),
        has_register(spec.registers@, spec.windowed@[k].value@),
        spec.windowed@[k].chunk_count > 0,
        spec.windowed@[k].chunk_width == spec.registers@[register_named(
            spec.registers@,
            spec.windowed@[k].value@,
        )].width,
{
    lemma_window_ok(spec, 0, k);
}

// ---------------------------------------------------------------------------
// What is valid
// ---------------------------------------------------------------------------

/// Whether bits lie in a container of `width` bits, the high one not below the low one.
pub open spec fn bits_lie(s: Seq<char>, width: u8) -> bool {
    bits_of(s) matches Some(b) && b.1 <= b.0 && b.0 < width
}

/// Whether a field lies in its container, and each of its named values in the field.
pub open spec fn field_is_sound(f: Field, width: u8) -> bool {
    &&& bits_lie(f.bits@, width)
    &&& forall|i: int|
        0 <= i < f.enum_values@.len() ==> (#[trigger] f.enum_values@[i]).value <= largest(
            (bits_of(f.bits@)->0).0 - (bits_of(f.bits@)->0).1 + 1,
        )
}

proof fn lemma_enum_fault(f: Field, max: nat, i: int)
    requires
        0 <= i <= f.enum_values@.len(),
    ensures
        enum_fault_from(f, max, i) is None <==> forall|k: int|
            i <= k < f.enum_values@.len() ==> (#[trigger] f.enum_values@[k]).value <= max,
    decreases f.enum_values@.len() - i,
{
    if i < f.enum_values@.len() {
        lemma_enum_fault(f, max, i + 1);
        assert(f.enum_values@[i] == f.enum_values@[i]);
    }
}

proof fn lemma_field_fault(f: Field, width: u8)
    ensures
        field_fault(f, width) is None <==> field_is_sound(f, width),
{
    if let Some(b) = bits_of(f.bits@) {
        lemma_enum_fault(f, largest(bit_count(b)), 0);
    }
}

proof fn lemma_fields_fault(fields: Seq<Field>, width: u8, c: Container, i: int)
    requires
        0 <= i <= fields.len(),
    ensures
        fields_fault_from(fields, width, c, i) is None <==> forall|k: int|
            i <= k < fields.len() ==> field_is_sound(#[trigger] fields[k], width),
    decreases fields.len() - i,
{
    if i < fields.len() {
        lemma_field_fault(fields[i], width);
        lemma_fields_fault(fields, width, c, i + 1);
        assert(fields[i] == fields[i]);
    }
}

proof fn lemma_flag_fault(r: Register, at: usize, i: int)
    requires
        0 <= i <= r.flags@.len(),
    ensures
        flag_fault_from(r, at, i) is None <==> forall|k: int|
            i <= k < r.flags@.len() ==> (#[trigger] r.flags@[k]).bit < r.width,
    decreases r.flags@.len() - i,
{
    if i < r.flags@.len() {
        lemma_flag_fault(r, at, i + 1);
        assert(r.flags@[i] == r.flags@[i]);
    }
}

proof fn lemma_part_fault(r: Register, at: usize, i: int)
    requires
        0 <= i <= r.parts@.len(),
    ensures
        part_fault_from(r, at, i) is None <==> forall|k: int|
            i <= k < r.parts@.len() ==> bits_lie((#[trigger] r.parts@[k]).bits@, r.width),
    decreases r.parts@.len() - i,
{
    if i < r.parts@.len() {
        lemma_part_fault(r, at, i + 1);
        assert(r.parts@[i] == r.parts@[i]);
    }
}

/// Whether register `k` is in order: it has one of the four widths, stands at a multiple of its
/// size, shares its offset only with aliases, has flags or fields but not both, and all its
/// flags, fields and parts lie in it.
pub open spec fn register_is_sound(regs: Seq<Register>, k: int) -> bool {
    let r = regs[k];
    &&& r.width == 8 || r.width == 16 || r.width == 32 || r.width == 64
    &&& r.offset % (r.width as u64 / 8) == 0
    &&& forall|j: int|
        0 <= j < k && (#[trigger] regs[j]).offset == r.offset ==> regs[j].kind == Some(
            RegisterKind::Aliased,
        ) && r.kind == Some(RegisterKind::Aliased)
    &&& r.flags@.len() == 0 || r.fields@.len() == 0
    &&& forall|i: int| 0 <= i < r.flags@.len() ==> (#[trigger] r.flags@[i]).bit < r.width
    &&& forall|i: int|
        0 <= i < r.fields@.len() ==> field_is_sound(#[trigger] r.fields@[i], r.width)
    &&& forall|i: int| 0 <= i < r.parts@.len() ==> bits_lie((#[trigger] r.parts@[i]).bits@, r.width)
}

/// A register has no fault if and only if it is in order.
pub proof fn lemma_register_fault(regs: Seq<Register>, k: int)
    requires
        0 <= k < regs.len(),
    ensures
        register_fault(regs, k) is None <==> register_is_sound(regs, k),
{
    let r = regs[k];
    let at = k as usize;
    lemma_flag_fault(r, at, 0);
    lemma_fields_fault(r.fields@, r.width, Container::Register(at), 0);
    lemma_part_fault(r, at, 0);
    if offset_taken(regs, k) {
        let j = choose|j: int|
            0 <= j < k && #[trigger] regs[j].offset == regs[k].offset && !(is_aliased(regs[j])
                && is_aliased(regs[k]));
        assert(regs[j].offset == r.offset);
    } else {
        assert forall|j: int| 0 <= j < k && (#[trigger] regs[j]).offset == r.offset implies regs[j].kind
            == Some(RegisterKind::Aliased) && r.kind == Some(RegisterKind::Aliased) by {
            assert(regs[j].offset == regs[k].offset);
        }
    }
}

/// Whether a pair is in order: both halves are registers of 32 bits that can both be read, or
/// written, or both, and its name is that of no register.
pub open spec fn pair_is_sound(regs: Seq<Register>, p: U64Pair) -> bool {
    let low = regs[register_named(regs, p.low@)];
    let high = regs[register_named(regs, p.high@)];
    &&& has_register(regs, p.low@)
    &&& has_register(regs, p.high@)
    &&& low.width == 32
    &&& high.width == 32
    &&& low.access == high.access
    &&& low.access == Access::Ro || low.access == Access::Rw || low.access == Access::Wo
    &&& !has_register(regs, p.name@)
}

/// Whether a window is in order: its registers are there, the selector can be written, and the
/// value, which is as wide as a chunk, can be read or written as the window is; and it has a
/// chunk.
pub open spec fn window_is_sound(regs: Seq<Register>, w: Windowed) -> bool {
    let sel = regs[register_named(regs, w.selector@)];
    let val = regs[register_named(regs, w.value@)];
    &&& has_register(regs, w.selector@)
    &&& has_register(regs, w.value@)
    &&& sel.access == Access::Wo || sel.access == Access::Rw
    &&& w.chunk_width == val.width
    &&& w.direction == WindowedDirection::Read ==> val.access == Access::Ro || val.access
        == Access::Rw
    &&& w.direction == WindowedDirection::Write ==> val.access == Access::Wo || val.access
        == Access::Rw
    &&& w.chunk_count > 0
}

proof fn lemma_registers_fault(regs: Seq<Register>, i: int)
    requires
        0 <= i <= regs.len(),
    ensures
        registers_fault_from(regs, i) is None <==> forall|k: int|
            i <= k < regs.len() ==> #[trigger] register_is_sound(regs, k),
    decreases regs.len() - i,
{
    if i < regs.len() {
        lemma_register_fault(regs, i);
        lemma_registers_fault(regs, i + 1);
    }
}

proof fn lemma_pairs_fault(spec: Spec, i: int)
    requires
        0 <= i <= spec.u64_pairs@.len(),
    ensures
        pairs_fault_from(spec, i) is None <==> forall|k: int|
            i <= k < spec.u64_pairs@.len() ==> pair_is_sound(
                spec.registers@,
                #[trigger] spec.u64_pairs@[k],
            ),
    decreases spec.u64_pairs@.len() - i,
{
    if i < spec.u64_pairs@.len() {
        lemma_pairs_fault(spec, i + 1);
        let p = spec.u64_pairs@[i];
        assert(pair_fault(spec.registers@, p, i as usize) is None <==> pair_is_sound(
            spec.registers@,
            p,
        ));
        assert(spec.u64_pairs@[i] == p);
    }
}

proof fn lemma_windows_fault(spec: Spec, i: int)
    requires
        0 <= i <= spec.windowed@.len(),
    ensures
        windows_fault_from(spec, i) is None <==> forall|k: int|
            i <= k < spec.windowed@.len() ==> window_is_sound(
                spec.registers@,
                #[trigger] spec.windowed@[k],
            ),
    decreases spec.windowed@.len() - i,
{
    if i < spec.windowed@.len() {
        lemma_windows_fault(spec, i + 1);
        let w = spec.windowed@[i];
        assert(window_fault(spec.registers@, w, i as usize) is None <==> window_is_sound(
            spec.registers@,
            w,
        ));
        assert(spec.windowed@[i] == w);
    }
}

proof fn lemma_verify_fault(spec: Spec, i: int)
    requires
        0 <= i <= spec.verify_offsets@.len(),
    ensures
        verify_fault_from(spec, i) is None <==> forall|k: int|
            i <= k < spec.verify_offsets@.len() ==> has_register(
                spec.registers@,
                (#[trigger] spec.verify_offsets@[k]).reg@,
            ),
    decreases spec.verify_offsets@.len() - i,
{
    if i < spec.verify_offsets@.len() {
        lemma_verify_fault(spec, i + 1);
        assert(spec.verify_offsets@[i] == spec.verify_offsets@[i]);
    }
}

/// Whether a descriptor is in order: it has one of the four widths, and its fields lie in it.
pub open spec fn descriptor_is_sound(d: Descriptor) -> bool {
    &&& d.width == 8 || d.width == 16 || d.width == 32 || d.width == 64
    &&& forall|i: int|
        0 <= i < d.fields@.len() ==> field_is_sound(#[trigger] d.fields@[i], d.width)
}

proof fn lemma_descriptors_fault(spec: Spec, i: int)
    requires
        0 <= i <= spec.descriptors@.len(),
    ensures
        descriptors_fault_from(spec, i) is None <==> forall|k: int|
            i <= k < spec.descriptors@.len() ==> descriptor_is_sound(
                #[trigger] spec.descriptors@[k],
            ),
    decreases spec.descriptors@.len() - i,
{
    if i < spec.descriptors@.len() {
        lemma_descriptors_fault(spec, i + 1);
        let d = spec.descriptors@[i];
        lemma_fields_fault(d.fields@, d.width, Container::Descriptor(i as usize), 0);
        assert(spec.descriptors@[i] == d);
    }
}

/// A description is valid if and only if every register, pair, window and descriptor of it is in
/// order and every offset that is to be verified, against a module that it names, is that of a
/// register.
pub proof fn lemma_valid(spec: Spec)
    ensures
        is_valid(spec) <==> {
            &&& forall|k: int|
                0 <= k < spec.registers@.len() ==> #[trigger] register_is_sound(spec.registers@, k)
            &&& forall|k: int|
                0 <= k < spec.u64_pairs@.len() ==> pair_is_sound(
                    spec.registers@,
                    #[trigger] spec.u64_pairs@[k],
                )
            &&& forall|k: int|
                0 <= k < spec.windowed@.len() ==> window_is_sound(
                    spec.registers@,
                    #[trigger] spec.windowed@[k],
                )
            &&& spec.verify_offsets@.len() > 0 ==> spec.device.verify_against is Some
            &&& forall|k: int|
                0 <= k < spec.verify_offsets@.len() ==> has_register(
                    spec.registers@,
                    (#[trigger] spec.verify_offsets@[k]).reg@,
                )
            &&& forall|k: int|
                0 <= k < spec.descriptors@.len() ==> descriptor_is_sound(
                    #[trigger] spec.descriptors@[k],
                )
        },
{
    lemma_registers_fault(spec.registers@, 0);
    lemma_pairs_fault(spec, 0);
    lemma_windows_fault(spec, 0);
    lemma_verify_fault(spec, 0);
    lemma_descriptors_fault(spec, 0);
}

/// Bits are read as they are written: the high one, a colon, the low one.
pub proof fn lemma_bits_read(hi: u8, lo: u8)
    ensures
        bits_of(
            crate::numerals::decimal(hi as nat) + seq![':'] + crate::numerals::decimal(lo as nat),
        ) == Some((hi, lo)),
{
    let a = crate::numerals::decimal(hi as nat);
    let b = crate::numerals::decimal(lo as nat);
    let s = a + seq![':'] + b;
    crate::numerals::lemma_numeral_back(hi as nat, 10, false);
    crate::numerals::lemma_numeral_back(lo as nat, 10, false);
    crate::numerals::lemma_written_then_read(hi as nat, 255);
    crate::numerals::lemma_written_then_read(lo as nat, 255);
    assert forall|i: int| 0 <= i < a.len() implies s[i] != ':' by {
        assert(s[i] == a[i]);
        assert(crate::text::digit_value(a[i], 10) >= 0);
    }
    assert(s[a.len() as int] == ':');
    crate::text::lemma_index_of_is(s, ':', a.len() as int);
    assert(s.take(a.len() as int) =~= a);
    assert(s.skip(a.len() as int + 1) =~= b);
    assert forall|i: int| 0 <= i < a.len() implies !crate::text::is_white(#[trigger] a[i]) by {
        assert(crate::text::digit_value(a[i], 10) >= 0);
    }
    assert forall|i: int| 0 <= i < b.len() implies !crate::text::is_white(#[trigger] b[i]) by {
        assert(crate::text::digit_value(b[i], 10) >= 0);
    }
    let none = Seq::<char>::empty();
    assert(crate::text::all_white(none));
    crate::text::lemma_trimmed_of(none, a, none);
    crate::text::lemma_trimmed_of(none, b, none);
    assert(none + a + none =~= a);
    assert(none + b + none =~= b);
}

} // verus!
