use lockjaw::gen_regs::emit::{emit_device, EmitFault};
use lockjaw::gen_regs::model::{
    field_mask_of, parse_bits, Access, Descriptor, DeviceMeta, Endian, EnumValue, Field,
    FieldAccess, Flag, Part, Register, RegisterKind, Spec, U64Pair, U64PairEndian, VerifyOffset,
    Windowed, WindowedDirection,
};
use lockjaw::gen_regs::validate::{validate, Container, FieldFault, SpecFault};
use lockjaw::gen_wires;
use lockjaw::letter_case::{to_kebab, to_pascal, to_snake, to_upper};

fn reg(name: &str, offset: u64, width: u8, access: Access) -> Register {
    Register {
        name: name.to_string(),
        offset,
        width,
        access,
        description: None,
        kind: None,
        flags: vec![],
        fields: vec![],
        parts: vec![],
        aliases: vec![],
        endian: None,
    }
}

fn flag(name: &str, bit: u8) -> Flag {
    Flag { name: name.to_string(), bit, description: None }
}

fn field(name: &str, bits: &str) -> Field {
    Field {
        name: name.to_string(),
        bits: bits.to_string(),
        description: None,
        enum_values: vec![],
        access: FieldAccess::Rw,
    }
}

fn spec(registers: Vec<Register>) -> Spec {
    Spec {
        device: DeviceMeta {
            name: "DemoUart".to_string(),
            description: Some("A demo.".to_string()),
            emit: true,
            verify_against: None,
        },
        registers,
        descriptors: vec![],
        u64_pairs: vec![],
        windowed: vec![],
        verify_offsets: vec![],
    }
}

fn emitted(s: &Spec) -> String {
    match emit_device(s) {
        Ok(text) => text,
        Err(_) => panic!("not emitted"),
    }
}

fn fault(s: &Spec) -> SpecFault {
    match validate(s) {
        Ok(()) => panic!("valid"),
        Err(f) => f,
    }
}

fn refused(s: &Spec) -> EmitFault {
    match emit_device(s) {
        Ok(_) => panic!("emitted"),
        Err(f) => f,
    }
}

// --- names and numbers ---------------------------------------------------------------

#[test]
fn names_change_their_case() {
    assert_eq!(to_upper("rx_fifo"), "RX_FIFO");
    assert_eq!(to_upper("straße"), "STRASSE");
    assert_eq!(to_pascal("int_status"), "IntStatus");
    assert_eq!(to_snake("DemoUart"), "demo_uart");
    assert_eq!(to_snake("ÄrÖ"), "är_ö");
    assert_eq!(to_kebab("DemoUart"), "demo-uart");
}

#[test]
fn bits_are_two_numbers() {
    assert_eq!(parse_bits("7:4"), Some((7, 4)));
    assert_eq!(parse_bits(" 31 : 0 "), Some((31, 0)));
    assert_eq!(parse_bits("7"), None);
    assert_eq!(parse_bits("x:1"), None);
    assert_eq!(parse_bits("256:1"), None);
    assert_eq!(field_mask_of((7, 4), 32), 0xf0);
    assert_eq!(field_mask_of((63, 0), 64), u64::MAX);
}

// --- what is refused -----------------------------------------------------------------

#[test]
fn registers_are_checked() {
    assert!(validate(&spec(vec![reg("a", 0, 32, Access::Rw)])).is_ok());
    assert!(matches!(
        fault(&spec(vec![reg("a", 0, 24, Access::Rw)])),
        SpecFault::RegisterWidth { reg: 0 }
    ));
    assert!(matches!(
        fault(&spec(vec![reg("a", 2, 32, Access::Rw)])),
        SpecFault::Unaligned { reg: 0 }
    ));
    assert!(matches!(
        fault(&spec(vec![reg("a", 4, 32, Access::Rw), reg("b", 4, 32, Access::Rw)])),
        SpecFault::OffsetTaken { reg: 1 }
    ));
    let mut a = reg("a", 0, 32, Access::Rw);
    a.flags = vec![flag("x", 0)];
    a.fields = vec![field("y", "1:0")];
    assert!(matches!(fault(&spec(vec![a])), SpecFault::FlagsAndFields { reg: 0 }));
    let mut a = reg("a", 0, 8, Access::Rw);
    a.flags = vec![flag("x", 7), flag("y", 8)];
    assert!(matches!(fault(&spec(vec![a])), SpecFault::FlagBit { reg: 0, flag: 1 }));
}

#[test]
fn fields_and_parts_are_checked() {
    let with = |f: Field| {
        let mut a = reg("a", 0, 8, Access::Rw);
        a.fields = vec![field("ok", "7:0"), f];
        spec(vec![a])
    };
    assert!(matches!(
        fault(&with(field("f", "7"))),
        SpecFault::Field {
            container: Container::Register(0),
            field: 1,
            fault: FieldFault::BadBits
        }
    ));
    assert!(matches!(
        fault(&with(field("f", "8:0"))),
        SpecFault::Field { fault: FieldFault::OutOfRange, .. }
    ));
    assert!(matches!(
        fault(&with(field("f", "1:2"))),
        SpecFault::Field { fault: FieldFault::OutOfRange, .. }
    ));
    let mut f = field("f", "1:0");
    f.enum_values = vec![
        EnumValue { name: "A".to_string(), value: 3 },
        EnumValue { name: "B".to_string(), value: 4 },
    ];
    assert!(matches!(
        fault(&with(f)),
        SpecFault::Field { fault: FieldFault::EnumTooLarge { value: 1 }, .. }
    ));
    let part = |bits: &str| {
        let mut a = reg("a", 0, 8, Access::Rw);
        a.parts = vec![Part { name: "p".to_string(), bits: bits.to_string() }];
        spec(vec![a])
    };
    assert!(matches!(fault(&part("x")), SpecFault::PartBits { reg: 0, part: 0 }));
    assert!(matches!(fault(&part("8:0")), SpecFault::PartRange { reg: 0, part: 0 }));
    let mut s = spec(vec![]);
    s.descriptors = vec![Descriptor {
        name: "d".to_string(),
        width: 12,
        description: None,
        fields: vec![],
    }];
    assert!(matches!(fault(&s), SpecFault::DescriptorWidth { desc: 0 }));
}

fn pair_spec(low: Register, high: Register, name: &str) -> Spec {
    let mut s = spec(vec![low, high]);
    s.u64_pairs = vec![U64Pair {
        name: name.to_string(),
        low: "lo".to_string(),
        high: "hi".to_string(),
        endian: U64PairEndian::Little,
    }];
    s
}

#[test]
fn pairs_are_checked() {
    let lo = || reg("lo", 0, 32, Access::Rw);
    let hi = || reg("hi", 4, 32, Access::Rw);
    assert!(validate(&pair_spec(lo(), hi(), "both")).is_ok());
    assert!(matches!(
        fault(&pair_spec(reg("x", 0, 32, Access::Rw), hi(), "both")),
        SpecFault::PairLowMissing { pair: 0 }
    ));
    assert!(matches!(
        fault(&pair_spec(lo(), reg("x", 4, 32, Access::Rw), "both")),
        SpecFault::PairHighMissing { pair: 0 }
    ));
    assert!(matches!(
        fault(&pair_spec(lo(), reg("hi", 4, 16, Access::Rw), "both")),
        SpecFault::PairWidth { pair: 0 }
    ));
    assert!(matches!(
        fault(&pair_spec(lo(), reg("hi", 4, 32, Access::Ro), "both")),
        SpecFault::PairAccessDiffers { pair: 0 }
    ));
    assert!(matches!(
        fault(&pair_spec(
            reg("lo", 0, 32, Access::W1c),
            reg("hi", 4, 32, Access::W1c),
            "both"
        )),
        SpecFault::PairAccess { pair: 0 }
    ));
    assert!(matches!(
        fault(&pair_spec(lo(), hi(), "lo")),
        SpecFault::PairNameTaken { pair: 0 }
    ));
}

fn window_spec(sel: Access, val: Access, chunk_width: u8, chunk_count: u8) -> Spec {
    let mut s = spec(vec![reg("sel", 0, 32, sel), reg("val", 4, 32, val)]);
    s.windowed = vec![Windowed {
        name: "features".to_string(),
        selector: "sel".to_string(),
        value: "val".to_string(),
        chunk_width,
        chunk_count,
        direction: WindowedDirection::Read,
        requires_barrier: true,
    }];
    s
}

#[test]
fn windows_are_checked() {
    assert!(validate(&window_spec(Access::Wo, Access::Ro, 32, 2)).is_ok());
    assert!(matches!(
        fault(&window_spec(Access::Ro, Access::Ro, 32, 2)),
        SpecFault::WindowSelectorNotWritable { win: 0 }
    ));
    assert!(matches!(
        fault(&window_spec(Access::Wo, Access::Ro, 16, 2)),
        SpecFault::WindowChunkWidth { win: 0 }
    ));
    assert!(matches!(
        fault(&window_spec(Access::Wo, Access::Wo, 32, 2)),
        SpecFault::WindowNotReadable { win: 0 }
    ));
    assert!(matches!(
        fault(&window_spec(Access::Wo, Access::Ro, 32, 0)),
        SpecFault::WindowEmpty { win: 0 }
    ));
    let mut s = window_spec(Access::Wo, Access::Ro, 32, 2);
    s.windowed[0].direction = WindowedDirection::Write;
    assert!(matches!(fault(&s), SpecFault::WindowNotWritable { win: 0 }));
    s.windowed[0].selector = "none".to_string();
    assert!(matches!(fault(&s), SpecFault::WindowSelectorMissing { win: 0 }));
    let mut s = window_spec(Access::Wo, Access::Ro, 32, 2);
    s.windowed[0].value = "none".to_string();
    assert!(matches!(fault(&s), SpecFault::WindowValueMissing { win: 0 }));
}

#[test]
fn bindings_are_checked() {
    let mut s = spec(vec![reg("a", 0, 32, Access::Rw)]);
    s.verify_offsets =
        vec![VerifyOffset { reg: "a".to_string(), const_name: "A".to_string() }];
    assert!(matches!(fault(&s), SpecFault::NoVerifyModule));
    s.device.verify_against = Some("m".to_string());
    assert!(validate(&s).is_ok());
    s.verify_offsets[0].reg = "b".to_string();
    assert!(matches!(fault(&s), SpecFault::VerifyRegisterMissing { entry: 0 }));
}

#[test]
fn what_cannot_be_written_is_refused() {
    let typed = |kind: Option<RegisterKind>, endian: Option<Endian>, access: Access| {
        let mut a = reg("a", 0, 32, access);
        a.kind = kind;
        a.endian = endian;
        a.flags = vec![flag("x", 0)];
        spec(vec![a])
    };
    let plain = |kind: Option<RegisterKind>, width: u8, access: Access, endian| {
        let mut a = reg("a", 0, width, access);
        a.kind = kind;
        a.endian = endian;
        spec(vec![a])
    };
    let passwd = || Some(RegisterKind::PasswdProtected);
    assert!(matches!(
        refused(&typed(Some(RegisterKind::Stream), None, Access::Rw)),
        EmitFault::StreamTyped { reg: 0 }
    ));
    assert!(matches!(
        refused(&plain(passwd(), 16, Access::Rw, None)),
        EmitFault::PasswdWidth { reg: 0 }
    ));
    assert!(matches!(
        refused(&plain(passwd(), 32, Access::Ro, None)),
        EmitFault::PasswdAccess { reg: 0 }
    ));
    assert!(matches!(
        refused(&plain(passwd(), 32, Access::Rw, Some(Endian::Big))),
        EmitFault::PasswdEndian { reg: 0 }
    ));
    assert!(matches!(
        refused(&plain(Some(RegisterKind::Aliased), 32, Access::Rw, None)),
        EmitFault::Kind { reg: 0 }
    ));
    assert!(matches!(
        refused(&plain(None, 32, Access::W1c, Some(Endian::Big))),
        EmitFault::EndianAccess { reg: 0 }
    ));
    assert!(matches!(
        refused(&typed(None, Some(Endian::Big), Access::Rw)),
        EmitFault::EndianTyped { reg: 0 }
    ));
    let mut a = reg("a", 0, 32, Access::Rw);
    a.aliases = vec!["b".to_string()];
    assert!(matches!(refused(&spec(vec![a])), EmitFault::PartsOrAliases { reg: 0 }));
    let mut s = spec(vec![reg("a", 0, 32, Access::Rw)]);
    s.descriptors = vec![Descriptor {
        name: "d".to_string(),
        width: 32,
        description: None,
        fields: vec![],
    }];
    assert!(matches!(refused(&s), EmitFault::Descriptors));
    let s = spec(vec![reg("a", 0, 64, Access::Rw), reg("b", 4, 32, Access::Rw)]);
    assert!(matches!(refused(&s), EmitFault::Overlap { reg: 1 }));
}

// --- what is written -----------------------------------------------------------------

#[test]
fn a_device_is_written() {
    let mut ctrl = reg("int_ctrl", 8, 32, Access::Rw);
    ctrl.description = Some("Control.".to_string());
    ctrl.flags = vec![flag("enable", 0), flag("irq", 4)];
    ctrl.flags[1].description = Some("Raise.".to_string());
    let text = emitted(&spec(vec![ctrl, reg("id", 0, 16, Access::Ro)]));
    let start = "\
//! A demo.
//!
//! GENERATED FILE — do not edit by hand.
//! Source: user/regspecs/demo-uart.toml
//! Regenerate with: `cargo xtask gen-regs`.
//! Drift is caught by: `cargo xtask gen-regs --check` (CI).

#![allow(dead_code, missing_docs)]

use lockjaw_mmio::cell::{Ro, Rw};

/// A demo.
#[repr(C)]
pub struct DemoUart {
    id: Ro<u16>,
    _pad0: [u8; 0x6],
    /// Control.
    int_ctrl: Rw<u32>,
}

// ---------- IntCtrl ----------

/// IntCtrl register — typed snapshot.
#[derive(Copy, Clone, Debug, Default, PartialEq, Eq)]
#[repr(transparent)]
pub struct IntCtrl(pub u32);

impl IntCtrl {
    /// Empty (no bits set).
    pub const fn empty() -> Self { Self(0) }
    /// Underlying bit pattern.
    pub const fn bits(self) -> u32 { self.0 }
    /// True if every bit set in `other` is set in `self`.
    pub const fn contains(self, other: Self) -> bool {
        (self.0 & other.0) == other.0
    }
    pub const ENABLE: Self = Self(1 << 0);
    /// Raise.
    pub const IRQ: Self = Self(1 << 4);
}

impl core::ops::BitOr for IntCtrl {
    type Output = Self;
    fn bitor(self, rhs: Self) -> Self { Self(self.0 | rhs.0) }
}
impl core::ops::BitAnd for IntCtrl {
    type Output = Self;
    fn bitand(self, rhs: Self) -> Self { Self(self.0 & rhs.0) }
}
impl core::ops::Not for IntCtrl {
    type Output = Self;
    fn not(self) -> Self { Self(!self.0) }
}

/// Returned when an enum decode sees a bit pattern that does not
/// correspond to any declared variant.
#[derive(Copy, Clone, Debug, PartialEq, Eq)]
pub struct ReservedBits(pub u64);

// ---------- DemoUart accessors ----------

impl DemoUart {
    /// Read a typed snapshot of `int_ctrl`.
    #[inline(always)]
    pub fn int_ctrl(&self) -> IntCtrl { IntCtrl(self.int_ctrl.read()) }
    /// Write the value back to `int_ctrl`.
    #[inline(always)]
    pub fn set_int_ctrl(&self, v: IntCtrl) { self.int_ctrl.write(v.0); }
    /// Read-modify-write `int_ctrl` via a typed closure.
    #[inline(always)]
    pub fn modify_int_ctrl<F: FnOnce(IntCtrl) -> IntCtrl>(&self, f: F) {
        self.int_ctrl.modify(|v| f(IntCtrl(v)).0);
    }
    /// Volatile read of `id` as `u16`.
    #[inline(always)]
    pub fn read_id(&self) -> u16 { self.id.read() }
}

";
    assert!(text.starts_with(start), "{}", &text[..start.len().min(text.len())]);
}

#[test]
fn fields_are_written() {
    let mut a = reg("mode", 0, 16, Access::Rw);
    let mut speed = field("speed", "3:1");
    speed.enum_values = vec![
        EnumValue { name: "Slow".to_string(), value: 0 },
        EnumValue { name: "Fast".to_string(), value: 5 },
    ];
    let mut busy = field("busy", "8:8");
    busy.access = FieldAccess::Ro;
    a.fields = vec![speed, busy, field("level", "15:12")];
    let text = emitted(&spec(vec![a]));
    for part in [
        "    /// Mask for the `speed` field (bits 3:1).
    pub const SPEED_MASK: u16 = 0xe;
    /// Right-shift to access the `speed` field.
    pub const SPEED_SHIFT: u32 = 1;
    /// Decode the `speed` field as `ModeSpeed`.
    pub const fn speed(self) -> Result<ModeSpeed, ReservedBits> {
        ModeSpeed::from_bits((self.0 & Self::SPEED_MASK) >> Self::SPEED_SHIFT)
    }
",
        "    /// Read `busy` as bool.
    pub const fn busy(self) -> bool { (self.0 & Self::BUSY_MASK) != 0 }
    /// Mask for the `level` field (bits 15:12).
    pub const LEVEL_MASK: u16 = 0xf000;
",
        "    pub const fn with_level(self, v: u16) -> Self {
        Self((self.0 & !Self::LEVEL_MASK) | ((v << Self::LEVEL_SHIFT) & Self::LEVEL_MASK))
    }
}

/// Enum for the `speed` field of `Mode`.
#[derive(Copy, Clone, Debug, PartialEq, Eq)]
#[repr(u8)]
pub enum ModeSpeed {
    Slow = 0x0,
    Fast = 0x5,
}
",
        "        match v {
            0x0 => Ok(Self::Slow),
            0x5 => Ok(Self::Fast),
            _ => Err(ReservedBits(v as u64)),
        }
",
    ] {
        assert!(text.contains(part), "{part}");
    }
}

#[test]
fn passwords_and_byte_orders_are_written() {
    let mut a = reg("gate", 0, 32, Access::Rw);
    a.kind = Some(RegisterKind::PasswdProtected);
    let mut b = reg("addr", 8, 64, Access::Wo);
    b.endian = Some(Endian::Big);
    let mut c = reg("fifo", 16, 32, Access::Rw);
    c.kind = Some(RegisterKind::Stream);
    let d = reg("ack", 20, 32, Access::W1c);
    let text = emitted(&spec(vec![a, b, c, d]));
    for part in [
        "    /// Volatile write of `gate` (PASSWD prefix injected automatically).
    #[inline(always)]
    pub fn write_gate(&self, v: u32) { self.gate.write(((v) & 0x00FF_FFFFu32) | (0x5Au32 << 24)); }
",
        "        self.gate.modify(|v| ((f(v)) & 0x00FF_FFFFu32) | (0x5Au32 << 24));
",
        "    /// Volatile write of `addr` (big-endian on the wire).
    #[inline(always)]
    pub fn write_addr(&self, v: u64) { self.addr.write(v.to_be()); }
",
        "    pub fn read_fifo(&self) -> u32 { self.fifo.read() }
",
        "    pub fn clear_ack(&self, mask: u32) { self.ack.clear(mask); }
",
        "use lockjaw_mmio::cell::{Rw, W1c, Wo};
",
    ] {
        assert!(text.contains(part), "{part}");
    }
    assert!(!text.contains("modify_fifo"));
}

#[test]
fn pairs_and_windows_are_written() {
    let text = emitted(&pair_spec(
        reg("lo", 0, 32, Access::Rw),
        reg("hi", 4, 32, Access::Rw),
        "both",
    ));
    assert!(text.contains(
        "    /// Composed read of `both` (low=lo, high=hi, le).
    #[inline(always)]
    pub fn read_both(&self) -> u64 {
        self.read_lo() as u64 | ((self.read_hi() as u64) << 32)
    }
    /// Composed write of `both` (writes low first, then high; le).
    #[inline(always)]
    pub fn write_both(&self, v: u64) {
        self.write_lo(v as u32);
        self.write_hi((v >> 32) as u32);
    }
}
"
    ));
    let text = emitted(&window_spec(Access::Wo, Access::Ro, 32, 2));
    assert!(text.contains(
        "use lockjaw_mmio::barrier::dmb_ish;

impl DemoUart {
    /// Walk `features` (selector=sel, value=val) across 2 chunks of 32 bits;
    /// compose into a u64 (chunk 0 supplies the least-significant bits).
    #[inline(always)]
    pub fn read_features_64(&self) -> u64 {
        let mut acc: u64 = 0;
        for i in 0..2 {
            self.write_sel(i as u32);
            dmb_ish();
            let chunk = self.read_val() as u64;
            acc |= chunk << (i * 32);
        }
        acc
    }
}
"
    ));
}

#[test]
fn the_coverage_is_written() {
    let mut s = spec(vec![reg("a", 0, 32, Access::Rw), reg("b", 4, 32, Access::Rw)]);
    s.device.verify_against = Some("lockjaw_types::demo".to_string());
    s.verify_offsets =
        vec![VerifyOffset { reg: "b".to_string(), const_name: "B".to_string() }];
    assert!(emitted(&s).contains(
        "//
// verify_against: lockjaw_types::demo
// Coverage: 1/2 registers cross-checked against constants.
// Unmatched (no constant binding in [[verify_offsets]]):
//   - a
//

"
    ));
}

// --- wire formats --------------------------------------------------------------------

fn wire_field(name: &str, offset: usize, width: u8) -> gen_wires::Field {
    gen_wires::Field {
        name: name.to_string(),
        offset,
        width,
        endian: None,
        default: None,
        description: None,
    }
}

fn wires(size: usize, fields: Vec<gen_wires::Field>) -> gen_wires::Spec {
    gen_wires::Spec {
        family: "demo".to_string(),
        description: None,
        wire: vec![gen_wires::Wire {
            name: "DemoHeader".to_string(),
            description: Some("A header.".to_string()),
            size,
            endian: gen_wires::Endian::Little,
            fields,
        }],
    }
}

#[test]
fn a_wire_format_has_no_gaps() {
    let f = wire_field;
    let check = |s: &gen_wires::Spec| gen_wires::validate(s).err().unwrap();
    assert!(gen_wires::validate(&wires(6, vec![f("a", 0, 32), f("b", 4, 16)])).is_ok());
    assert!(matches!(
        check(&wires(0, vec![])),
        gen_wires::WireFault::Empty { wire: 0 }
    ));
    assert!(matches!(
        check(&wires(8, vec![f("a", 0, 32), f("a", 4, 32)])),
        gen_wires::WireFault::FieldNameTaken { wire: 0, field: 1 }
    ));
    assert!(matches!(
        check(&wires(3, vec![f("a", 0, 24)])),
        gen_wires::WireFault::FieldWidth { wire: 0, field: 0 }
    ));
    assert!(matches!(
        check(&wires(8, vec![f("a", 0, 32), f("b", 6, 16)])),
        gen_wires::WireFault::FieldOffset { wire: 0, field: 1 }
    ));
    assert!(matches!(
        check(&wires(3, vec![f("a", 0, 32)])),
        gen_wires::WireFault::FieldPastEnd { wire: 0, field: 0 }
    ));
    assert!(matches!(
        check(&wires(8, vec![f("a", 0, 32)])),
        gen_wires::WireFault::SizeMismatch { wire: 0 }
    ));
    let mut d = f("a", 0, 8);
    d.default = Some(256);
    assert!(matches!(
        check(&wires(1, vec![d])),
        gen_wires::WireFault::DefaultTooLarge { wire: 0, field: 0 }
    ));
    let mut twice = wires(1, vec![f("a", 0, 8)]);
    let again = wires(1, vec![f("a", 0, 8)]).wire.remove(0);
    twice.wire.push(again);
    assert!(matches!(check(&twice), gen_wires::WireFault::NameTaken { wire: 1 }));
}

#[test]
fn a_wire_format_is_written() {
    let mut len = wire_field("len", 4, 16);
    len.endian = Some(gen_wires::Endian::Big);
    len.description = Some("Length.".to_string());
    let mut reserved = wire_field("reserved", 6, 16);
    reserved.default = Some(7);
    let s = wires(8, vec![wire_field("kind", 0, 32), len, reserved]);
    let expected = "\
//! Wire DTOs
//!
//! GENERATED FILE — do not edit by hand.
//! Source: specs/demo.toml
//! Regenerate with: `cargo xtask gen-wires`.
//! Drift is caught by: `cargo xtask gen-wires --check` (CI).

#![allow(dead_code, missing_docs)]

use crate::dma_value_impl;

// ---------- DemoHeader ----------

/// A header.
/// Wire layout: 8 bytes, LE-endian default.
#[derive(Clone, Copy, Debug)]
#[repr(transparent)]
pub struct DemoHeader([u8; 8]);

impl DemoHeader {
    /// Construct from host-order values. Byte-order
    /// conversion to the on-wire layout is applied
    /// per field at construction time; the resulting
    /// bytes can be written through `DmaCell::write` to
    /// reach the device.
    pub fn new(kind: u32, len: u16) -> Self {
        let mut b = [0u8; 8];
        b[0..4].copy_from_slice(&kind.to_le_bytes());
        b[4..6].copy_from_slice(&len.to_be_bytes());
        b[6..8].copy_from_slice(&7u16.to_le_bytes());
        Self(b)
    }

    /// Read the `kind` field as a host-order `u32`.
    #[inline(always)]
    pub fn kind(&self) -> u32 {
        let mut buf = [0u8; 4];
        buf.copy_from_slice(&self.0[0..4]);
        u32::from_le_bytes(buf)
    }

    /// Length.
    #[inline(always)]
    pub fn len(&self) -> u16 {
        let mut buf = [0u8; 2];
        buf.copy_from_slice(&self.0[4..6]);
        u16::from_be_bytes(buf)
    }

    /// Read the `reserved` field as a host-order `u16`.
    #[inline(always)]
    pub fn reserved(&self) -> u16 {
        let mut buf = [0u8; 2];
        buf.copy_from_slice(&self.0[6..8]);
        u16::from_le_bytes(buf)
    }
}

dma_value_impl!(DemoHeader, size = 8);

#[cfg(test)]
mod tests {
    use super::*;

    #[test]
    fn demo_header_size_and_align() {
        assert_eq!(core::mem::size_of::<DemoHeader>(), 8);
        assert_eq!(core::mem::align_of::<DemoHeader>(), 1);
    }

    #[test]
    fn demo_header_roundtrip() {
        let v = DemoHeader::new(0x12345678u32, 0x1244u16);

        // kind field — LE-endian raw bytes
        let mut expected_kind = [0u8; 4];
        expected_kind.copy_from_slice(&0x12345678u32.to_le_bytes());
        assert_eq!(&v.0[0..4], &expected_kind[..]);
        // len field — BE-endian raw bytes
        let mut expected_len = [0u8; 2];
        expected_len.copy_from_slice(&0x1244u16.to_be_bytes());
        assert_eq!(&v.0[4..6], &expected_len[..]);
        // reserved field — LE-endian raw bytes
        let mut expected_reserved = [0u8; 2];
        expected_reserved.copy_from_slice(&7u16.to_le_bytes());
        assert_eq!(&v.0[6..8], &expected_reserved[..]);

        assert_eq!(v.kind(), 0x12345678u32);
        assert_eq!(v.len(), 0x1244u16);
        assert_eq!(v.reserved(), 7u16);
    }

}
";
    assert_eq!(gen_wires::emit_family(&s, "specs/demo.toml"), expected);
}

#[test]
fn test_values_show_their_byte_order() {
    assert_eq!(gen_wires::test_value_for_width(8, 1), "0x13");
    assert_eq!(gen_wires::test_value_for_width(16, 16), "0x1234");
    assert_eq!(gen_wires::test_value_for_width(32, 15), "0x12435678");
    assert_eq!(gen_wires::test_value_for_width(64, 2), "0x1122334655667788");
}

#[test]
fn a_read_only_field_may_fill_a_wide_register() {
    let mut f = field("count", "63:0");
    f.access = FieldAccess::Ro;
    let mut a = reg("timer", 0, 64, Access::Ro);
    a.fields = vec![f];
    let text = emitted(&spec(vec![a]));
    assert!(text.contains("fn timer_ro_field_read() {"));
    assert!(text.contains(
        "assert_eq!(Timer(0xffffffffffffffffu64).count(), 0xffffffffffffffffu64);"
    ));
}
