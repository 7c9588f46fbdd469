//! Sections of an ELF file, and code pointers in its data.

use crate::bytes::{cstr, le, read_cstr, read_u16, read_u32, read_u64};
use crate::numerals::{hex, hex_of, lemma_numeral_back, lemma_written_then_read};
use crate::table::{Entries, Table};
use crate::text::{
    chars_of, contains, copy_of, has, has_char, lines, lines_of, parse_unsigned, same_text,
    string_of, strip_end, stripped_end, texts, unsigned_of, index_of, find_char, lemma_index_of,
    cut,
};
use crate::writer::put2;
use vstd::prelude::*;

verus! {

/// Whether the bytes start like an ELF file that is long enough for its header.
pub open spec fn is_elf(b: Seq<u8>) -> bool {
    b.len() >= 64 && b[0] == 0x7f && b[1] == 0x45 && b[2] == 0x4c && b[3] == 0x46
}

/// Whether the bytes start like an ELF file that is long enough for its header.
pub fn looks_like_elf(b: &[u8]) -> (r: bool)
    ensures
        r == is_elf(b@),
{
    b.len() >= 64 && b[0] == 0x7f && b[1] == 0x45 && b[2] == 0x4c && b[3] == 0x46
}

// ---------------------------------------------------------------------------
// Sections
// ---------------------------------------------------------------------------

/// One section: its name, its address, and where its bytes stand in the file.
pub struct ElfSection {
    pub name: String,
    pub vaddr: u64,
    pub file_offset: usize,
    pub size: usize,
}

/// One section, as plain values.
pub struct Sect {
    pub name: Seq<char>,
    pub vaddr: nat,
    pub file_offset: nat,
    pub size: nat,
}

impl View for ElfSection {
    type V = Sect;

    open spec fn view(&self) -> Sect {
        Sect {
            name: self.name@,
            vaddr: self.vaddr as nat,
            file_offset: self.file_offset as nat,
            size: self.size as nat,
        }
    }
}

/// Where the header of section `i` starts.
pub open spec fn header_at(b: Seq<u8>, i: int) -> int {
    le(b, 40, 8) + i * le(b, 58, 2)
}

/// The number of sections.
pub open spec fn section_count(b: Seq<u8>) -> nat {
    le(b, 60, 2)
}

/// Where the table of section names starts in the file.
pub open spec fn names_at(b: Seq<u8>) -> nat {
    le(b, header_at(b, le(b, 62, 2) as int) + 24, 8)
}

/// The length of the table of section names.
pub open spec fn names_len(b: Seq<u8>) -> nat {
    le(b, header_at(b, le(b, 62, 2) as int) + 32, 8)
}

/// The table of section names.
pub open spec fn names_table(b: Seq<u8>) -> Seq<u8> {
    b.subrange(names_at(b) as int, (names_at(b) + names_len(b)) as int)
}

/// Whether the header of section `i` lies within the file and its name within the table.
pub open spec fn header_fits(b: Seq<u8>, i: int) -> bool {
    header_at(b, i) + 40 <= b.len() && le(b, header_at(b, i), 4) <= names_len(b)
}

/// Whether the section headers and the table of their names lie within the file.
pub open spec fn sections_fit(b: Seq<u8>) -> bool {
    &&& b.len() >= 64
    &&& header_at(b, le(b, 62, 2) as int) + 40 <= b.len()
    &&& names_at(b) + names_len(b) <= b.len()
    &&& forall|i: int| 0 <= i < section_count(b) ==> #[trigger] header_fits(b, i)
}

/// Section `i`.
pub open spec fn section_at(b: Seq<u8>, i: int) -> Sect {
    let base = header_at(b, i);
    Sect {
        name: cstr(names_table(b), le(b, base, 4) as int),
        vaddr: le(b, base + 16, 8),
        file_offset: le(b, base + 24, 8),
        size: le(b, base + 32, 8),
    }
}

/// The sections of a file.
pub open spec fn sections_of(b: Seq<u8>) -> Seq<Sect> {
    Seq::new(section_count(b), |i: int| section_at(b, i))
}

/// Whether the offsets and sizes of the sections can be held on this machine.
pub open spec fn sections_hold(b: Seq<u8>) -> bool {
    forall|i: int|
        0 <= i < section_count(b) ==> (#[trigger] section_at(b, i)).file_offset <= usize::MAX
            && section_at(b, i).size <= usize::MAX
}

/// Sections as plain values.
pub open spec fn sects(v: Seq<ElfSection>) -> Seq<Sect> {
    Seq::new(v.len(), |i: int| v[i]@)
}

fn in_file(from: u64, len: u64, total: usize) -> (r: bool)
    ensures
        r == (from + len <= total),
{
    from <= total as u64 && len <= total as u64 - from
}

/// The start of section header `i`, where the whole header lies within the file.
fn header_start(b: &[u8], i: u16) -> (r: Option<usize>)
    requires
        b@.len() >= 64,
    ensures
        match r {
            Some(at) => at == header_at(b@, i as int) && at + 40 <= b.len(),
            None => header_at(b@, i as int) + 40 > b@.len(),
        },
{
    let off = read_u64(b, 40);
    let each = read_u16(b, 58) as u64;
    assert(i as u64 * each <= 0xffff * 0xffff) by (nonlinear_arith)
        requires
            i <= 0xffff,
            each <= 0xffff,
    ;
    let rel: u64 = i as u64 * each;
    let total = b.len() as u64;
    if off > total || rel > total - off || 40 > total - off - rel {
        return None;
    }
    Some((off + rel) as usize)
}

/// Whether the section headers and the table of their names lie within the file, and can
/// be held on this machine.
pub fn has_sections(b: &[u8]) -> (r: bool)
    ensures
        r == (sections_fit(b@) && sections_hold(b@)),
{
    if b.len() < 64 {
        return false;
    }
    let names = match header_start(b, read_u16(b, 62)) {
        Some(at) => at,
        None => {
            return false;
        },
    };
    let table = read_u64(b, names + 24);
    let len = read_u64(b, names + 32);
    if !in_file(table, len, b.len()) {
        return false;
    }
    let count = read_u16(b, 60);
    let mut i: u16 = 0;
    while i < count
        invariant
            b@.len() >= 64,
            header_at(b@, le(b@, 62, 2) as int) + 40 <= b@.len(),
            names_at(b@) + names_len(b@) <= b@.len(),
            len == names_len(b@),
            count == section_count(b@),
            i <= count,
            forall|k: int| 0 <= k < i ==> #[trigger] header_fits(b@, k),
            forall|k: int|
                0 <= k < i ==> (#[trigger] section_at(b@, k)).file_offset <= usize::MAX
                    && section_at(b@, k).size <= usize::MAX,
        decreases count - i,
    {
        match header_start(b, i) {
            Some(at) => {
                let name = read_u32(b, at);
                let offset = read_u64(b, at + 24);
                let size = read_u64(b, at + 32);
                if name as u64 > len {
                    assert(!header_fits(b@, i as int));
                    return false;
                }
                if offset > usize::MAX as u64 || size > usize::MAX as u64 {
                    assert(!(section_at(b@, i as int).file_offset <= usize::MAX && section_at(
                        b@,
                        i as int,
                    ).size <= usize::MAX));
                    return false;
                }
                assert(header_fits(b@, i as int));
            },
            None => {
                assert(!header_fits(b@, i as int));
                return false;
            },
        }
        i += 1;
    }
    true
}

fn part(b: &[u8], from: usize, to: usize) -> (out: Vec<u8>)
    requires
        from <= to <= b@.len(),
    ensures
        out@ == b@.subrange(from as int, to as int),
{
    let mut out: Vec<u8> = Vec::new();
    let mut i: usize = from;
    while i < to
        invariant
            from <= i <= to <= b@.len(),
            out@ == b@.subrange(from as int, i as int),
        decreases to - i,
    {
        out.push(b[i]);
        i += 1;
    }
    out
}

/// Reads the sections of a file.
pub fn parse_elf_sections(b: &[u8]) -> (out: Vec<ElfSection>)
    requires
        sections_fit(b@),
        sections_hold(b@),
    ensures
        sects(out@) == sections_of(b@),
{
    let total = b.len();
    let names_header: usize = match header_start(b, read_u16(b, 62)) {
        Some(at) => at,
        None => 0,
    };
    let table = read_u64(b, names_header + 24);
    let len = read_u64(b, names_header + 32);
    let names = part(b, table as usize, (table + len) as usize);
    assert(names@ == names_table(b@));
    let count = read_u16(b, 60);
    let mut out: Vec<ElfSection> = Vec::new();
    let mut i: u16 = 0;
    while i < count
        invariant
            sections_fit(b@),
            sections_hold(b@),
            names@ == names_table(b@),
            names@.len() == names_len(b@),
            count == section_count(b@),
            i <= count,
            out@.len() == i,
            forall|k: int| 0 <= k < i ==> (#[trigger] out@[k])@ == section_at(b@, k),
        decreases count - i,
    {
        assert(header_fits(b@, i as int));
        let at: usize = match header_start(b, i) {
            Some(at) => at,
            None => 0,
        };
        proof {
            let s = section_at(b@, i as int);
            assert(s.file_offset <= usize::MAX && s.size <= usize::MAX);
        }
        let name_off = read_u32(b, at) as usize;
        let section = ElfSection {
            name: read_cstr(names.as_slice(), name_off),
            vaddr: read_u64(b, at + 16),
            file_offset: read_u64(b, at + 24) as usize,
            size: read_u64(b, at + 32) as usize,
        };
        out.push(section);
        i += 1;
    }
    assert(sects(out@) =~= sections_of(b@));
    out
}

// ---------------------------------------------------------------------------
// Code pointers in data
// ---------------------------------------------------------------------------

/// A word in a data section that is an address within the code.
pub struct CodePointer {
    pub section: String,
    /// Where the word stands.
    pub address: u64,
    /// What it points to.
    pub target: u64,
}

/// The index of the first section named `name` from `i` on, or the number of sections.
pub open spec fn section_from(v: Seq<Sect>, name: Seq<char>, i: int) -> int
    decreases v.len() - i,
{
    if i < 0 || i >= v.len() {
        v.len() as int
    } else if v[i].name == name {
        i
    } else {
        section_from(v, name, i + 1)
    }
}

/// The index of the first section with the given name.
pub fn find_section(v: &Vec<ElfSection>, name: &str) -> (r: Option<usize>)
    ensures
        match r {
            Some(i) => i < v@.len() && i == section_from(sects(v@), name@, 0),
            None => section_from(sects(v@), name@, 0) == v@.len(),
        },
{
    let mut i: usize = 0;
    while i < v.len()
        invariant
            i <= v@.len(),
            section_from(sects(v@), name@, 0) == section_from(sects(v@), name@, i as int),
        decreases v@.len() - i,
    {
        assert(sects(v@)[i as int] == v@[i as int]@);
        if same_text(v[i].name.as_str(), name) {
            return Some(i);
        }
        i += 1;
    }
    None
}

/// Whether the section holds data that is searched for code pointers.
pub open spec fn is_scanned(s: Sect) -> bool {
    s.name == ".rodata"@ || s.name == ".data"@ || s.name == ".data.rel.ro"@
}

/// Whether the section's bytes lie within the file.
pub open spec fn is_inside(s: Sect, b: Seq<u8>) -> bool {
    s.file_offset + s.size <= b.len()
}

/// Whether word `n` of a section points into the code.
pub open spec fn points_into(b: Seq<u8>, s: Sect, text: Sect, n: int) -> bool {
    text.vaddr <= le(b, s.file_offset + 8 * n, 8) < text.vaddr + text.size
}

/// Whether every word of the section that points into the code has an address.
pub open spec fn is_placed(b: Seq<u8>, s: Sect, text: Sect) -> bool {
    forall|n: int|
        0 <= n < s.size / 8 && #[trigger] points_into(b, s, text, n) ==> s.vaddr + 8 * n
            <= u64::MAX
}

/// A code pointer, as plain values: section, address, target.
pub type Pointer = (Seq<char>, nat, nat);

/// The code pointers among the first `n` words of a section.
pub open spec fn words_found(b: Seq<u8>, s: Sect, text: Sect, n: nat) -> Seq<Pointer>
    decreases n,
{
    if n == 0 {
        Seq::empty()
    } else {
        let head = words_found(b, s, text, (n - 1) as nat);
        let off = 8 * (n - 1);
        if points_into(b, s, text, n - 1) {
            head.push((s.name, (s.vaddr + off) as nat, le(b, s.file_offset + off, 8)))
        } else {
            head
        }
    }
}

/// The code pointers in the first `n` sections. Sections that do not lie within the file
/// are passed over.
pub open spec fn pointers_found(b: Seq<u8>, v: Seq<Sect>, text: Sect, n: nat) -> Seq<Pointer>
    decreases n,
{
    if n == 0 {
        Seq::empty()
    } else {
        let head = pointers_found(b, v, text, (n - 1) as nat);
        let s = v[n - 1];
        if is_scanned(s) && is_inside(s, b) {
            head + words_found(b, s, text, s.size / 8)
        } else {
            head
        }
    }
}

/// Code pointers as plain values.
pub open spec fn pointers_view(v: Seq<CodePointer>) -> Seq<Pointer> {
    Seq::new(v.len(), |i: int| (v[i].section@, v[i].address as nat, v[i].target as nat))
}

fn scan_section(b: &[u8], s: &ElfSection, text: &ElfSection, out: &mut Vec<CodePointer>)
    requires
        is_inside(s@, b@),
        is_placed(b@, s@, text@),
    ensures
        pointers_view(final(out)@) == pointers_view(old(out)@) + words_found(
            b@,
            s@,
            text@,
            (s.size / 8) as nat,
        ),
{
    let total = b.len();
    let ghost before = pointers_view(out@);
    assert(before + Seq::<Pointer>::empty() =~= before);
    let count = s.size / 8;
    let mut n: usize = 0;
    while n < count
        invariant
            is_inside(s@, b@),
            is_placed(b@, s@, text@),
            total == b@.len(),
            count == s.size / 8,
            n <= count,
            pointers_view(out@) == before + words_found(b@, s@, text@, n as nat),
        decreases count - n,
    {
        let off = 8 * n;
        let val = read_u64(b, s.file_offset + off);
        if val >= text.vaddr && val - text.vaddr < text.size as u64 {
            assert(points_into(b@, s@, text@, n as int));
            let ghost now = pointers_view(out@);
            let hit = CodePointer {
                section: copy_of(s.name.as_str()),
                address: s.vaddr + off as u64,
                target: val,
            };
            let ghost h = (hit.section@, hit.address as nat, hit.target as nat);
            out.push(hit);
            proof {
                assert(pointers_view(out@) =~= now.push(h));
                let head = words_found(b@, s@, text@, n as nat);
                assert(before + head.push(h) =~= (before + head).push(h));
            }
        }
        n += 1;
    }
}

impl ElfSection {
    /// Whether the section holds data that is searched for code pointers.
    pub fn holds_data(&self) -> (r: bool)
        ensures
            r == is_scanned(self@),
    {
        let name = self.name.as_str();
        same_text(name, ".rodata") || same_text(name, ".data") || same_text(name, ".data.rel.ro")
    }

    /// Whether the section's bytes lie within the file.
    pub fn lies_within(&self, b: &[u8]) -> (r: bool)
        ensures
            r == is_inside(self@, b@),
    {
        self.file_offset <= b.len() && self.size <= b.len() - self.file_offset
    }
}

/// Whether every word that points into the code, in a section that is searched, has an
/// address.
pub open spec fn all_placed(b: Seq<u8>, v: Seq<Sect>, text: Sect) -> bool {
    forall|i: int|
        0 <= i < v.len() && is_scanned(#[trigger] v[i]) && is_inside(v[i], b) ==> is_placed(
            b,
            v[i],
            text,
        )
}

/// The code pointers in the data sections of a file.
pub fn find_code_pointers(b: &[u8], sections: &Vec<ElfSection>, text: &ElfSection) -> (out: Vec<
    CodePointer,
>)
    requires
        all_placed(b@, sects(sections@), text@),
    ensures
        pointers_view(out@) == pointers_found(
            b@,
            sects(sections@),
            text@,
            sections@.len(),
        ),
{
    let mut out: Vec<CodePointer> = Vec::new();
    assert(pointers_view(out@) =~= Seq::<Pointer>::empty());
    let mut i: usize = 0;
    while i < sections.len()
        invariant
            all_placed(b@, sects(sections@), text@),
            i <= sections@.len(),
            pointers_view(out@) == pointers_found(b@, sects(sections@), text@, i as nat),
        decreases sections@.len() - i,
    {
        let s = &sections[i];
        assert(sects(sections@)[i as int] == s@);
        if s.holds_data() && s.lies_within(b) {
            scan_section(b, s, text, &mut out);
        }
        i += 1;
    }
    out
}

fn section_placed(b: &[u8], s: &ElfSection, text: &ElfSection) -> (r: bool)
    requires
        is_inside(s@, b@),
    ensures
        r == is_placed(b@, s@, text@),
{
    let total = b.len();
    let count = s.size / 8;
    let mut n: usize = 0;
    while n < count
        invariant
            is_inside(s@, b@),
            total == b@.len(),
            count == s.size / 8,
            n <= count,
            forall|k: int|
                0 <= k < n && #[trigger] points_into(b@, s@, text@, k) ==> s.vaddr + 8 * k
                    <= u64::MAX,
        decreases count - n,
    {
        let off = 8 * n;
        let val = read_u64(b, s.file_offset + off);
        if val >= text.vaddr && val - text.vaddr < text.size as u64 && off as u64 > u64::MAX
            - s.vaddr {
            assert(points_into(b@, s@, text@, n as int));
            return false;
        }
        n += 1;
    }
    true
}

/// Whether every word that points into the code, in a section that is searched, has an
/// address.
pub fn data_placed(b: &[u8], sections: &Vec<ElfSection>, text: &ElfSection) -> (r: bool)
    ensures
        r == all_placed(b@, sects(sections@), text@),
{
    let mut i: usize = 0;
    while i < sections.len()
        invariant
            i <= sections@.len(),
            forall|k: int|
                0 <= k < i && is_scanned(#[trigger] sects(sections@)[k]) && is_inside(
                    sects(sections@)[k],
                    b@,
                ) ==> is_placed(b@, sects(sections@)[k], text@),
        decreases sections@.len() - i,
    {
        let s = &sections[i];
        assert(sects(sections@)[i as int] == s@);
        if s.holds_data() && s.lies_within(b) && !section_placed(b, s, text) {
            assert(!is_placed(b@, sects(sections@)[i as int], text@));
            return false;
        }
        i += 1;
    }
    true
}

// ---------------------------------------------------------------------------
// Symbols
// ---------------------------------------------------------------------------

/// Names by address.
pub struct SymbolMap {
    pub entries: Vec<(u64, String)>,
}

/// Names by address, as plain values.
pub type Symbols = Map<u64, Seq<char>>;

/// The names of the first `n` entries, later ones in place of earlier ones.
pub open spec fn symbols_of(v: Seq<(u64, String)>, n: nat) -> Symbols
    decreases n,
{
    if n == 0 {
        Map::empty()
    } else {
        symbols_of(v, (n - 1) as nat).insert(v[n - 1].0, v[n - 1].1@)
    }
}

impl View for SymbolMap {
    type V = Symbols;

    open spec fn view(&self) -> Symbols {
        symbols_of(self.entries@, self.entries@.len())
    }
}

proof fn lemma_symbols_push(v: Seq<(u64, String)>, e: (u64, String), n: nat)
    requires
        n <= v.len(),
    ensures
        symbols_of(v.push(e), n) == symbols_of(v, n),
    decreases n,
{
    if n > 0 {
        lemma_symbols_push(v, e, (n - 1) as nat);
    }
}

proof fn lemma_symbols_dom(v: Seq<(u64, String)>, n: nat, a: u64)
    requires
        n <= v.len(),
    ensures
        symbols_of(v, n).dom().contains(a) <==> exists|i: int|
            0 <= i < n && (#[trigger] v[i]).0 == a,
    decreases n,
{
    if n > 0 {
        lemma_symbols_dom(v, (n - 1) as nat, a);
        if v[n - 1].0 == a {
            assert(v[n - 1].0 == a);
        }
    }
}

impl SymbolMap {
    /// The name at an address.
    pub fn get(&self, addr: u64) -> (r: Option<&String>)
        ensures
            match r {
                Some(s) => self@.dom().contains(addr) && self@[addr] == s@,
                None => !self@.dom().contains(addr),
            },
    {
        let mut i: usize = self.entries.len();
        while i > 0
            invariant
                i <= self.entries@.len(),
                self@.dom().contains(addr) == symbols_of(self.entries@, i as nat).dom().contains(
                    addr,
                ),
                self@[addr] == symbols_of(self.entries@, i as nat)[addr],
            decreases i,
        {
            if self.entries[i - 1].0 == addr {
                return Some(&self.entries[i - 1].1);
            }
            i -= 1;
        }
        None
    }

    /// Names an address.
    pub fn add(&mut self, addr: u64, name: String)
        ensures
            final(self)@ == old(self)@.insert(addr, name@),
    {
        proof {
            lemma_symbols_push(self.entries@, (addr, name), self.entries@.len());
        }
        self.entries.push((addr, name));
    }
}

/// The address and name in a line `address type name`.
pub open spec fn symbol_line(line: Seq<char>) -> Option<(int, Seq<char>)> {
    let a = index_of(line, ' ');
    let rest = line.skip(a + 1);
    let k = index_of(rest, ' ');
    let addr = unsigned_of(line.take(a), 16, u64::MAX as int);
    if a < line.len() && k < rest.len() && addr is Some {
        Some((addr->0, rest.skip(k + 1)))
    } else {
        None
    }
}

/// The symbols that the first `n` lines name.
pub open spec fn symbol_lines(lines: Seq<Seq<char>>, n: nat) -> Symbols
    decreases n,
{
    if n == 0 {
        Map::empty()
    } else {
        let head = symbol_lines(lines, (n - 1) as nat);
        match symbol_line(lines[n - 1]) {
            Some((addr, name)) => head.insert(addr as u64, name),
            None => head,
        }
    }
}

/// Reads a list of symbols.
pub fn build_symbol_map(listing: &str) -> (m: SymbolMap)
    ensures
        m@ == symbol_lines(lines_of(listing@), lines_of(listing@).len()),
{
    let text = chars_of(listing);
    let all = lines(&text);
    let mut m = SymbolMap { entries: Vec::new() };
    let mut i: usize = 0;
    while i < all.len()
        invariant
            i <= all@.len(),
            m@ == symbol_lines(texts(all@), i as nat),
        decreases all@.len() - i,
    {
        let line = &all[i];
        assert(texts(all@)[i as int] == line@);
        proof {
            lemma_index_of(line@, ' ');
        }
        match find_char(line, ' ') {
            Some(a) => {
                assert(a < line.len());
                let rest = cut(line, a + 1, line.len());
                assert(rest@ =~= line@.skip(a + 1));
                let head = cut(line, 0, a);
                assert(head@ =~= line@.take(a as int));
                match (find_char(&rest, ' '), parse_unsigned(&head, 16, u64::MAX)) {
                    (Some(k), Some(addr)) => {
                        assert(k < rest.len());
                        let name = cut(&rest, k + 1, rest.len());
                        assert(name@ =~= rest@.skip(k + 1));
                        m.add(addr, string_of(&name));
                    },
                    _ => {},
                }
            },
            None => {},
        }
        i += 1;
    }
    m
}

/// Whether `a` is the greatest address up to `addr` that has a name.
pub open spec fn is_nearest(m: Symbols, addr: u64, a: u64) -> bool {
    &&& m.dom().contains(a)
    &&& a <= addr
    &&& forall|b: u64| #[trigger] m.dom().contains(b) && b <= addr ==> b <= a
}

/// Whether `s` names a code pointer: the name at the address; else the nearest name below
/// it with the distance; else that it is unknown.
pub open spec fn names_pointer(m: Symbols, addr: u64, s: Seq<char>) -> bool {
    if m.dom().contains(addr) {
        s == m[addr]
    } else if exists|a: u64| is_nearest(m, addr, a) {
        exists|a: u64|
            #[trigger] is_nearest(m, addr, a) && s == m[a] + "+0x"@ + hex((addr - a) as nat)
    } else {
        s == "<unknown @ 0x"@ + hex(addr as nat) + ">"@
    }
}

/// At most one text names a code pointer.
pub proof fn lemma_pointer_name_unique(m: Symbols, addr: u64, s: Seq<char>, t: Seq<char>)
    requires
        names_pointer(m, addr, s),
        names_pointer(m, addr, t),
    ensures
        s == t,
{
    if !m.dom().contains(addr) && exists|a: u64| is_nearest(m, addr, a) {
        let a = choose|a: u64|
            #[trigger] is_nearest(m, addr, a) && s == m[a] + "+0x"@ + hex((addr - a) as nat);
        let b = choose|b: u64|
            #[trigger] is_nearest(m, addr, b) && t == m[b] + "+0x"@ + hex((addr - b) as nat);
        assert(a == b);
    }
}

/// The name of a code pointer.
pub fn resolve_code_pointer(addr: u64, m: &SymbolMap) -> (out: String)
    ensures
        names_pointer(m@, addr, out@),
{
    match m.get(addr) {
        Some(name) => {
            return copy_of(name.as_str());
        },
        None => {},
    }
    let mut best: Option<u64> = None;
    let mut i: usize = 0;
    while i < m.entries.len()
        invariant
            i <= m.entries@.len(),
            best matches Some(a) ==> a <= addr && exists|k: int|
                0 <= k < i && (#[trigger] m.entries@[k]).0 == a,
            forall|k: int|
                0 <= k < i && (#[trigger] m.entries@[k]).0 <= addr ==> (best matches Some(a)
                    && m.entries@[k].0 <= a),
        decreases m.entries@.len() - i,
    {
        let a = m.entries[i].0;
        let nearer = match best {
            Some(b) => a > b,
            None => true,
        };
        if a <= addr && nearer {
            best = Some(a);
            assert(m.entries@[i as int].0 == a);
        }
        i += 1;
    }
    proof {
        let n = m.entries@.len();
        assert forall|b: u64| #[trigger] m@.dom().contains(b) && b <= addr implies (best matches
            Some(a) && b <= a) by {
            lemma_symbols_dom(m.entries@, n, b);
        }
        if let Some(a) = best {
            lemma_symbols_dom(m.entries@, n, a);
        }
    }
    if let Some(a) = best {
        match m.get(a) {
            Some(name) => {
                assert(is_nearest(m@, addr, a));
                let mut out = copy_of(name.as_str());
                let off = hex_of(addr - a);
                put2(&mut out, "+0x", off.as_str());
                return out;
            },
            None => {},
        }
    }
    proof {
        assert forall|a: u64| !is_nearest(m@, addr, a) by {
            if is_nearest(m@, addr, a) {
                assert(m@.dom().contains(a));
            }
        }
    }
    let mut out = copy_of("<unknown @ 0x");
    let off = hex_of(addr);
    put2(&mut out, off.as_str(), ">");
    out
}

// ---------------------------------------------------------------------------
// Allowed code pointers
// ---------------------------------------------------------------------------

/// Whether a word of code is a direct call: its top six bits are `100101`.
pub open spec fn is_bl(insn: nat) -> bool {
    insn / 0x400_0000 == 0x25
}

/// How far a direct call goes, in bytes: its low 26 bits, signed, times four.
pub open spec fn bl_distance(insn: nat) -> int {
    let imm = insn % 0x400_0000;
    4 * (if imm >= 0x200_0000 {
        imm - 0x400_0000
    } else {
        imm as int
    })
}

/// The address that the call at `off` into the code goes to.
pub open spec fn bl_target(text: Sect, off: int, insn: nat) -> int {
    (text.vaddr + off + bl_distance(insn)) % 0x1_0000_0000_0000_0000
}

/// Whether a pattern, without the `+` at its end, stands in the name.
pub open spec fn covers(pattern: Seq<char>, name: Seq<char>) -> bool {
    contains(name, stripped_end(pattern, '+'))
}

/// Whether a name is allowed by one of the patterns.
pub open spec fn is_allowed_callee(allowed: Entries<String>, name: Seq<char>) -> bool {
    exists|i: int| 0 <= i < allowed.len() && covers((#[trigger] allowed[i]).0, name)
}

/// Whether the word at `off` into the code calls an allowed function.
pub open spec fn calls_allowed(
    b: Seq<u8>,
    text: Sect,
    m: Symbols,
    allowed: Entries<String>,
    off: int,
) -> bool {
    let insn = le(b, text.file_offset + off, 4);
    let target = bl_target(text, off, insn) as u64;
    is_bl(insn) && m.dom().contains(target) && is_allowed_callee(allowed, m[target])
}

/// Where the search around `addr` starts: 128 bytes before, at a whole word.
pub open spec fn scan_from(text: Sect, addr: u64) -> int {
    let off = addr - text.vaddr;
    let lo = if off < 128 {
        0
    } else {
        off - 128
    };
    lo - lo % 4
}

/// Where the search around `addr` ends: 128 bytes behind or with the code, at a whole word.
pub open spec fn scan_to(text: Sect, addr: u64) -> int {
    let off = addr - text.vaddr;
    let hi = if off + 128 < text.size {
        off + 128
    } else {
        text.size as int
    };
    hi - hi % 4
}

/// Whether a word within 128 bytes of `addr` calls an allowed function.
pub open spec fn nearby_allowed(
    b: Seq<u8>,
    text: Sect,
    addr: u64,
    m: Symbols,
    allowed: Entries<String>,
) -> bool {
    &&& text.vaddr <= addr < text.vaddr + text.size
    &&& exists|off: int|
        scan_from(text, addr) <= off && off + 4 <= scan_to(text, addr) && off % 4 == 0
            && #[trigger] calls_allowed(b, text, m, allowed, off)
}

fn allowed_callee(allowed: &Table<String>, name: &Vec<char>) -> (r: bool)
    ensures
        r == is_allowed_callee(allowed@, name@),
{
    let mut i: usize = 0;
    while i < allowed.entries.len()
        invariant
            i <= allowed.entries@.len(),
            forall|k: int| 0 <= k < i ==> !covers((#[trigger] allowed@[k]).0, name@),
        decreases allowed.entries@.len() - i,
    {
        let pattern = chars_of(allowed.entries[i].0.as_str());
        assert(allowed@[i as int].0 == pattern@);
        let base = string_of(&strip_end(&pattern, '+'));
        if has(name, base.as_str()) {
            return true;
        }
        i += 1;
    }
    false
}

fn call_target(text: &ElfSection, off: usize, insn: u32) -> (t: u64)
    requires
        off <= text.size,
    ensures
        t == bl_target(text@, off as int, insn as nat),
{
    let imm: u64 = (insn % 0x400_0000) as u64;
    let base: u64 = text.vaddr.wrapping_add(off as u64);
    if imm >= 0x200_0000 {
        base.wrapping_sub(4 * (0x400_0000 - imm))
    } else {
        base.wrapping_add(4 * imm)
    }
}

/// Whether a word within 128 bytes of `addr` calls an allowed function.
pub fn has_nearby_allowed_callee(
    b: &[u8],
    text: &ElfSection,
    addr: u64,
    m: &SymbolMap,
    allowed: &Table<String>,
) -> (r: bool)
    requires
        text.vaddr <= addr < text.vaddr + text.size ==> is_inside(text@, b@),
    ensures
        r == nearby_allowed(b@, text@, addr, m@, allowed@),
{
    if addr < text.vaddr || addr - text.vaddr >= text.size as u64 {
        return false;
    }
    let total = b.len();
    let at = (addr - text.vaddr) as usize;
    let lo: usize = if at < 128 {
        0
    } else {
        at - 128
    };
    let hi: usize = if text.size - at > 128 {
        at + 128
    } else {
        text.size
    };
    let from = lo - lo % 4;
    let to = hi - hi % 4;
    let mut off = from;
    while off < to
        invariant
            is_inside(text@, b@),
            total == b@.len(),
            text.vaddr <= addr < text.vaddr + text.size,
            from == scan_from(text@, addr),
            to == scan_to(text@, addr),
            from % 4 == 0,
            to % 4 == 0,
            off % 4 == 0,
            to <= text.size,
            from <= off,
            off <= to || from > to,
            forall|k: int|
                from <= k < off && k % 4 == 0 ==> !#[trigger] calls_allowed(
                    b@,
                    text@,
                    m@,
                    allowed@,
                    k,
                ),
        decreases to - off,
    {
        let insn = read_u32(b, text.file_offset + off);
        if insn / 0x400_0000 == 0x25 {
            let target = call_target(text, off, insn);
            match m.get(target) {
                Some(name) => {
                    let chars = chars_of(name.as_str());
                    if allowed_callee(allowed, &chars) {
                        assert(calls_allowed(b@, text@, m@, allowed@, off as int));
                        return true;
                    }
                },
                None => {},
            }
        }
        assert(!calls_allowed(b@, text@, m@, allowed@, off as int));
        off += 4;
    }
    false
}

/// Whether a code pointer of the given name is allowed by one of the patterns.
pub open spec fn is_allowed_name(allowed: Entries<String>, name: Seq<char>) -> bool {
    exists|i: int| 0 <= i < allowed.len() && contains(name, (#[trigger] allowed[i]).0)
}

fn allowed_name(allowed: &Table<String>, name: &Vec<char>) -> (r: bool)
    ensures
        r == is_allowed_name(allowed@, name@),
{
    let mut i: usize = 0;
    while i < allowed.entries.len()
        invariant
            i <= allowed.entries@.len(),
            forall|k: int| 0 <= k < i ==> !contains(name@, (#[trigger] allowed@[k]).0),
        decreases allowed.entries@.len() - i,
    {
        assert(allowed@[i as int].0 == allowed.entries@[i as int].0@);
        if has(name, allowed.entries[i].0.as_str()) {
            return true;
        }
        i += 1;
    }
    false
}

/// Whether a code pointer with the given target and name breaks the rule: no pattern
/// allows the name, and it does not point into a function near the call of an allowed one.
pub open spec fn is_violation(
    b: Seq<u8>,
    text: Sect,
    m: Symbols,
    allowed: Entries<String>,
    target: u64,
    name: Seq<char>,
) -> bool {
    !is_allowed_name(allowed, name) && !(name.contains('+') && nearby_allowed(
        b,
        text,
        target,
        m,
        allowed,
    ))
}

/// Whether a code pointer breaks the rule.
pub open spec fn breaks_rule(
    b: Seq<u8>,
    text: Sect,
    m: Symbols,
    allowed: Entries<String>,
    target: u64,
) -> bool {
    exists|name: Seq<char>|
        #[trigger] names_pointer(m, target, name) && is_violation(b, text, m, allowed, target, name)
}

/// The code pointers among the first `n` that break the rule.
pub open spec fn violating(
    b: Seq<u8>,
    text: Sect,
    m: Symbols,
    allowed: Entries<String>,
    hits: Seq<Pointer>,
    n: nat,
) -> Seq<Pointer>
    decreases n,
{
    if n == 0 {
        Seq::empty()
    } else {
        let head = violating(b, text, m, allowed, hits, (n - 1) as nat);
        if breaks_rule(b, text, m, allowed, hits[n - 1].2 as u64) {
            head.push(hits[n - 1])
        } else {
            head
        }
    }
}

/// Whether the code itself has to be looked at to judge a code pointer: no pattern allows its
/// name, and it points into a function.
pub open spec fn needs_code(text: Sect, m: Symbols, allowed: Entries<String>, target: u64) -> bool {
    text.vaddr <= target < text.vaddr + text.size && exists|name: Seq<char>|
        #[trigger] names_pointer(m, target, name) && !is_allowed_name(allowed, name)
            && name.contains('+')
}

/// Whether the code itself has to be looked at to judge one of the code pointers.
pub fn reads_code(
    text: &ElfSection,
    hits: &Vec<CodePointer>,
    m: &SymbolMap,
    allowed: &Table<String>,
) -> (r: bool)
    ensures
        r == exists|i: int|
            0 <= i < hits@.len() && #[trigger] needs_code(text@, m@, allowed@, hits@[i].target),
{
    let mut i: usize = 0;
    while i < hits.len()
        invariant
            i <= hits@.len(),
            forall|k: int|
                0 <= k < i ==> !#[trigger] needs_code(text@, m@, allowed@, hits@[k].target),
        decreases hits@.len() - i,
    {
        let target = hits[i].target;
        let name = resolve_code_pointer(target, m);
        let chars = chars_of(name.as_str());
        if target >= text.vaddr && target - text.vaddr < text.size as u64 && !allowed_name(
            allowed,
            &chars,
        ) && has_char(&chars, '+') {
            assert(needs_code(text@, m@, allowed@, hits@[i as int].target));
            return true;
        }
        proof {
            if needs_code(text@, m@, allowed@, target) {
                let other = choose|n: Seq<char>|
                    #[trigger] names_pointer(m@, target, n) && !is_allowed_name(allowed@, n)
                        && n.contains('+');
                lemma_pointer_name_unique(m@, target, other, name@);
            }
        }
        i += 1;
    }
    false
}

/// A code pointer that breaks the rule, with the name of what it points to.
pub struct Violation {
    pub pointer: CodePointer,
    pub name: String,
}

/// The code pointers of violations, as plain values.
pub open spec fn violations_view(v: Seq<Violation>) -> Seq<Pointer> {
    Seq::new(
        v.len(),
        |i: int|
            (v[i].pointer.section@, v[i].pointer.address as nat, v[i].pointer.target as nat),
    )
}

/// The code pointers that break the rule, each with the name of what it points to.
pub fn check_vtables(
    b: &[u8],
    text: &ElfSection,
    hits: &Vec<CodePointer>,
    m: &SymbolMap,
    allowed: &Table<String>,
) -> (out: Vec<Violation>)
    requires
        forall|i: int|
            0 <= i < hits@.len() && #[trigger] needs_code(text@, m@, allowed@, hits@[i].target)
                ==> is_inside(text@, b@),
    ensures
        violations_view(out@) == violating(
            b@,
            text@,
            m@,
            allowed@,
            pointers_view(hits@),
            hits@.len(),
        ),
        forall|i: int|
            0 <= i < out@.len() ==> names_pointer(
                m@,
                (#[trigger] out@[i]).pointer.target,
                out@[i].name@,
            ),
{
    let mut out: Vec<Violation> = Vec::new();
    assert(violations_view(out@) =~= Seq::<Pointer>::empty());
    let ghost all = pointers_view(hits@);
    let mut i: usize = 0;
    while i < hits.len()
        invariant
            forall|i: int|
                0 <= i < hits@.len() && #[trigger] needs_code(
                    text@,
                    m@,
                    allowed@,
                    hits@[i].target,
                ) ==> is_inside(text@, b@),
            all == pointers_view(hits@),
            i <= hits@.len(),
            violations_view(out@) == violating(b@, text@, m@, allowed@, all, i as nat),
            forall|k: int|
                0 <= k < out@.len() ==> names_pointer(
                    m@,
                    (#[trigger] out@[k]).pointer.target,
                    out@[k].name@,
                ),
        decreases hits@.len() - i,
    {
        let target = hits[i].target;
        let name = resolve_code_pointer(target, m);
        let chars = chars_of(name.as_str());
        let mut fine = allowed_name(allowed, &chars);
        if !fine && has_char(&chars, '+') {
            assert(text.vaddr <= target < text.vaddr + text.size ==> needs_code(
                text@,
                m@,
                allowed@,
                hits@[i as int].target,
            ));
            fine = has_nearby_allowed_callee(b, text, target, m, allowed);
        }
        proof {
            if breaks_rule(b@, text@, m@, allowed@, target) {
                let other = choose|n: Seq<char>|
                    #[trigger] names_pointer(m@, target, n) && is_violation(
                        b@,
                        text@,
                        m@,
                        allowed@,
                        target,
                        n,
                    );
                lemma_pointer_name_unique(m@, target, other, name@);
            }
            assert(fine == !breaks_rule(b@, text@, m@, allowed@, target));
            assert(all[i as int].2 as u64 == target);
        }
        if !fine {
            let ghost before = violations_view(out@);
            let pointer = CodePointer {
                section: copy_of(hits[i].section.as_str()),
                address: hits[i].address,
                target,
            };
            out.push(Violation { pointer, name });
            assert(violations_view(out@) =~= before.push(all[i as int]));
        }
        i += 1;
    }
    out
}

// ---------------------------------------------------------------------------
// Laws
// ---------------------------------------------------------------------------

/// Where the fields of section `i` are read from: the section table starts at the offset that
/// stands at byte 40 of the file, each header is as long as byte 58 says, and a header holds the
/// place of the name, at 16 the address, at 24 the offset, at 32 the size.
pub proof fn lemma_section_fields(b: Seq<u8>, i: int)
    requires
        0 <= i < le(b, 60, 2),
    ensures
        sections_of(b).len() == le(b, 60, 2),
        ({
            let at = le(b, 40, 8) + i * le(b, 58, 2);
            let names = (le(b, 40, 8) + le(b, 62, 2) * le(b, 58, 2)) as int;
            let from = le(b, names + 24, 8);
            let table = b.subrange(from as int, (from + le(b, names + 32, 8)) as int);
            let s = sections_of(b)[i];
            &&& s.vaddr == le(b, at + 16, 8)
            &&& s.file_offset == le(b, at + 24, 8)
            &&& s.size == le(b, at + 32, 8)
            &&& s.name == cstr(table, le(b, at, 4) as int)
        }),
{
}

/// The search for a section gives the first of that name.
pub proof fn lemma_first_section(v: Seq<Sect>, name: Seq<char>, from: int)
    requires
        0 <= from <= v.len(),
    ensures
        ({
            let i = section_from(v, name, from);
            &&& from <= i <= v.len()
            &&& i < v.len() ==> v[i].name == name
            &&& forall|j: int| from <= j < i ==> (#[trigger] v[j]).name != name
        }),
    decreases v.len() - from,
{
    if from < v.len() && v[from].name != name {
        lemma_first_section(v, name, from + 1);
    }
}

/// Whether word `k` of a section is the code pointer `p`: it has the section's name, the
/// address where the word stands, and as target what the word holds, an address in the code.
pub open spec fn is_word(b: Seq<u8>, s: Sect, text: Sect, k: int, p: Pointer) -> bool {
    &&& p.0 == s.name
    &&& p.1 == s.vaddr + 8 * k
    &&& p.2 == le(b, s.file_offset + 8 * k, 8)
    &&& text.vaddr <= p.2
    &&& p.2 < text.vaddr + text.size
}

proof fn lemma_words_found(b: Seq<u8>, s: Sect, text: Sect, n: nat, p: Pointer)
    ensures
        words_found(b, s, text, n).contains(p) <==> exists|k: int|
            0 <= k < n && #[trigger] is_word(b, s, text, k, p),
    decreases n,
{
    if n > 0 {
        let m = (n - 1) as nat;
        lemma_words_found(b, s, text, m, p);
        let head = words_found(b, s, text, m);
        let all = words_found(b, s, text, n);
        if points_into(b, s, text, n - 1) {
            let q = (s.name, (s.vaddr + 8 * (n - 1)) as nat, le(b, s.file_offset + 8 * (n - 1), 8));
            assert(all == head.push(q));
            if all.contains(p) {
                let i = choose|i: int| 0 <= i < all.len() && all[i] == p;
                if i < head.len() {
                    assert(head[i] == p);
                    assert(head.contains(p));
                } else {
                    assert(is_word(b, s, text, n - 1, p));
                }
            }
            if exists|k: int| 0 <= k < n && #[trigger] is_word(b, s, text, k, p) {
                let k = choose|k: int| 0 <= k < n && #[trigger] is_word(b, s, text, k, p);
                if k < m {
                    let i = choose|i: int| 0 <= i < head.len() && head[i] == p;
                    assert(all[i] == p);
                } else {
                    assert(all[head.len() as int] == p);
                }
            }
        } else {
            assert(!is_word(b, s, text, n - 1, p));
        }
    }
}

/// Whether word `k` of section `i`, one of the three data sections and inside the file, is the
/// code pointer `p`.
pub open spec fn is_found(b: Seq<u8>, v: Seq<Sect>, text: Sect, i: int, k: int, p: Pointer) -> bool {
    &&& v[i].name == ".rodata"@ || v[i].name == ".data"@ || v[i].name == ".data.rel.ro"@
    &&& v[i].file_offset + v[i].size <= b.len()
    &&& 0 <= k
    &&& 8 * k + 8 <= v[i].size
    &&& is_word(b, v[i], text, k, p)
}

/// The code pointers of a file are the words of its data sections that hold an address in the
/// code: each such word, and nothing else.
pub proof fn lemma_pointers_found(b: Seq<u8>, v: Seq<Sect>, text: Sect, n: nat, p: Pointer)
    requires
        n <= v.len(),
    ensures
        pointers_found(b, v, text, n).contains(p) <==> exists|i: int, k: int|
            0 <= i < n && #[trigger] is_found(b, v, text, i, k, p),
    decreases n,
{
    if n > 0 {
        let m = (n - 1) as nat;
        lemma_pointers_found(b, v, text, m, p);
        let s = v[n - 1];
        let head = pointers_found(b, v, text, m);
        let more = words_found(b, s, text, s.size / 8);
        lemma_words_found(b, s, text, s.size / 8, p);
        let all = pointers_found(b, v, text, n);
        if is_scanned(s) && is_inside(s, b) {
            assert(all == head + more);
            if all.contains(p) {
                let i = choose|i: int| 0 <= i < all.len() && all[i] == p;
                if i < head.len() {
                    assert(head[i] == p);
                    assert(head.contains(p));
                } else {
                    assert(more[i - head.len()] == p);
                    assert(more.contains(p));
                    let k = choose|k: int| 0 <= k < s.size / 8 && #[trigger] is_word(b, s, text, k, p);
                    assert(is_found(b, v, text, n - 1, k, p));
                }
            }
            if exists|i: int, k: int| 0 <= i < n && #[trigger] is_found(b, v, text, i, k, p) {
                let (i, k) = choose|i: int, k: int|
                    0 <= i < n && #[trigger] is_found(b, v, text, i, k, p);
                if i < m {
                    let j = choose|j: int| 0 <= j < head.len() && head[j] == p;
                    assert(all[j] == p);
                } else {
                    assert(is_word(b, s, text, k, p));
                    let j = choose|j: int| 0 <= j < more.len() && more[j] == p;
                    assert(all[head.len() + j] == p);
                }
            }
        } else {
            assert forall|k: int| !#[trigger] is_found(b, v, text, n - 1, k, p) by {}
            if exists|i: int, k: int| 0 <= i < n && #[trigger] is_found(b, v, text, i, k, p) {
                let (i, k) = choose|i: int, k: int|
                    0 <= i < n && #[trigger] is_found(b, v, text, i, k, p);
                assert(i < m);
            }
        }
    }
}

/// A line `address type name` names the address: what stands before the first blank is the
/// address in base sixteen, what stands behind the second is the name.
pub proof fn lemma_symbol_line(addr: u64, kind: Seq<char>, name: Seq<char>)
    requires
        !kind.contains(' '),
    ensures
        symbol_line(hex(addr as nat) + seq![' '] + kind + seq![' '] + name) == Some(
            (addr as int, name),
        ),
{
    let h = hex(addr as nat);
    let line = h + seq![' '] + kind + seq![' '] + name;
    lemma_numeral_back(addr as nat, 16, false);
    lemma_written_then_read(addr as nat, u64::MAX as int);
    let a = index_of(line, ' ');
    lemma_index_of(line, ' ');
    assert(line[h.len() as int] == ' ');
    assert forall|i: int| 0 <= i < h.len() implies line[i] != ' ' by {
        assert(line[i] == h[i]);
        assert(crate::text::digit_value(h[i], 16) >= 0);
    }
    assert(a == h.len());
    assert(line.take(a) =~= h);
    let rest = line.skip(a + 1);
    assert(rest =~= kind + seq![' '] + name);
    let k = index_of(rest, ' ');
    lemma_index_of(rest, ' ');
    assert(rest[kind.len() as int] == ' ');
    assert forall|i: int| 0 <= i < kind.len() implies rest[i] != ' ' by {
        assert(rest[i] == kind[i]);
        assert(kind.contains(kind[i]));
    }
    assert(k == kind.len());
    assert(rest.skip(k + 1) =~= name);
}

/// A direct call of `d` bytes onwards or, where `d` is negative, backwards, which its word
/// carries in units of four in the low 26 bits, goes `d` bytes from where it stands.
pub proof fn lemma_bl(text: Sect, off: int, d: int)
    requires
        d % 4 == 0,
        -0x800_0000 <= d < 0x800_0000,
        0 <= text.vaddr + off + d < 0x1_0000_0000_0000_0000,
    ensures
        ({
            let insn = (0x25 * 0x400_0000 + (d / 4) % 0x400_0000) as nat;
            is_bl(insn) && bl_target(text, off, insn) == text.vaddr + off + d
        }),
{
}

/// A word that is no direct call by its top six bits calls nothing.
pub proof fn lemma_not_bl(insn: nat)
    requires
        insn < 0x1_0000_0000,
    ensures
        is_bl(insn) <==> 0x9400_0000 <= insn < 0x9800_0000,
{
}

/// The search around an address looks at the words of the code within 128 bytes of it: at each
/// that lies in whole within them, and at none that lies in whole outside.
pub proof fn lemma_scanned_words(text: Sect, addr: u64, off: int)
    requires
        text.vaddr <= addr < text.vaddr + text.size,
        0 <= off,
        off % 4 == 0,
    ensures
        ({
            let at = addr - text.vaddr;
            let seen = scan_from(text, addr) <= off && off + 4 <= scan_to(text, addr);
            &&& at - 128 <= off && off + 4 <= at + 128 && off + 4 <= text.size ==> seen
            &&& seen ==> at - 128 < off + 4 && off + 4 <= at + 128 && off + 4 <= text.size
        }),
{
}

/// What breaks the rule is found, in the order of the code pointers, and nothing else.
pub proof fn lemma_violating(
    b: Seq<u8>,
    text: Sect,
    m: Symbols,
    allowed: Entries<String>,
    hits: Seq<Pointer>,
    n: nat,
    p: Pointer,
)
    requires
        n <= hits.len(),
    ensures
        violating(b, text, m, allowed, hits, n).contains(p) <==> breaks_rule(
            b,
            text,
            m,
            allowed,
            p.2 as u64,
        ) && hits.take(n as int).contains(p),
    decreases n,
{
    let all = violating(b, text, m, allowed, hits, n);
    let now = hits.take(n as int);
    if n > 0 {
        let k = (n - 1) as nat;
        lemma_violating(b, text, m, allowed, hits, k, p);
        let head = violating(b, text, m, allowed, hits, k);
        let less = hits.take(k as int);
        assert(now =~= less.push(hits[n - 1]));
        if now.contains(p) {
            let i = choose|i: int| 0 <= i < now.len() && now[i] == p;
            if i < less.len() {
                assert(less[i] == p);
            }
        }
        if less.contains(p) {
            let i = choose|i: int| 0 <= i < less.len() && less[i] == p;
            assert(now[i] == p);
        }
        assert(now[n - 1] == hits[n - 1]);
        if all.contains(p) {
            let i = choose|i: int| 0 <= i < all.len() && all[i] == p;
            if i < head.len() {
                assert(head[i] == p);
            }
        }
        if head.contains(p) {
            let i = choose|i: int| 0 <= i < head.len() && head[i] == p;
            assert(all[i] == p);
        }
        if breaks_rule(b, text, m, allowed, hits[n - 1].2 as u64) {
            assert(all[head.len() as int] == hits[n - 1]);
        }
    }
}

/// A code pointer to the start of a function, whose name has no `+`, breaks the rule exactly
/// where no allowed pattern stands in that name.
pub proof fn lemma_exact_pointer(
    b: Seq<u8>,
    text: Sect,
    m: Symbols,
    allowed: Entries<String>,
    target: u64,
)
    requires
        m.dom().contains(target),
        !m[target].contains('+'),
    ensures
        breaks_rule(b, text, m, allowed, target) <==> forall|i: int|
            0 <= i < allowed.len() ==> !contains(m[target], (#[trigger] allowed[i]).0),
{
    let name = m[target];
    assert(names_pointer(m, target, name));
    if is_violation(b, text, m, allowed, target, name) {
        assert(breaks_rule(b, text, m, allowed, target));
    }
    if breaks_rule(b, text, m, allowed, target) {
        let other = choose|n: Seq<char>|
            #[trigger] names_pointer(m, target, n) && is_violation(b, text, m, allowed, target, n);
        assert(other == name);
    }
}

/// A code pointer into a function, past its start, is named after the function with the
/// distance; it breaks the rule exactly where no allowed pattern stands in that name and no word
/// near it calls a function that a pattern covers.
pub proof fn lemma_inner_pointer(
    b: Seq<u8>,
    text: Sect,
    m: Symbols,
    allowed: Entries<String>,
    target: u64,
    a: u64,
)
    requires
        m.dom().contains(a),
        a < target,
        forall|c: u64| #[trigger] m.dom().contains(c) ==> c <= a || c > target,
    ensures
        ({
            let name = m[a] + "+0x"@ + hex((target - a) as nat);
            breaks_rule(b, text, m, allowed, target) <==> !nearby_allowed(
                b,
                text,
                target,
                m,
                allowed,
            ) && forall|i: int|
                0 <= i < allowed.len() ==> !contains(name, (#[trigger] allowed[i]).0)
        }),
{
    let name = m[a] + "+0x"@ + hex((target - a) as nat);
    reveal_strlit("+0x");
    assert(name[m[a].len() as int] == '+');
    assert(is_nearest(m, target, a));
    assert(names_pointer(m, target, name));
    if is_violation(b, text, m, allowed, target, name) {
        assert(breaks_rule(b, text, m, allowed, target));
    }
    if breaks_rule(b, text, m, allowed, target) {
        let other = choose|n: Seq<char>|
            #[trigger] names_pointer(m, target, n) && is_violation(b, text, m, allowed, target, n);
        lemma_pointer_name_unique(m, target, other, name);
    }
}

/// Whether the last line, among the first `n`, that speaks of an address gives it a name.
pub open spec fn named_last(lines: Seq<Seq<char>>, n: nat, addr: u64, name: Seq<char>) -> bool {
    exists|i: int|
        0 <= i < n && symbol_line(#[trigger] lines[i]) is Some && (symbol_line(lines[i])->0).0 as u64
            == addr && (symbol_line(lines[i])->0).1 == name && forall|j: int|
            i < j < n ==> !(symbol_line(#[trigger] lines[j]) is Some && (symbol_line(
                lines[j],
            )->0).0 as u64 == addr)
}

/// An address has the name that the last line of the listing that speaks of it gives it, and
/// none where no line does.
pub proof fn lemma_symbols(lines: Seq<Seq<char>>, n: nat, addr: u64, name: Seq<char>)
    requires
        n <= lines.len(),
    ensures
        symbol_lines(lines, n).dom().contains(addr) && symbol_lines(lines, n)[addr] == name
            <==> named_last(lines, n, addr, name),
    decreases n,
{
    if n > 0 {
        let m = (n - 1) as nat;
        lemma_symbols(lines, m, addr, name);
        let own = symbol_line(lines[m as int]) is Some && (symbol_line(lines[m as int])->0).0 as u64
            == addr;
        if own {
            if (symbol_line(lines[m as int])->0).1 == name {
                assert(symbol_line(lines[m as int]) is Some);
                assert(named_last(lines, n, addr, name));
            }
            if named_last(lines, n, addr, name) {
                let i = choose|i: int|
                    0 <= i < n && symbol_line(#[trigger] lines[i]) is Some && (symbol_line(
                        lines[i],
                    )->0).0 as u64 == addr && (symbol_line(lines[i])->0).1 == name && forall|
                        j: int,
                    |
                        i < j < n ==> !(symbol_line(#[trigger] lines[j]) is Some && (symbol_line(
                            lines[j],
                        )->0).0 as u64 == addr);
                assert(i == m);
            }
        } else {
            if named_last(lines, n, addr, name) {
                let i = choose|i: int|
                    0 <= i < n && symbol_line(#[trigger] lines[i]) is Some && (symbol_line(
                        lines[i],
                    )->0).0 as u64 == addr && (symbol_line(lines[i])->0).1 == name && forall|
                        j: int,
                    |
                        i < j < n ==> !(symbol_line(#[trigger] lines[j]) is Some && (symbol_line(
                            lines[j],
                        )->0).0 as u64 == addr);
                assert(i < m);
                assert(symbol_line(lines[i]) is Some);
                assert(named_last(lines, m, addr, name));
            }
            if named_last(lines, m, addr, name) {
                let i = choose|i: int|
                    0 <= i < m && symbol_line(#[trigger] lines[i]) is Some && (symbol_line(
                        lines[i],
                    )->0).0 as u64 == addr && (symbol_line(lines[i])->0).1 == name && forall|
                        j: int,
                    |
                        i < j < m ==> !(symbol_line(#[trigger] lines[j]) is Some && (symbol_line(
                            lines[j],
                        )->0).0 as u64 == addr);
                assert(symbol_line(lines[i]) is Some);
                assert(named_last(lines, n, addr, name));
            }
        }
    }
}

/// A file counts as an ELF file if and only if it can hold the header and starts with the four
/// bytes of the magic number.
pub proof fn lemma_is_elf(b: Seq<u8>)
    ensures
        is_elf(b) <==> b.len() >= 64 && b.take(4) == seq![0x7fu8, 0x45u8, 0x4cu8, 0x46u8],
{
    if b.len() >= 64 {
        let t = b.take(4);
        assert(t[0] == b[0] && t[1] == b[1] && t[2] == b[2] && t[3] == b[3]);
        let m = seq![0x7fu8, 0x45u8, 0x4cu8, 0x46u8];
        if is_elf(b) {
            assert(t =~= m);
        }
        if t == m {
            assert(m[0] == 0x7f && m[1] == 0x45 && m[2] == 0x4c && m[3] == 0x46);
        }
    }
}

} // verus!
