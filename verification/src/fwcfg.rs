//! The firmware's configuration files.

use crate::dma::{BuddyOrigin, DmaMappingView, Mapping, OwnedDmaMapping};
use vstd::prelude::*;

verus! {

/// The bytes of a directory entry.
pub const ENTRY_SIZE: usize = 64;

/// Where an entry's selector starts.
pub const SELECTOR_AT: usize = 4;

/// Where an entry's name starts.
pub const NAME_AT: usize = 8;

/// The number that four bytes hold, the highest first.
pub open spec fn be32(b: Seq<u8>, at: int) -> nat {
    (b[at] * 0x1000000 + b[at + 1] * 0x10000 + b[at + 2] * 0x100 + b[at + 3]) as nat
}

/// The number that two bytes hold, the highest first.
pub open spec fn be16(b: Seq<u8>, at: int) -> nat {
    (b[at] * 0x100 + b[at + 1]) as nat
}

/// Where the name that starts at `from` ends: at the first zero, or at `to`.
pub open spec fn name_end(b: Seq<u8>, from: int, to: int) -> int
    decreases to - from,
{
    if from >= to || b[from] == 0 {
        from
    } else {
        name_end(b, from + 1, to)
    }
}

/// Where entry `i` of a directory starts.
pub open spec fn entry_at(i: int) -> int {
    4 + i * ENTRY_SIZE
}

/// The name of entry `i`.
pub open spec fn entry_name(b: Seq<u8>, i: int) -> Seq<u8> {
    let from = entry_at(i) + NAME_AT;
    b.subrange(from, name_end(b, from, entry_at(i) + ENTRY_SIZE))
}

/// The selector of entry `i`.
pub open spec fn entry_selector(b: Seq<u8>, i: int) -> nat {
    be16(b, entry_at(i) + SELECTOR_AT)
}

/// The selector of the first entry from `i` on, of the directory's `count`, that has the
/// given name.
pub open spec fn find_from(b: Seq<u8>, name: Seq<u8>, count: int, i: int) -> Option<nat>
    decreases count - i,
{
    if i >= count {
        None
    } else if entry_name(b, i) == name {
        Some(entry_selector(b, i))
    } else {
        find_from(b, name, count, i + 1)
    }
}

/// The number of entries that have been looked at, of the directory's `count`, once the first
/// from `i` on with the given name was found, or all of them.
pub open spec fn looked_at(b: Seq<u8>, name: Seq<u8>, count: int, i: int) -> int
    decreases count - i,
{
    if i >= count {
        i
    } else if entry_name(b, i) == name {
        i + 1
    } else {
        looked_at(b, name, count, i + 1)
    }
}

/// Whether a directory, of which no more than the start may have been read, holds all that a
/// search for the given name looks at.
pub open spec fn holds_search(b: Seq<u8>, name: Seq<u8>) -> bool {
    b.len() >= 4 && b.len() >= entry_at(looked_at(b, name, be32(b, 0) as int, 0))
}

proof fn lemma_looked_at(b: Seq<u8>, name: Seq<u8>, count: int, i: int)
    ensures
        looked_at(b, name, count, i) >= i,
        i < count ==> looked_at(b, name, count, i) >= i + 1,
    decreases count - i,
{
    if i < count && entry_name(b, i) != name {
        lemma_looked_at(b, name, count, i + 1);
    }
}

fn has_name(b: &Vec<u8>, from: usize, to: usize, name: &Vec<u8>) -> (r: bool)
    requires
        from <= to <= b@.len(),
    ensures
        r == (b@.subrange(from as int, name_end(b@, from as int, to as int)) == name@),
{
    let mut end: usize = from;
    while end < to && b[end] != 0
        invariant
            from <= end <= to,
            to <= b@.len(),
            name_end(b@, from as int, to as int) == name_end(b@, end as int, to as int),
        decreases to - end,
    {
        end += 1;
    }
    let ghost stored = b@.subrange(from as int, end as int);
    if end - from != name.len() {
        return false;
    }
    let mut i: usize = 0;
    while i < name.len()
        invariant
            from <= end <= b@.len(),
            name_end(b@, from as int, to as int) == end,
            end - from == name@.len(),
            i <= name@.len(),
            stored == b@.subrange(from as int, end as int),
            forall|k: int| 0 <= k < i ==> stored[k] == name@[k],
        decreases name@.len() - i,
    {
        if b[from + i] != name[i] {
            assert(stored[i as int] != name@[i as int]);
            return false;
        }
        i += 1;
    }
    assert(stored =~= name@);
    true
}

/// The number of entries that a directory starts with.
pub fn directory_count(b: &Vec<u8>) -> (r: u32)
    requires
        b@.len() >= 4,
    ensures
        r == be32(b@, 0),
{
    b[0] as u32 * 0x1000000 + b[1] as u32 * 0x10000 + b[2] as u32 * 0x100 + b[3] as u32
}

/// Whether a directory, of which no more than the start may have been read, holds all that a
/// search for the given name looks at.
pub fn read_enough(b: &Vec<u8>, name: &Vec<u8>) -> (r: bool)
    ensures
        r == holds_search(b@, name@),
{
    let total: usize = b.len();
    if total < 4 {
        return false;
    }
    let count = directory_count(b);
    let mut i: u32 = 0;
    let mut at: usize = 4;
    while i < count
        invariant
            i <= count,
            count == be32(b@, 0),
            total == b@.len(),
            at == entry_at(i as int),
            at <= total,
            looked_at(b@, name@, count as int, 0) == looked_at(
                b@,
                name@,
                count as int,
                i as int,
            ),
        decreases count - i,
    {
        assert(entry_at(i + 1) == at + 64);
        proof {
            lemma_looked_at(b@, name@, count as int, i as int);
        }
        if total - at < ENTRY_SIZE {
            return false;
        }
        if has_name(b, at + NAME_AT, at + ENTRY_SIZE, name) {
            return true;
        }
        at = at + ENTRY_SIZE;
        i += 1;
    }
    true
}

/// Looks a file up in the directory, which is its number of entries and then the entries.
/// Returns the file's selector. What lies behind the entry that is found is not looked at,
/// and need not have been read.
pub fn find_file(b: &Vec<u8>, name: &Vec<u8>) -> (r: Option<u16>)
    requires
        holds_search(b@, name@),
    ensures
        match r {
            Some(s) => find_from(b@, name@, be32(b@, 0) as int, 0) == Some(s as nat),
            None => find_from(b@, name@, be32(b@, 0) as int, 0) is None,
        },
{
    let count = directory_count(b);
    let total: usize = b.len();
    let mut i: u32 = 0;
    let mut at: usize = 4;
    while i < count
        invariant
            i <= count,
            count == be32(b@, 0),
            total == b@.len(),
            holds_search(b@, name@),
            at == entry_at(i as int),
            looked_at(b@, name@, count as int, 0) == looked_at(
                b@,
                name@,
                count as int,
                i as int,
            ),
            find_from(b@, name@, count as int, 0) == find_from(
                b@,
                name@,
                count as int,
                i as int,
            ),
        decreases count - i,
    {
        assert(entry_at(i + 1) == at + 64);
        proof {
            lemma_looked_at(b@, name@, count as int, i as int);
        }
        if has_name(b, at + NAME_AT, at + ENTRY_SIZE, name) {
            let selector: u16 = b[at + 4] as u16 * 0x100 + b[at + 5] as u16;
            return Some(selector);
        }
        at = at + ENTRY_SIZE;
        i += 1;
    }
    None
}

/// Why a transfer to a file failed.
#[derive(Clone, Copy, Debug, PartialEq, Eq, Structural)]
pub enum FwCfgDmaError {
    DeviceError,
}

/// The bytes of a transfer's header.
pub const HEADER_SIZE: u64 = 16;

/// A transfer to a file. Its header, which names the file, the bytes and where they lie, is
/// written first; then, behind a barrier, the header's physical address is written to the
/// device's address register. Then the header's control word is looked at until it says how
/// the transfer ended.
#[derive(Clone, Copy, Debug, PartialEq, Eq, Structural)]
pub struct FwCfgTransfer {
    /// Where the header is written.
    pub header_va: u64,
    pub selector: u16,
    pub length: u32,
    pub payload_phys: u64,
    /// What is written to the address register.
    pub trigger: u64,
}

/// Whether a scratch mapping has room for a header and a payload at the given offsets.
pub open spec fn has_room(m: Mapping, header_offset: u64, payload_offset: u64) -> bool {
    &&& m.valid()
    &&& m.pa + m.bytes() <= u64::MAX
    &&& header_offset + HEADER_SIZE <= m.bytes()
    &&& payload_offset < m.bytes()
}

/// A transfer of `length` bytes, which lie in the scratch mapping, to the file of the given
/// selector.
pub fn dma_write(
    scratch: &OwnedDmaMapping<BuddyOrigin>,
    header_offset: u64,
    payload_offset: u64,
    selector: u16,
    length: u32,
) -> (r: FwCfgTransfer)
    requires
        has_room(scratch.mapping(), header_offset, payload_offset),
    ensures
        r == (FwCfgTransfer {
            header_va: (scratch.mapping().va + header_offset) as u64,
            selector,
            length,
            payload_phys: (scratch.mapping().pa + payload_offset) as u64,
            trigger: (scratch.mapping().pa + header_offset) as u64,
        }),
{
    FwCfgTransfer {
        header_va: scratch.va() + header_offset,
        selector,
        length,
        payload_phys: scratch.pa_offset(payload_offset),
        trigger: scratch.pa_offset(header_offset),
    }
}

/// One look at a transfer's control word: whether it ends, and how. An error is looked for
/// first.
pub fn dma_poll(is_error: bool, is_complete: bool) -> (r: Option<Result<(), FwCfgDmaError>>)
    ensures
        r == if is_error {
            Some(Err::<(), FwCfgDmaError>(FwCfgDmaError::DeviceError))
        } else if is_complete {
            Some(Ok(()))
        } else {
            None
        },
{
    if is_error {
        return Some(Err(FwCfgDmaError::DeviceError));
    }
    if is_complete {
        return Some(Ok(()));
    }
    None
}

/// The directory's entries of 64 bytes follow its count: behind four bytes of size each has two
/// bytes of selector, the highest first, and from byte eight on its name. A search gives the
/// selector of the first entry with the name.
pub proof fn lemma_directory(b: Seq<u8>, name: Seq<u8>, count: int, k: int)
    requires
        0 <= k < count,
        entry_name(b, k) == name,
        forall|j: int| 0 <= j < k ==> #[trigger] entry_name(b, j) != name,
    ensures
        find_from(b, name, count, 0) == Some(
            (b[4 + 64 * k + 4] * 256 + b[4 + 64 * k + 5]) as nat,
        ),
        looked_at(b, name, count, 0) == k + 1,
{
    lemma_find_first(b, name, count, 0, k);
}

proof fn lemma_find_first(b: Seq<u8>, name: Seq<u8>, count: int, i: int, k: int)
    requires
        0 <= i <= k < count,
        entry_name(b, k) == name,
        forall|j: int| i <= j < k ==> #[trigger] entry_name(b, j) != name,
    ensures
        find_from(b, name, count, i) == Some(entry_selector(b, k)),
        looked_at(b, name, count, i) == k + 1,
    decreases k - i,
{
    if i < k {
        lemma_find_first(b, name, count, i + 1, k);
    }
}

/// A name starts at byte eight of its entry and runs up to its first zero, or to the entry's end.
pub proof fn lemma_entry_name(b: Seq<u8>, i: int)
    requires
        0 <= i,
        4 + 64 * i + 64 <= b.len(),
    ensures
        ({
            let n = entry_name(b, i).len();
            &&& n <= 56
            &&& forall|j: int|
                0 <= j < n ==> #[trigger] entry_name(b, i)[j] == b[4 + 64 * i + 8 + j] && b[4 + 64
                    * i + 8 + j] != 0
            &&& n < 56 ==> b[4 + 64 * i + 8 + n] == 0
        }),
{
    lemma_name_end(b, 4 + 64 * i + 8, 4 + 64 * i + 64);
}

proof fn lemma_name_end(b: Seq<u8>, from: int, to: int)
    requires
        from <= to,
    ensures
        from <= name_end(b, from, to) <= to,
        forall|j: int| from <= j < name_end(b, from, to) ==> b[j] != 0,
        name_end(b, from, to) < to ==> b[name_end(b, from, to)] == 0,
    decreases to - from,
{
    if from < to && b[from] != 0 {
        lemma_name_end(b, from + 1, to);
    }
}

/// A number in the directory has its highest byte first.
pub proof fn lemma_highest_first(b: Seq<u8>, at: int)
    ensures
        be32(b, at) / 0x100_0000 == b[at],
        be32(b, at) % 0x100 == b[at + 3],
        (be32(b, at) / 0x1_0000) % 0x100 == b[at + 1],
        (be32(b, at) / 0x100) % 0x100 == b[at + 2],
        be16(b, at) / 0x100 == b[at],
        be16(b, at) % 0x100 == b[at + 1],
{
    lemma_four(b[at], b[at + 1], b[at + 2], b[at + 3]);
}

proof fn lemma_four(a: u8, b: u8, c: u8, d: u8)
    ensures
        ({
            let n = a * 0x1000000 + b * 0x10000 + c * 0x100 + d;
            &&& n / 0x100_0000 == a
            &&& n % 0x100 == d
            &&& (n / 0x1_0000) % 0x100 == b
            &&& (n / 0x100) % 0x100 == c
        }),
{
}

} // verus!
