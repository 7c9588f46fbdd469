//! The partition server: a block engine that passes requests on to another block server,
//! shifted to where the partition starts.

use crate::block::{AllocatedBuffer, BlockClient, BlockError, BlockGeometry};
use crate::handle::PageSetHandle;
use crate::slots::{first_free, no_slots, Slots};
use crate::syscall::{Reply, Request, Words};
use crate::virtual_memory::{freed, unmap_pages_tracked, Unmapping, VirtualMemory, PAGE_SIZE};
use vstd::prelude::*;

verus! {

/// The number of buffers that the engine keeps.
pub const MAX_BUFFERS: usize = 8;

/// The bytes of a sector.
pub const SECTOR_SIZE: u64 = 512;

/// A partition of a disk.
#[derive(Clone, Copy, Debug, PartialEq, Eq, Structural)]
pub struct Partition {
    pub is_fat32: bool,
    pub start_lba: u32,
    pub sector_count: u32,
}

/// What the first sector of a disk says.
pub enum DiskLayout {
    /// The whole disk is one file system.
    BareFat { sector_count: u64 },
    Mbr { partitions: Vec<Partition> },
}

/// The first partition from `i` on that holds the file system, or the number of partitions.
pub open spec fn fat_from(p: Seq<Partition>, i: int) -> int
    decreases p.len() - i,
{
    if i < 0 || i >= p.len() {
        p.len() as int
    } else if p[i].is_fat32 {
        i
    } else {
        fat_from(p, i + 1)
    }
}

/// The part of the disk to serve: its first sector and its sectors. Of a disk with
/// partitions it is the first that holds the file system.
pub open spec fn chosen_part(layout: DiskLayout) -> Option<(u64, u64)> {
    match layout {
        DiskLayout::BareFat { sector_count } => Some((0u64, sector_count)),
        DiskLayout::Mbr { partitions } => {
            let i = fat_from(partitions@, 0);
            if i < partitions@.len() {
                Some((partitions@[i].start_lba as u64, partitions@[i].sector_count as u64))
            } else {
                None
            }
        },
    }
}

/// The part of the disk to serve.
pub fn choose_partition(layout: &DiskLayout) -> (r: Option<(u64, u64)>)
    ensures
        r == chosen_part(*layout),
{
    match layout {
        DiskLayout::BareFat { sector_count } => Some((0, *sector_count)),
        DiskLayout::Mbr { partitions } => {
            let mut i: usize = 0;
            while i < partitions.len()
                invariant
                    i <= partitions@.len(),
                    *layout == (DiskLayout::Mbr { partitions: *partitions }),
                    fat_from(partitions@, 0) == fat_from(partitions@, i as int),
                decreases partitions@.len() - i,
            {
                let p = partitions[i];
                if p.is_fat32 {
                    return Some((p.start_lba as u64, p.sector_count as u64));
                }
                i += 1;
            }
            None
        },
    }
}

/// A buffer: the page set by which it is known here, and its number upstream.
#[derive(Clone, Copy, Debug, PartialEq, Eq, Structural)]
pub struct BufMapEntry {
    pub pageset_local: PageSetHandle,
    pub upstream_buffer_id: u32,
}

/// The first slot from `i` on that holds the given page set, or the number of slots.
pub open spec fn entry_from(s: Seq<Option<BufMapEntry>>, ps: PageSetHandle, i: int) -> int
    decreases s.len() - i,
{
    if i < 0 || i >= s.len() {
        s.len() as int
    } else if s[i] is Some && (s[i]->0).pageset_local == ps {
        i
    } else {
        entry_from(s, ps, i + 1)
    }
}

proof fn lemma_entry_from(s: Seq<Option<BufMapEntry>>, ps: PageSetHandle, i: int)
    requires
        0 <= i <= s.len(),
    ensures
        i <= entry_from(s, ps, i) <= s.len(),
        entry_from(s, ps, i) < s.len() ==> s[entry_from(s, ps, i)] is Some && (s[entry_from(
            s,
            ps,
            i,
        )]->0).pageset_local == ps,
    decreases s.len() - i,
{
    if i < s.len() && !(s[i] is Some && (s[i]->0).pageset_local == ps) {
        lemma_entry_from(s, ps, i + 1);
    }
}

/// The engine of the partition.
pub struct PartitionBlockEngine {
    pub upstream: BlockClient,
    pub start_lba: u64,
    pub sector_count: u64,
    /// The number of the attribute that buffers are mapped with.
    pub upstream_buffer_attr: u64,
    pub buf_map: Slots<BufMapEntry>,
}

/// The sector upstream that a transfer starts at, and the buffer's number there; or why
/// there is no such transfer.
pub open spec fn upstream_transfer(
    e: PartitionBlockEngine,
    sector: u64,
    count: u64,
    ps: PageSetHandle,
) -> Result<(u64, u32), BlockError> {
    let i = entry_from(e.buf_map@, ps, 0);
    if sector + count > u64::MAX || sector + count > e.sector_count {
        Err(BlockError::InvalidParameter)
    } else if i >= e.buf_map@.len() {
        Err(BlockError::InvalidBuffer)
    } else if e.start_lba + sector > u64::MAX {
        Err(BlockError::InvalidParameter)
    } else {
        Ok(((e.start_lba + sector) as u64, (e.buf_map@[i]->0).upstream_buffer_id))
    }
}

impl PartitionBlockEngine {
    pub fn new(
        upstream: BlockClient,
        start_lba: u64,
        sector_count: u64,
        upstream_buffer_attr: u64,
    ) -> (r: Self)
        ensures
            r.upstream == upstream,
            r.start_lba == start_lba,
            r.sector_count == sector_count,
            r.upstream_buffer_attr == upstream_buffer_attr,
            r.buf_map@ == no_slots::<BufMapEntry>(MAX_BUFFERS as nat),
    {
        PartitionBlockEngine {
            upstream,
            start_lba,
            sector_count,
            upstream_buffer_attr,
            buf_map: Slots::new(MAX_BUFFERS),
        }
    }

    fn find_slot(&self, ps: PageSetHandle) -> (r: Option<usize>)
        ensures
            match r {
                Some(i) => i == entry_from(self.buf_map@, ps, 0) && i < self.buf_map@.len(),
                None => entry_from(self.buf_map@, ps, 0) == self.buf_map@.len(),
            },
    {
        let mut i: usize = 0;
        while i < self.buf_map.len()
            invariant
                i <= self.buf_map@.len(),
                entry_from(self.buf_map@, ps, 0) == entry_from(self.buf_map@, ps, i as int),
            decreases self.buf_map@.len() - i,
        {
            if let Some(e) = self.buf_map.get(i) {
                if e.pageset_local == ps {
                    return Some(i);
                }
            }
            i += 1;
        }
        None
    }

    /// The partition, as a device.
    pub fn info(&self) -> (r: BlockGeometry)
        ensures
            r == (BlockGeometry {
                capacity_sectors: self.sector_count,
                sector_size: SECTOR_SIZE,
                buffer_attribute: self.upstream_buffer_attr,
            }),
    {
        BlockGeometry {
            capacity_sectors: self.sector_count,
            sector_size: SECTOR_SIZE,
            buffer_attribute: self.upstream_buffer_attr,
        }
    }

    /// Asks upstream for a buffer, if there is a slot for it.
    pub fn alloc_buffer(&self, sector_count: u64) -> (r: Result<Request, BlockError>)
        ensures
            r == if first_free(self.buf_map@) < self.buf_map@.len() {
                Ok::<Request, BlockError>(
                    self.upstream.command(
                        Words(self.upstream.codes.alloc_buffer, sector_count, 0, 0),
                    ),
                )
            } else {
                Err(BlockError::AllocFailed)
            },
    {
        match self.buf_map.find_free() {
            Some(_) => Ok(self.upstream.alloc_buffer(sector_count)),
            None => Err(BlockError::AllocFailed),
        }
    }

    /// Keeps the buffer that upstream answered with. Whatever upstream says against it, the
    /// buffer could not be had.
    pub fn buffer_allocated(&mut self, answer: Result<AllocatedBuffer, BlockError>) -> (r: Result<
        PageSetHandle,
        BlockError,
    >)
        requires
            first_free(old(self).buf_map@) < old(self).buf_map@.len(),
        ensures
            final(self).upstream == old(self).upstream,
            final(self).start_lba == old(self).start_lba,
            final(self).sector_count == old(self).sector_count,
            final(self).upstream_buffer_attr == old(self).upstream_buffer_attr,
            match answer {
                Ok(a) => r == Ok::<PageSetHandle, BlockError>(a.pageset) && final(self).buf_map@
                    == old(self).buf_map@.update(
                    first_free(old(self).buf_map@),
                    Some(
                        BufMapEntry {
                            pageset_local: a.pageset,
                            upstream_buffer_id: a.buffer_id,
                        },
                    ),
                ),
                Err(_) => r == Err::<PageSetHandle, BlockError>(BlockError::AllocFailed)
                    && final(self).buf_map@ == old(self).buf_map@,
            },
    {
        match answer {
            Ok(a) => {
                self.buf_map.put(
                    BufMapEntry { pageset_local: a.pageset, upstream_buffer_id: a.buffer_id },
                );
                Ok(a.pageset)
            },
            Err(_) => Err(BlockError::AllocFailed),
        }
    }

    fn locate(&self, sector: u64, count: u64, ps: PageSetHandle) -> (r: Result<
        (u64, u32),
        BlockError,
    >)
        ensures
            r == upstream_transfer(*self, sector, count, ps),
    {
        let end = match sector.checked_add(count) {
            Some(end) => end,
            None => {
                return Err(BlockError::InvalidParameter);
            },
        };
        if end > self.sector_count {
            return Err(BlockError::InvalidParameter);
        }
        proof {
            lemma_entry_from(self.buf_map@, ps, 0);
        }
        let entry = match self.find_slot(ps) {
            Some(i) => match self.buf_map.get(i) {
                Some(e) => e,
                None => {
                    return Err(BlockError::InvalidBuffer);
                },
            },
            None => {
                return Err(BlockError::InvalidBuffer);
            },
        };
        match self.start_lba.checked_add(sector) {
            Some(at) => Ok((at, entry.upstream_buffer_id)),
            None => Err(BlockError::InvalidParameter),
        }
    }

    /// Passes a read on.
    pub fn read(&self, sector: u64, count: u64, ps: PageSetHandle) -> (r: Result<
        Request,
        BlockError,
    >)
        ensures
            r == match upstream_transfer(*self, sector, count, ps) {
                Ok((at, id)) => Ok::<Request, BlockError>(
                    self.upstream.command(
                        Words(self.upstream.codes.read, at, count, id as u64),
                    ),
                ),
                Err(e) => Err(e),
            },
    {
        match self.locate(sector, count, ps) {
            Ok((at, id)) => Ok(self.upstream.read(at, count, id)),
            Err(e) => Err(e),
        }
    }

    /// Passes a write on.
    pub fn write(&self, sector: u64, count: u64, ps: PageSetHandle) -> (r: Result<
        Request,
        BlockError,
    >)
        ensures
            r == match upstream_transfer(*self, sector, count, ps) {
                Ok((at, id)) => Ok::<Request, BlockError>(
                    self.upstream.command(
                        Words(self.upstream.codes.write, at, count, id as u64),
                    ),
                ),
                Err(e) => Err(e),
            },
    {
        match self.locate(sector, count, ps) {
            Ok((at, id)) => Ok(self.upstream.write(at, count, id)),
            Err(e) => Err(e),
        }
    }

    /// Takes a buffer out: the two requests that free it upstream and close it here, in this
    /// order. A page set that is not known is ignored.
    pub fn free_buffer(&mut self, ps: PageSetHandle) -> (r: Option<(Request, Request)>)
        ensures
            final(self).upstream == old(self).upstream,
            final(self).start_lba == old(self).start_lba,
            final(self).sector_count == old(self).sector_count,
            final(self).upstream_buffer_attr == old(self).upstream_buffer_attr,
            ({
                let s = old(self).buf_map@;
                let i = entry_from(s, ps, 0);
                if i < s.len() {
                    &&& r == Some(
                        (
                            old(self).upstream.command(
                                Words(
                                    old(self).upstream.codes.free_buffer,
                                    (s[i]->0).upstream_buffer_id as u64,
                                    0,
                                    0,
                                ),
                            ),
                            Request::CloseHandle { handle: ps.0 },
                        ),
                    )
                    &&& final(self).buf_map@ == s.update(i, None)
                } else {
                    r is None && final(self).buf_map@ == s
                }
            }),
    {
        proof {
            lemma_entry_from(self.buf_map@, ps, 0);
        }
        match self.find_slot(ps) {
            Some(i) => match self.buf_map.get(i) {
                Some(e) => {
                    self.buf_map.set(i, None);
                    Some(
                        (
                            self.upstream.free_buffer(e.upstream_buffer_id),
                            Request::CloseHandle { handle: e.pageset_local.0 },
                        ),
                    )
                },
                None => None,
            },
            None => None,
        }
    }
}

proof fn lemma_buffer_with(s: Seq<Option<BufMapEntry>>, b: BufMapEntry, ps: PageSetHandle, i: int)
    requires
        0 <= i <= s.len(),
        first_free(s) < s.len(),
        ps != b.pageset_local || entry_from(s, ps, i) == s.len(),
    ensures
        entry_from(s.update(first_free(s), Some(b)), ps, i) == if ps == b.pageset_local && i <= first_free(
            s,
        ) {
            first_free(s)
        } else {
            entry_from(s, ps, i)
        },
    decreases s.len() - i,
{
    crate::slots::lemma_first_free(s, 0);
    if i < s.len() {
        lemma_buffer_with(s, b, ps, i + 1);
    }
}

/// A buffer that was kept is found under its page set until it is freed; then the engine has
/// the buffers that it had before. What other page sets lead to does not change.
pub proof fn lemma_buffer_until_freed(s: Seq<Option<BufMapEntry>>, b: BufMapEntry)
    requires
        first_free(s) < s.len(),
        entry_from(s, b.pageset_local, 0) == s.len(),
    ensures
        ({
            let t = s.update(first_free(s), Some(b));
            let i = entry_from(t, b.pageset_local, 0);
            &&& i < t.len() && t[i] == Some(b)
            &&& t.update(i, None) == s
            &&& forall|other: PageSetHandle|
                other != b.pageset_local ==> #[trigger] entry_from(t, other, 0) == entry_from(s, other, 0)
        }),
{
    let t = s.update(first_free(s), Some(b));
    crate::slots::lemma_first_free(s, 0);
    lemma_buffer_with(s, b, b.pageset_local, 0);
    assert(t.update(first_free(s), None) =~= s);
    assert forall|other: PageSetHandle| other != b.pageset_local implies #[trigger] entry_from(t, other, 0)
        == entry_from(s, other, 0) by {
        lemma_buffer_with(s, b, other, 0);
    }
}

/// No transfer that is passed on reaches beyond the partition.
pub proof fn lemma_within_partition(
    e: PartitionBlockEngine,
    sector: u64,
    count: u64,
    ps: PageSetHandle,
)
    ensures
        upstream_transfer(e, sector, count, ps) matches Ok((at, _)) ==> e.start_lba <= at && at
            + count <= e.start_lba + e.sector_count,
{
}

// ---------------------------------------------------------------------------
// The buffer that the first sector is read into
// ---------------------------------------------------------------------------

/// The buffer that the first sector is read into; it is mapped where its address is not
/// zero.
#[derive(Clone, Copy, Debug, PartialEq, Eq, Structural)]
pub struct BootstrapBuf {
    pub pageset: PageSetHandle,
    pub buffer_id: u32,
    pub va: u64,
}

/// What ending such a buffer does next.
pub enum Teardown {
    /// Unmap it first.
    Unmap(Unmapping, Request),
    /// Free it upstream and close it, in this order.
    Finish(Request, Request),
}

impl BootstrapBuf {
    pub fn new(a: AllocatedBuffer) -> (r: Self)
        ensures
            r == (BootstrapBuf { pageset: a.pageset, buffer_id: a.buffer_id, va: 0 }),
    {
        BootstrapBuf { pageset: a.pageset, buffer_id: a.buffer_id, va: 0 }
    }

    pub fn set_va(&mut self, va: u64)
        ensures
            final(self).pageset == old(self).pageset,
            final(self).buffer_id == old(self).buffer_id,
            final(self).va == va,
    {
        self.va = va;
    }

    /// The requests that free the buffer upstream and close it.
    pub open spec fn finishing(self, upstream: BlockClient) -> (Request, Request) {
        (
            upstream.command(
                Words(upstream.codes.free_buffer, self.buffer_id as u64, 0, 0),
            ),
            Request::CloseHandle { handle: self.pageset.0 },
        )
    }

    /// Ends the buffer: a mapped one is unmapped before it is freed.
    pub fn teardown(&self, upstream: &BlockClient) -> (r: Teardown)
        ensures
            if self.va != 0 {
                &&& r matches Teardown::Unmap(u, request)
                &&& u.start() == self.va
                &&& u.count() == 1
                &&& request == (Request::UnmapPages { pageset: self.pageset.0, va: self.va })
            } else {
                &&& r matches Teardown::Finish(a, b)
                &&& (a, b) == self.finishing(*upstream)
            },
    {
        if self.va != 0 {
            let (u, request) = unmap_pages_tracked(self.pageset, self.va, 1);
            Teardown::Unmap(u, request)
        } else {
            Teardown::Finish(
                upstream.free_buffer(self.buffer_id),
                Request::CloseHandle { handle: self.pageset.0 },
            )
        }
    }

    /// Goes on once the unmapping was answered. The page is free again only where it was
    /// unmapped; the buffer is freed either way.
    pub fn unmapped(
        &self,
        upstream: &BlockClient,
        u: Unmapping,
        reply: Reply,
        vm: &mut VirtualMemory,
    ) -> (r: (Request, Request))
        requires
            old(vm).valid(),
            old(vm).is_ready(),
            u.start() + u.count() * PAGE_SIZE <= u64::MAX,
        ensures
            r == self.finishing(*upstream),
            final(vm).valid(),
            final(vm).is_ready(),
            final(vm).at() == old(vm).at(),
            match reply {
                Ok(_) => final(vm)@ == freed(old(vm)@, u.start(), u.count() as u64),
                Err(_) => *final(vm) == *old(vm),
            },
    {
        match u.resume(reply) {
            Ok(proof_of) => {
                vm.free_unmapped(proof_of);
            },
            Err(_) => {},
        }
        (
            upstream.free_buffer(self.buffer_id),
            Request::CloseHandle { handle: self.pageset.0 },
        )
    }
}

/// The part that is served: all of a disk that is one file system; of a disk with partitions the
/// first one that holds the file system, and none where no partition does.
pub proof fn lemma_chosen_part(p: Vec<Partition>, i: int, sectors: u64)
    ensures
        chosen_part(DiskLayout::BareFat { sector_count: sectors }) == Some((0u64, sectors)),
        0 <= i < p@.len() && p@[i].is_fat32 && (forall|j: int|
            0 <= j < i ==> !(#[trigger] p@[j]).is_fat32) ==> chosen_part(
            DiskLayout::Mbr { partitions: p },
        ) == Some((p@[i].start_lba as u64, p@[i].sector_count as u64)),
        (forall|j: int| 0 <= j < p@.len() ==> !(#[trigger] p@[j]).is_fat32) ==> chosen_part(
            DiskLayout::Mbr { partitions: p },
        ) is None,
{
    if 0 <= i < p@.len() && p@[i].is_fat32 && (forall|j: int|
        0 <= j < i ==> !(#[trigger] p@[j]).is_fat32) {
        lemma_fat_from(p@, 0, i);
    }
    if forall|j: int| 0 <= j < p@.len() ==> !(#[trigger] p@[j]).is_fat32 {
        lemma_fat_from(p@, 0, p@.len() as int);
    }
}

proof fn lemma_fat_from(p: Seq<Partition>, i: int, k: int)
    requires
        0 <= i <= k <= p.len(),
        k < p.len() ==> p[k].is_fat32,
        forall|j: int| i <= j < k ==> !(#[trigger] p[j]).is_fat32,
    ensures
        fat_from(p, i) == k,
    decreases k - i,
{
    if i < k {
        lemma_fat_from(p, i + 1, k);
    }
}

/// A transfer within the partition, with a buffer that the engine keeps, is passed on: to the
/// same sector counted from the partition's start, and with the number that the buffer has
/// upstream. One that ends behind the partition is not.
pub proof fn lemma_passed_on(
    e: PartitionBlockEngine,
    sector: u64,
    count: u64,
    ps: PageSetHandle,
    i: int,
)
    requires
        0 <= i < e.buf_map@.len(),
        e.buf_map@[i] is Some && (e.buf_map@[i]->0).pageset_local == ps,
        forall|j: int|
            0 <= j < i ==> !(e.buf_map@[j] is Some && (#[trigger] e.buf_map@[j]->0).pageset_local
                == ps),
    ensures
        sector + count <= e.sector_count && e.start_lba + sector <= u64::MAX ==> upstream_transfer(
            e,
            sector,
            count,
            ps,
        ) == Ok::<(u64, u32), BlockError>(
            ((e.start_lba + sector) as u64, (e.buf_map@[i]->0).upstream_buffer_id),
        ),
        sector + count > e.sector_count ==> upstream_transfer(e, sector, count, ps) == Err::<
            (u64, u32),
            BlockError,
        >(BlockError::InvalidParameter),
{
    lemma_first_entry(e.buf_map@, ps, 0, i);
}

proof fn lemma_first_entry(s: Seq<Option<BufMapEntry>>, ps: PageSetHandle, i: int, k: int)
    requires
        0 <= i <= k < s.len(),
        s[k] is Some && (s[k]->0).pageset_local == ps,
        forall|j: int| i <= j < k ==> !(s[j] is Some && (#[trigger] s[j]->0).pageset_local == ps),
    ensures
        entry_from(s, ps, i) == k,
    decreases k - i,
{
    if i < k {
        lemma_first_entry(s, ps, i + 1, k);
    }
}

} // verus!
