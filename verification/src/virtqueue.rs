//! The queue through which a driver hands buffers to a device.
//!
//! A descriptor table lies in memory that driver and device share. Only the driver writes
//! it, so the table is kept here as well; what a call changes has to be written out. The
//! descriptors that are not with the device form a chain.

use crate::dma::{BuddyOrigin, DmaMappingView, OwnedDmaMapping};
use crate::handle::NotificationHandle;
use crate::syscall::{Reply, Request};
use vstd::prelude::*;

verus! {

/// Which way a buffer's data goes.
#[derive(Clone, Copy, Debug, PartialEq, Eq, Structural)]
pub enum Direction {
    DeviceReadable,
    DeviceWritable,
}

/// One buffer of a request.
#[derive(Clone, Copy, Debug, PartialEq, Eq, Structural)]
pub struct Segment {
    pub pa: u64,
    pub len: u32,
    pub direction: Direction,
}

impl Segment {
    /// A buffer that the device reads.
    pub fn readable(pa: u64, len: u32) -> (r: Self)
        ensures
            r == (Segment { pa, len, direction: Direction::DeviceReadable }),
    {
        Segment { pa, len, direction: Direction::DeviceReadable }
    }

    /// A buffer that the device writes.
    pub fn writable(pa: u64, len: u32) -> (r: Self)
        ensures
            r == (Segment { pa, len, direction: Direction::DeviceWritable }),
    {
        Segment { pa, len, direction: Direction::DeviceWritable }
    }
}

/// Why a wait for the device failed.
#[derive(Clone, Copy, Debug, PartialEq, Eq, Structural)]
pub enum VirtqueueError {
    IrqWaitFailed,
}

/// Where the parts of the queue lie in its memory.
#[derive(Clone, Copy, Debug, PartialEq, Eq, Structural)]
pub struct QueueLayout {
    pub queue_size: u16,
    pub desc_offset: u64,
    pub avail_offset: u64,
    pub used_offset: u64,
    pub total_size: u64,
}

/// A descriptor: a buffer, whether the device writes it, and whether another follows.
#[derive(Clone, Copy, Debug, PartialEq, Eq, Structural)]
pub struct Descriptor {
    pub addr: u64,
    pub len: u32,
    pub device_writes: bool,
    pub more: bool,
    pub next: u16,
}

// ---------------------------------------------------------------------------
// Lists of descriptors
// ---------------------------------------------------------------------------

/// Whether each number of a list is below `n`, and none occurs twice.
pub open spec fn is_list(l: Seq<u16>, n: nat) -> bool {
    l.no_duplicates() && forall|i: int| 0 <= i < l.len() ==> (#[trigger] l[i]) < n
}

/// Whether descriptor `i` of a list leads to the one behind it.
pub open spec fn leads_on(d: Seq<Descriptor>, l: Seq<u16>, i: int) -> bool {
    d[l[i] as int].next == l[i + 1]
}

/// Whether each descriptor of a list leads to the one behind it.
pub open spec fn is_linked(d: Seq<Descriptor>, l: Seq<u16>) -> bool {
    forall|i: int| 0 <= i && i + 1 < l.len() ==> #[trigger] leads_on(d, l, i)
}

/// Whether descriptor `i` of a list says correctly whether another follows.
pub open spec fn marks_end(d: Seq<Descriptor>, l: Seq<u16>, i: int) -> bool {
    d[l[i] as int].more == (i + 1 < l.len())
}

/// Whether a list is the chain of a request.
pub open spec fn is_request(d: Seq<Descriptor>, l: Seq<u16>) -> bool {
    &&& l.len() > 0
    &&& is_linked(d, l)
    &&& forall|i: int| 0 <= i < l.len() ==> #[trigger] marks_end(d, l, i)
}

/// Whether two lists have no descriptor in common.
pub open spec fn apart(a: Seq<u16>, b: Seq<u16>) -> bool {
    forall|x: u16| !(#[trigger] a.contains(x) && b.contains(x))
}

proof fn lemma_list_bound(l: Seq<u16>, n: nat)
    requires
        is_list(l, n),
    ensures
        l.len() <= n,
    decreases n,
{
    if n == 0 {
        if l.len() > 0 {
            assert(l[0] < 0);
        }
    } else if exists|k: int| 0 <= k < l.len() && l[k] == n - 1 {
        let k = choose|k: int| 0 <= k < l.len() && l[k] == n - 1;
        let m = l.remove(k);
        assert forall|i: int| 0 <= i < m.len() implies (#[trigger] m[i]) < (n - 1) as nat by {
            let s = if i < k {
                i
            } else {
                i + 1
            };
            assert(m[i] == l[s]);
            assert(l[s] < n);
            assert(l[s] != l[k]);
        }
        assert(m.no_duplicates()) by {
            assert forall|i: int, j: int| 0 <= i < m.len() && 0 <= j < m.len() && i
                != j implies m[i] != m[j] by {
                let s = if i < k {
                    i
                } else {
                    i + 1
                };
                let t = if j < k {
                    j
                } else {
                    j + 1
                };
                assert(m[i] == l[s] && m[j] == l[t]);
            }
        }
        lemma_list_bound(m, (n - 1) as nat);
    } else {
        assert forall|i: int| 0 <= i < l.len() implies (#[trigger] l[i]) < (n - 1) as nat by {
            assert(l[i] < n);
        }
        lemma_list_bound(l, (n - 1) as nat);
    }
}

/// Two lists without a common descriptor make one list.
proof fn lemma_joined(a: Seq<u16>, b: Seq<u16>, n: nat)
    requires
        is_list(a, n),
        is_list(b, n),
        apart(a, b),
    ensures
        is_list(a + b, n),
        a.len() + b.len() <= n,
{
    let c = a + b;
    assert forall|i: int| 0 <= i < c.len() implies (#[trigger] c[i]) < n by {
        if i < a.len() {
            assert(c[i] == a[i]);
        } else {
            assert(c[i] == b[i - a.len()]);
        }
    }
    assert forall|i: int, j: int| 0 <= i < c.len() && 0 <= j < c.len() && i != j implies c[i]
        != c[j] by {
        if i < a.len() && j >= a.len() {
            assert(a.contains(a[i]));
            assert(b.contains(b[j - a.len()]));
        } else if j < a.len() && i >= a.len() {
            assert(a.contains(a[j]));
            assert(b.contains(b[i - a.len()]));
        }
    }
    lemma_list_bound(c, n);
}

// ---------------------------------------------------------------------------
// The queue
// ---------------------------------------------------------------------------

/// The queue.
pub struct Virtqueue {
    backing: OwnedDmaMapping<BuddyOrigin>,
    layout: QueueLayout,
    descriptors: Vec<Descriptor>,
    free_head: u16,
    num_free: u16,
    avail_idx: u16,
    last_used_idx: u16,
    /// Which descriptors start a request that the device has.
    heads: Vec<bool>,
    free: Ghost<Seq<u16>>,
    requests: Ghost<Map<u16, Seq<u16>>>,
}

/// What a request changes in the shared memory, in this order: the descriptors, the entry
/// of the ring of available requests, and, behind a barrier, that ring's index.
pub struct Submission {
    pub head: u16,
    /// The descriptors to write.
    pub written: Vec<u16>,
    /// The entry of the ring that `head` is written to.
    pub ring_slot: u16,
    /// The ring's new index.
    pub avail_idx: u16,
}

/// The number after `i`; the largest is followed by zero.
pub open spec fn next_index(i: u16) -> u16 {
    if i == u16::MAX {
        0
    } else {
        (i + 1) as u16
    }
}

/// The descriptor that stands for segment `i` of a request whose chain is `l`.
pub open spec fn descriptor_for(segments: Seq<Segment>, l: Seq<u16>, i: int) -> Descriptor {
    Descriptor {
        addr: segments[i].pa,
        len: segments[i].len,
        device_writes: segments[i].direction == Direction::DeviceWritable,
        more: i + 1 < l.len(),
        next: if i + 1 < l.len() {
            l[i + 1]
        } else {
            0
        },
    }
}

/// Whether a queue took a request of the given segments: its first free descriptors hold the
/// segments, the others are as they were, and the submission says what changed.
pub open spec fn took(
    before: Virtqueue,
    after: Virtqueue,
    segments: Seq<Segment>,
    s: Submission,
) -> bool {
    let n = segments.len() as int;
    let free = before.free_list();
    let chain = free.take(n);
    &&& 0 < n <= free.len()
    &&& s.head == free[0]
    &&& s.written@ == chain
    &&& s.ring_slot == before.handed() % before.shape().queue_size
    &&& s.avail_idx == next_index(before.handed())
    &&& after.shape() == before.shape()
    &&& after.memory() == before.memory()
    &&& after.seen() == before.seen()
    &&& after.handed() == next_index(before.handed())
    &&& after.free_list() == free.skip(n)
    &&& after.in_flight() == before.in_flight().insert(free[0], chain)
    &&& after.table().len() == before.table().len()
    &&& forall|i: int|
        0 <= i < n ==> after.table()[#[trigger] chain[i] as int] == descriptor_for(
            segments,
            chain,
            i,
        )
    &&& forall|x: u16|
        x < before.table().len() && !chain.contains(x) ==> #[trigger] after.table()[x as int]
            == before.table()[x as int]
}

/// Whether a queue took back the request that starts at `head`: its descriptors are free
/// again, before all others, and the last of them leads on to those.
pub open spec fn gave_back(before: Virtqueue, after: Virtqueue, head: u16) -> bool {
    let chain = before.in_flight()[head];
    let free = before.free_list();
    &&& after.shape() == before.shape()
    &&& after.memory() == before.memory()
    &&& after.handed() == before.handed()
    &&& after.seen() == before.seen()
    &&& after.free_list() == chain + free
    &&& after.in_flight() == before.in_flight().remove(head)
    &&& after.table() == before.table().update(
        chain.last() as int,
        Descriptor {
            addr: 0,
            len: 0,
            device_writes: false,
            more: free.len() > 0,
            next: after.table()[chain.last() as int].next,
        },
    )
    &&& free.len() > 0 ==> after.table()[chain.last() as int].next == free[0]
}

impl Virtqueue {
    /// The descriptor table.
    pub closed spec fn table(&self) -> Seq<Descriptor> {
        self.descriptors@
    }

    /// The free descriptors, in the order in which they are handed out.
    pub closed spec fn free_list(&self) -> Seq<u16> {
        self.free@
    }

    /// The chains of the requests that the device has, by their first descriptor.
    pub closed spec fn in_flight(&self) -> Map<u16, Seq<u16>> {
        self.requests@
    }

    /// The ring index up to which requests were handed to the device.
    pub closed spec fn handed(&self) -> u16 {
        self.avail_idx
    }

    /// The ring index up to which completions were seen.
    pub closed spec fn seen(&self) -> u16 {
        self.last_used_idx
    }

    pub closed spec fn shape(&self) -> QueueLayout {
        self.layout
    }

    pub closed spec fn memory(&self) -> crate::dma::Mapping {
        self.backing.mapping()
    }

    /// Whether the free descriptors form a chain, each request's descriptors form one, no
    /// descriptor is in two of them, and none is lost.
    pub closed spec fn valid(&self) -> bool {
        let n = self.layout.queue_size as nat;
        &&& self.descriptors@.len() == n
        &&& self.heads@.len() == n
        &&& is_list(self.free@, n)
        &&& is_linked(self.descriptors@, self.free@)
        &&& self.num_free == self.free@.len()
        &&& self.free@.len() > 0 ==> self.free_head == self.free@[0]
        &&& forall|h: u16| #[trigger]
            self.requests@.dom().contains(h) ==> {
                &&& is_list(self.requests@[h], n)
                &&& is_request(self.descriptors@, self.requests@[h])
                &&& self.requests@[h][0] == h
                &&& apart(self.requests@[h], self.free@)
            }
        &&& forall|g: u16, h: u16|
            #![trigger self.requests@.dom().contains(g), self.requests@.dom().contains(h)]
            self.requests@.dom().contains(g) && self.requests@.dom().contains(h) && g != h
                ==> apart(self.requests@[g], self.requests@[h])
        &&& forall|h: u16|
            h < n ==> (#[trigger] self.heads@[h as int] <==> self.requests@.dom().contains(h))
        &&& forall|x: u16|
            x < n ==> #[trigger] self.free@.contains(x) || exists|h: u16| #[trigger]
                self.requests@.dom().contains(h) && self.requests@[h].contains(x)
    }

    /// A queue within `backing`, all of whose descriptors are free.
    pub fn new(backing: OwnedDmaMapping<BuddyOrigin>, layout: QueueLayout) -> (r: Self)
        requires
            backing.mapping().valid(),
            layout.total_size <= backing.mapping().bytes(),
        ensures
            r.valid(),
            r.memory() == backing.mapping(),
            r.shape() == layout,
            r.free_list() == Seq::new(layout.queue_size as nat, |i: int| i as u16),
            r.in_flight() == Map::<u16, Seq<u16>>::empty(),
            r.handed() == 0,
            r.seen() == 0,
            r.table() == Seq::new(
                layout.queue_size as nat,
                |i: int|
                    Descriptor {
                        addr: 0,
                        len: 0,
                        device_writes: false,
                        more: i + 1 < layout.queue_size,
                        next: if i + 1 < layout.queue_size {
                            (i + 1) as u16
                        } else {
                            0
                        },
                    },
            ),
    {
        let n = layout.queue_size;
        let mut descriptors: Vec<Descriptor> = Vec::new();
        let mut heads: Vec<bool> = Vec::new();
        let mut i: u16 = 0;
        while i < n
            invariant
                i <= n,
                n == layout.queue_size,
                descriptors@.len() == i,
                heads@.len() == i,
                forall|k: int|
                    0 <= k < i ==> #[trigger] descriptors@[k] == (Descriptor {
                        addr: 0,
                        len: 0,
                        device_writes: false,
                        more: k + 1 < n,
                        next: if k + 1 < n {
                            (k + 1) as u16
                        } else {
                            0
                        },
                    }),
                forall|k: int| 0 <= k < i ==> !#[trigger] heads@[k],
            decreases n - i,
        {
            let more = i < n - 1;
            descriptors.push(
                Descriptor {
                    addr: 0,
                    len: 0,
                    device_writes: false,
                    more,
                    next: if more {
                        i + 1
                    } else {
                        0
                    },
                },
            );
            heads.push(false);
            i += 1;
        }
        let ghost list = Seq::new(n as nat, |i: int| i as u16);
        proof {
            assert forall|i: int| 0 <= i && i + 1 < list.len() implies #[trigger] leads_on(
                descriptors@,
                list,
                i,
            ) by {}
            assert forall|x: u16| x < n implies #[trigger] list.contains(x) by {
                assert(list[x as int] == x);
            }
            assert(descriptors@ =~= Seq::new(
                layout.queue_size as nat,
                |i: int|
                    Descriptor {
                        addr: 0,
                        len: 0,
                        device_writes: false,
                        more: i + 1 < layout.queue_size,
                        next: if i + 1 < layout.queue_size {
                            (i + 1) as u16
                        } else {
                            0
                        },
                    },
            ));
        }
        Virtqueue {
            backing,
            layout,
            descriptors,
            free_head: 0,
            num_free: n,
            avail_idx: 0,
            last_used_idx: 0,
            heads,
            free: Ghost(list),
            requests: Ghost(Map::empty()),
        }
    }

    /// The number of descriptors.
    pub fn queue_size(&self) -> (r: u16)
        ensures
            r == self.shape().queue_size,
    {
        self.layout.queue_size
    }

    /// A descriptor of the table.
    pub fn descriptor(&self, i: u16) -> (r: Descriptor)
        requires
            self.valid(),
            i < self.shape().queue_size,
        ensures
            r == self.table()[i as int],
    {
        self.descriptors[i as usize]
    }

    /// The physical address of the descriptor table.
    pub fn desc_phys(&self) -> (r: u64)
        requires
            self.memory().valid(),
            self.shape().desc_offset < self.memory().bytes(),
            self.memory().pa + self.shape().desc_offset <= u64::MAX,
        ensures
            r == self.memory().pa + self.shape().desc_offset,
    {
        self.backing.pa_offset(self.layout.desc_offset)
    }

    /// The physical address of the ring of available requests.
    pub fn avail_phys(&self) -> (r: u64)
        requires
            self.memory().valid(),
            self.shape().avail_offset < self.memory().bytes(),
            self.memory().pa + self.shape().avail_offset <= u64::MAX,
        ensures
            r == self.memory().pa + self.shape().avail_offset,
    {
        self.backing.pa_offset(self.layout.avail_offset)
    }

    /// The physical address of the ring of used requests.
    pub fn used_phys(&self) -> (r: u64)
        requires
            self.memory().valid(),
            self.shape().used_offset < self.memory().bytes(),
            self.memory().pa + self.shape().used_offset <= u64::MAX,
        ensures
            r == self.memory().pa + self.shape().used_offset,
    {
        self.backing.pa_offset(self.layout.used_offset)
    }

    /// Hands a request to the device: its segments take the first free descriptors, in
    /// order. `None` where there are none or not enough.
    pub fn submit_chain(&mut self, segments: &Vec<Segment>) -> (r: Option<Submission>)
        requires
            old(self).valid(),
        ensures
            final(self).valid(),
            if segments@.len() == 0 || segments@.len() > old(self).free_list().len() {
                r is None && *final(self) == *old(self)
            } else {
                r matches Some(s) && took(*old(self), *final(self), segments@, s)
            },
    {
        let n: usize = segments.len();
        if n == 0 || n > self.num_free as usize {
            return None;
        }
        let size = self.layout.queue_size;
        let ghost free = self.free@;
        let ghost old_requests = self.requests@;
        let ghost d0 = self.descriptors@;
        let ghost chain = free.take(n as int);
        let ghost rest = free.skip(n as int);
        let head = self.free_head;
        let mut written: Vec<u16> = Vec::new();
        let mut idx: u16 = head;
        let mut i: usize = 0;
        proof {
            lemma_list_bound(free, size as nat);
        }
        while i < n
            invariant
                i <= n,
                n == segments@.len(),
                n <= free.len(),
                free.len() <= size,
                size == self.layout.queue_size,
                chain == free.take(n as int),
                is_list(free, size as nat),
                is_linked(d0, free),
                d0.len() == size,
                self.descriptors@.len() == size,
                written@ == chain.take(i as int),
                i < free.len() ==> idx == free[i as int],
                forall|k: int|
                    0 <= k < i ==> self.descriptors@[#[trigger] chain[k] as int]
                        == descriptor_for(segments@, chain, k),
                forall|x: u16|
                    x < size && !chain.take(i as int).contains(x) ==> #[trigger]
                        self.descriptors@[x as int] == d0[x as int],
                self.free@ == free,
                self.requests@ == old_requests,
                self.heads@ == old(self).heads@,
                self.layout == old(self).layout,
                self.backing == old(self).backing,
                self.num_free == old(self).num_free,
                self.avail_idx == old(self).avail_idx,
                self.last_used_idx == old(self).last_used_idx,
            decreases n - i,
        {
            let seg = segments[i];
            let last = i == n - 1;
            proof {
                assert(free[i as int] < size);
                assert(chain[i as int] == free[i as int]);
                assert(!chain.take(i as int).contains(idx)) by {
                    if chain.take(i as int).contains(idx) {
                        let k = choose|k: int|
                            0 <= k < i && chain.take(i as int)[k] == idx;
                        assert(free[k] == free[i as int]);
                    }
                }
                if i + 1 < free.len() {
                    assert(leads_on(d0, free, i as int));
                }
            }
            let next = self.descriptors[idx as usize].next;
            self.descriptors.set(
                idx as usize,
                Descriptor {
                    addr: seg.pa,
                    len: seg.len,
                    device_writes: seg.direction == Direction::DeviceWritable,
                    more: !last,
                    next: if last {
                        0
                    } else {
                        next
                    },
                },
            );
            written.push(idx);
            proof {
                assert(chain.take(i + 1) =~= chain.take(i as int).push(idx));
                assert(i + 1 < n ==> chain[i + 1] == free[i + 1]);
                assert forall|k: int| 0 <= k < i + 1 implies self.descriptors@[
                    #[trigger] chain[k] as int] == descriptor_for(segments@, chain, k) by {
                    if k < i {
                        assert(chain[k] == free[k]);
                        assert(free[k] != free[i as int]);
                    }
                }
                assert forall|x: u16|
                    x < size && !chain.take(i + 1).contains(x) implies #[trigger]
                self.descriptors@[x as int] == d0[x as int] by {
                    if chain.take(i as int).contains(x) {
                        let k = choose|k: int| 0 <= k < i && chain.take(i as int)[k] == x;
                        assert(chain.take(i + 1)[k] == x);
                    }
                    assert(chain.take(i + 1)[i as int] == idx);
                }
            }
            idx = next;
            i += 1;
        }
        self.free_head = idx;
        self.num_free = self.num_free - n as u16;
        self.heads.set(head as usize, true);
        let ring_slot = self.avail_idx % size;
        self.avail_idx = self.avail_idx.wrapping_add(1);
        self.free = Ghost(rest);
        self.requests = Ghost(old_requests.insert(head, chain));
        proof {
            assert(written@ =~= chain);
            assert(chain[0] == free[0]);
            assert(chain.take(n as int) =~= chain);
            assert(chain.contains(head));
            assert(!old_requests.dom().contains(head)) by {
                if old_requests.dom().contains(head) {
                    assert(old_requests[head].contains(old_requests[head][0]));
                    assert(free.contains(free[0]));
                }
            }
            self.lemma_after_submit(*old(self), chain, rest);
        }
        Some(Submission { head, written, ring_slot, avail_idx: self.avail_idx })
    }

    proof fn lemma_after_submit(&self, before: Virtqueue, chain: Seq<u16>, rest: Seq<u16>)
        requires
            before.valid(),
            0 < chain.len() <= before.free@.len(),
            chain == before.free@.take(chain.len() as int),
            rest == before.free@.skip(chain.len() as int),
            self.layout == before.layout,
            self.descriptors@.len() == before.descriptors@.len(),
            self.free@ == rest,
            self.num_free == rest.len(),
            rest.len() > 0 ==> self.free_head == rest[0],
            self.requests@ == before.requests@.insert(chain[0], chain),
            !before.requests@.dom().contains(chain[0]),
            self.heads@ == before.heads@.update(chain[0] as int, true),
            forall|k: int| 0 <= k < chain.len() ==> #[trigger] marks_end(self.descriptors@, chain, k),
            is_linked(self.descriptors@, chain),
            forall|x: u16|
                x < before.descriptors@.len() && !chain.contains(x) ==> #[trigger]
                    self.descriptors@[x as int] == before.descriptors@[x as int],
        ensures
            self.valid(),
    {
        let n = self.layout.queue_size as nat;
        let free = before.free@;
        let d = self.descriptors@;
        let d0 = before.descriptors@;
        assert forall|i: int| 0 <= i < rest.len() implies #[trigger] rest[i] < n by {
            assert(rest[i] == free[i + chain.len()]);
        }
        assert forall|x: u16| chain.contains(x) implies free.contains(x) by {
            let k = choose|k: int| 0 <= k < chain.len() && chain[k] == x;
            assert(free[k] == x);
        }
        assert forall|x: u16| rest.contains(x) implies free.contains(x) by {
            let k = choose|k: int| 0 <= k < rest.len() && rest[k] == x;
            assert(free[k + chain.len()] == x);
        }
        assert forall|x: u16| !(#[trigger] chain.contains(x) && rest.contains(x)) by {
            if chain.contains(x) && rest.contains(x) {
                let k = choose|k: int| 0 <= k < chain.len() && chain[k] == x;
                let j = choose|j: int| 0 <= j < rest.len() && rest[j] == x;
                assert(free[k] == free[j + chain.len()]);
            }
        }
        assert forall|i: int| 0 <= i < chain.len() implies #[trigger] chain[i] < n by {
            assert(chain[i] == free[i]);
        }
        assert forall|i: int| 0 <= i && i + 1 < rest.len() implies #[trigger] leads_on(
            d,
            rest,
            i,
        ) by {
            assert(leads_on(d0, free, i + chain.len()));
            assert(rest.contains(rest[i]));
            assert(!chain.contains(rest[i]));
        }
        assert forall|h: u16| #[trigger] self.requests@.dom().contains(h) implies {
            &&& is_list(self.requests@[h], n)
            &&& is_request(d, self.requests@[h])
            &&& self.requests@[h][0] == h
            &&& apart(self.requests@[h], rest)
        } by {
            if h != chain[0] {
                let l = before.requests@[h];
                assert(before.requests@.dom().contains(h));
                assert(apart(l, free));
                assert forall|i: int| 0 <= i < l.len() implies d[#[trigger] l[i] as int]
                    == d0[l[i] as int] by {
                    assert(l.contains(l[i]));
                    assert(!chain.contains(l[i]));
                }
                assert forall|i: int| 0 <= i && i + 1 < l.len() implies #[trigger] leads_on(
                    d,
                    l,
                    i,
                ) by {
                    assert(leads_on(d0, l, i));
                    assert(d[l[i] as int] == d0[l[i] as int]);
                }
                assert forall|i: int| 0 <= i < l.len() implies #[trigger] marks_end(d, l, i) by {
                    assert(marks_end(d0, l, i));
                    assert(d[l[i] as int] == d0[l[i] as int]);
                }
            }
        }
        assert forall|g: u16, h: u16|
            #![trigger self.requests@.dom().contains(g), self.requests@.dom().contains(h)]
            self.requests@.dom().contains(g) && self.requests@.dom().contains(h) && g
                != h implies apart(self.requests@[g], self.requests@[h]) by {
            if g == chain[0] {
                assert(before.requests@.dom().contains(h));
                assert(apart(before.requests@[h], free));
            } else if h == chain[0] {
                assert(before.requests@.dom().contains(g));
                assert(apart(before.requests@[g], free));
            } else {
                assert(before.requests@.dom().contains(g) && before.requests@.dom().contains(h));
            }
        }
        assert forall|h: u16| h < n implies (#[trigger] self.heads@[h as int]
            <==> self.requests@.dom().contains(h)) by {
            assert(before.heads@[h as int] <==> before.requests@.dom().contains(h));
        }
        assert forall|x: u16| x < n implies #[trigger] rest.contains(x) || exists|h: u16| #[trigger]
            self.requests@.dom().contains(h) && self.requests@[h].contains(x) by {
            if free.contains(x) {
                let k = choose|k: int| 0 <= k < free.len() && free[k] == x;
                if k < chain.len() {
                    assert(chain[k] == x);
                    assert(self.requests@.dom().contains(chain[0]));
                } else {
                    assert(rest[k - chain.len()] == x);
                }
            } else {
                let h = choose|h: u16| #[trigger]
                    before.requests@.dom().contains(h) && before.requests@[h].contains(x);
                assert(self.requests@.dom().contains(h));
            }
        }
    }

    /// Whether a descriptor starts a request that the device has.
    pub fn is_in_flight(&self, head: u16) -> (r: bool)
        requires
            self.valid(),
        ensures
            r == self.in_flight().dom().contains(head),
    {
        proof {
            if self.requests@.dom().contains(head) {
                assert(self.requests@[head][0] < self.layout.queue_size);
            }
        }
        head < self.layout.queue_size && self.heads[head as usize]
    }

    /// Looks for a completion: given the index of the ring of used requests, the entry of
    /// that ring to read next, if there is one. A queue without descriptors has no ring.
    pub fn poll_used(&mut self, used_idx: u16) -> (r: Option<u16>)
        requires
            old(self).valid(),
            used_idx != old(self).seen() ==> old(self).shape().queue_size > 0,
        ensures
            final(self).valid(),
            final(self).shape() == old(self).shape(),
            final(self).memory() == old(self).memory(),
            final(self).table() == old(self).table(),
            final(self).free_list() == old(self).free_list(),
            final(self).in_flight() == old(self).in_flight(),
            final(self).handed() == old(self).handed(),
            if used_idx == old(self).seen() {
                r is None && final(self).seen() == old(self).seen()
            } else {
                r == Some((old(self).seen() % old(self).shape().queue_size) as u16) && final(self).seen() == next_index(old(self).seen())
            },
    {
        if used_idx == self.last_used_idx {
            return None;
        }
        let slot = self.last_used_idx % self.layout.queue_size;
        self.last_used_idx = self.last_used_idx.wrapping_add(1);
        proof {
            assert forall|x: u16| x < self.layout.queue_size implies #[trigger]
            self.free@.contains(x) || exists|h: u16| #[trigger]
                self.requests@.dom().contains(h) && self.requests@[h].contains(x) by {
                old(self).lemma_none_lost(x);
                if !self.free@.contains(x) {
                    let h = choose|h: u16| #[trigger]
                        old(self).in_flight().dom().contains(h) && old(self).in_flight()[h].contains(x);
                    assert(self.requests@.dom().contains(h));
                }
            }
        }
        Some(slot)
    }

    /// Takes a request's descriptors back. They are the next to be handed out.
    pub fn free_chain(&mut self, head: u16)
        requires
            old(self).valid(),
            old(self).in_flight().dom().contains(head),
        ensures
            final(self).valid(),
            gave_back(*old(self), *final(self), head),
    {
        let size = self.layout.queue_size;
        let ghost chain = self.requests@[head];
        let ghost free = self.free@;
        let ghost d0 = self.descriptors@;
        proof {
            lemma_joined(chain, free, size as nat);
            assert(chain[0] == head);
        }
        let mut idx: u16 = head;
        let mut count: u16 = 1;
        assert(chain[0] < size);
        assert(marks_end(d0, chain, 0));
        while self.descriptors[idx as usize].more
            invariant
                self.descriptors@ == d0,
                d0.len() == size,
                1 <= count <= chain.len(),
                chain.len() + free.len() <= size,
                is_list(chain, size as nat),
                is_request(d0, chain),
                idx == chain[count - 1],
                idx < size,
                marks_end(d0, chain, count - 1),
                *self == *old(self),
            decreases chain.len() - count,
        {
            assert(leads_on(d0, chain, count - 1));
            idx = self.descriptors[idx as usize].next;
            count += 1;
            assert(chain[count - 1] < size);
            assert(marks_end(d0, chain, count - 1));
        }
        assert(marks_end(d0, chain, count - 1));
        assert(count == chain.len());
        let more = self.num_free > 0;
        let next = self.free_head;
        self.descriptors.set(
            idx as usize,
            Descriptor { addr: 0, len: 0, device_writes: false, more, next },
        );
        self.free_head = head;
        self.num_free = self.num_free + count;
        self.heads.set(head as usize, false);
        self.free = Ghost(chain + free);
        self.requests = Ghost(self.requests@.remove(head));
        proof {
            self.lemma_after_free(*old(self), head);
        }
    }

    proof fn lemma_after_free(&self, before: Virtqueue, head: u16)
        requires
            before.valid(),
            before.requests@.dom().contains(head),
            self.layout == before.layout,
            self.free@ == before.requests@[head] + before.free@,
            self.num_free == self.free@.len(),
            self.free_head == head,
            self.requests@ == before.requests@.remove(head),
            self.heads@ == before.heads@.update(head as int, false),
            self.descriptors@ == before.descriptors@.update(
                before.requests@[head].last() as int,
                self.descriptors@[before.requests@[head].last() as int],
            ),
            before.free@.len() > 0 ==> self.descriptors@[before.requests@[head].last() as int].next
                == before.free@[0],
        ensures
            self.valid(),
    {
        let n = self.layout.queue_size as nat;
        let chain = before.requests@[head];
        let free = before.free@;
        let d = self.descriptors@;
        let d0 = before.descriptors@;
        let last = chain.last();
        let all = chain + free;
        lemma_joined(chain, free, n);
        assert(chain.contains(last));
        assert(chain[chain.len() - 1] < n);
        assert forall|i: int| 0 <= i && i + 1 < all.len() implies #[trigger] leads_on(d, all, i) by {
            if i + 1 < chain.len() {
                assert(leads_on(d0, chain, i));
                assert(all[i] == chain[i] && all[i + 1] == chain[i + 1]);
                assert(chain[i] != last);
                assert(chain[i] < n);
            } else if i + 1 == chain.len() {
                assert(all[i] == last && all[i + 1] == free[0]);
            } else {
                assert(leads_on(d0, free, i - chain.len()));
                assert(all[i] == free[i - chain.len()] && all[i + 1] == free[i + 1
                    - chain.len()]);
                assert(free.contains(free[i - chain.len()]));
                assert(!chain.contains(free[i - chain.len()]));
                assert(free[i - chain.len()] < n);
            }
        }
        assert forall|x: u16| all.contains(x) implies chain.contains(x) || free.contains(x) by {
            let k = choose|k: int| 0 <= k < all.len() && all[k] == x;
            if k < chain.len() {
                assert(chain[k] == x);
            } else {
                assert(free[k - chain.len()] == x);
            }
        }
        assert forall|h: u16| #[trigger] self.requests@.dom().contains(h) implies {
            &&& is_list(self.requests@[h], n)
            &&& is_request(d, self.requests@[h])
            &&& self.requests@[h][0] == h
            &&& apart(self.requests@[h], all)
        } by {
            let l = before.requests@[h];
            assert(before.requests@.dom().contains(h));
            assert(apart(l, chain));
            assert(apart(l, free));
            assert forall|i: int| 0 <= i < l.len() implies d[#[trigger] l[i] as int]
                == d0[l[i] as int] by {
                assert(l.contains(l[i]));
                assert(!chain.contains(l[i]));
                assert(l[i] < n);
            }
            assert forall|i: int| 0 <= i && i + 1 < l.len() implies #[trigger] leads_on(
                d,
                l,
                i,
            ) by {
                assert(leads_on(d0, l, i));
                assert(d[l[i] as int] == d0[l[i] as int]);
            }
            assert forall|i: int| 0 <= i < l.len() implies #[trigger] marks_end(d, l, i) by {
                assert(marks_end(d0, l, i));
                assert(d[l[i] as int] == d0[l[i] as int]);
            }
        }
        assert forall|g: u16, h: u16|
            #![trigger self.requests@.dom().contains(g), self.requests@.dom().contains(h)]
            self.requests@.dom().contains(g) && self.requests@.dom().contains(h) && g
                != h implies apart(self.requests@[g], self.requests@[h]) by {
            assert(before.requests@.dom().contains(g) && before.requests@.dom().contains(h));
        }
        assert forall|h: u16| h < n implies (#[trigger] self.heads@[h as int]
            <==> self.requests@.dom().contains(h)) by {
            assert(before.heads@[h as int] <==> before.requests@.dom().contains(h));
        }
        assert forall|x: u16| x < n implies #[trigger] all.contains(x) || exists|h: u16| #[trigger]
            self.requests@.dom().contains(h) && self.requests@[h].contains(x) by {
            if free.contains(x) {
                let k = choose|k: int| 0 <= k < free.len() && free[k] == x;
                assert(all[k + chain.len()] == x);
            } else {
                let h = choose|h: u16| #[trigger]
                    before.requests@.dom().contains(h) && before.requests@[h].contains(x);
                if h == head {
                    let k = choose|k: int| 0 <= k < chain.len() && chain[k] == x;
                    assert(all[k] == x);
                } else {
                    assert(self.requests@.dom().contains(h));
                }
            }
        }
    }

    /// The descriptors of two requests that the device has are different, and none of
    /// them is free.
    pub proof fn lemma_requests_apart(&self, g: u16, h: u16)
        requires
            self.valid(),
            self.in_flight().dom().contains(g),
            self.in_flight().dom().contains(h),
            g != h,
        ensures
            apart(self.in_flight()[g], self.in_flight()[h]),
            apart(self.in_flight()[g], self.free_list()),
    {
    }

    /// A free descriptor starts no request that the device has.
    pub proof fn lemma_free_starts_none(&self, i: int)
        requires
            self.valid(),
            0 <= i < self.free_list().len(),
        ensures
            !self.in_flight().dom().contains(self.free_list()[i]),
    {
        let x = self.free@[i];
        if self.requests@.dom().contains(x) {
            assert(self.requests@[x][0] == x);
            assert(self.requests@[x].contains(x));
            assert(self.free@.contains(x));
        }
    }

    /// No descriptor is lost: each is free or part of a request that the device has.
    pub proof fn lemma_none_lost(&self, x: u16)
        requires
            self.valid(),
            x < self.shape().queue_size,
        ensures
            self.free_list().contains(x) || exists|h: u16| #[trigger]
                self.in_flight().dom().contains(h) && self.in_flight()[h].contains(x),
    {
        if !self.free@.contains(x) {
            let h = choose|h: u16| #[trigger]
                self.requests@.dom().contains(h) && self.requests@[h].contains(x);
            assert(self.in_flight().dom().contains(h));
        }
    }
}

/// Taking back a request that was just handed over restores the list of free descriptors.
pub proof fn lemma_submit_then_free(free: Seq<u16>, n: int)
    requires
        0 <= n <= free.len(),
    ensures
        free.take(n) + free.skip(n) == free,
{
    assert(free.take(n) + free.skip(n) =~= free);
}

/// A completion as the ring of used requests holds it: the first descriptor, which is the
/// low half of the entry's number, and the bytes that the device wrote.
pub fn completion(id: u32, len: u32) -> (r: (u16, u32))
    ensures
        r == (id as u16, len),
{
    (id as u16, len)
}

// ---------------------------------------------------------------------------
// Waiting for the device
// ---------------------------------------------------------------------------

/// What a wait for the device does next.
#[derive(Clone, Copy, Debug, PartialEq, Eq, Structural)]
pub enum WaitStep {
    /// Poll the ring of used requests.
    Poll,
    /// Wait for the interrupt.
    Wait(Request),
    /// Acknowledge what the device has pending.
    Acknowledge,
    /// A request was completed: its first descriptor, and the bytes that the device wrote.
    Completed(u16, u32),
    Failed(VirtqueueError),
}

/// What came of it.
#[derive(Clone, Copy, Debug)]
pub enum WaitEvent {
    Polled(Option<(u16, u32)>),
    Woken(Reply),
    Acknowledged,
}

/// What the wait waits for.
#[derive(Clone, Copy, Debug, PartialEq, Eq, Structural)]
pub enum WaitStage {
    Polling,
    Waiting,
    Acknowledging,
}

/// Waits for the device, one after the other: the interrupt, and the count that the next wait
/// for it is for.
#[derive(Clone, Copy, Debug, PartialEq, Eq, Structural)]
pub struct CompletionWait {
    pub irq: NotificationHandle,
    pub threshold: u64,
    pub stage: WaitStage,
}

/// Whether an event is one that the wait waits for; interrupts can still be counted.
pub open spec fn wait_awaits(w: CompletionWait, event: WaitEvent) -> bool {
    match w.stage {
        WaitStage::Polling => event is Polled,
        WaitStage::Waiting => event is Woken && w.threshold < u64::MAX,
        WaitStage::Acknowledging => event is Acknowledged,
    }
}

/// What the wait does once an event has come: where the ring holds no completion, it waits
/// for the interrupt, acknowledges it, and polls again.
pub open spec fn wait_next(w: CompletionWait, event: WaitEvent) -> (CompletionWait, WaitStep) {
    match (w.stage, event) {
        (WaitStage::Polling, WaitEvent::Polled(Some(c))) => (w, WaitStep::Completed(c.0, c.1)),
        (WaitStage::Polling, _) => (
            CompletionWait { stage: WaitStage::Waiting, ..w },
            WaitStep::Wait(
                Request::WaitNotification { notification: w.irq.0, threshold: w.threshold },
            ),
        ),
        (WaitStage::Waiting, WaitEvent::Woken(Ok(_))) => (
            CompletionWait {
                stage: WaitStage::Acknowledging,
                threshold: (w.threshold + 1) as u64,
                ..w
            },
            WaitStep::Acknowledge,
        ),
        (WaitStage::Waiting, _) => (
            CompletionWait { stage: WaitStage::Polling, ..w },
            WaitStep::Failed(VirtqueueError::IrqWaitFailed),
        ),
        (WaitStage::Acknowledging, _) => (
            CompletionWait { stage: WaitStage::Polling, ..w },
            WaitStep::Poll,
        ),
    }
}

impl CompletionWait {
    /// The first wait is for the given count. The ring is polled first.
    pub fn new(irq: NotificationHandle, threshold: u64) -> (r: Self)
        ensures
            r == (CompletionWait { irq, threshold, stage: WaitStage::Polling }),
    {
        CompletionWait { irq, threshold, stage: WaitStage::Polling }
    }

    /// What the wait does once an event has come.
    pub fn wait_for_completion(&mut self, event: WaitEvent) -> (r: WaitStep)
        requires
            wait_awaits(*old(self), event),
        ensures
            (*final(self), r) == wait_next(*old(self), event),
    {
        match (self.stage, event) {
            (WaitStage::Polling, WaitEvent::Polled(Some(c))) => WaitStep::Completed(c.0, c.1),
            (WaitStage::Polling, _) => {
                self.stage = WaitStage::Waiting;
                WaitStep::Wait(
                    Request::WaitNotification {
                        notification: self.irq.0,
                        threshold: self.threshold,
                    },
                )
            },
            (WaitStage::Waiting, WaitEvent::Woken(Ok(_))) => {
                self.threshold = self.threshold + 1;
                self.stage = WaitStage::Acknowledging;
                WaitStep::Acknowledge
            },
            (WaitStage::Waiting, _) => {
                self.stage = WaitStage::Polling;
                WaitStep::Failed(VirtqueueError::IrqWaitFailed)
            },
            (WaitStage::Acknowledging, _) => {
                self.stage = WaitStage::Polling;
                WaitStep::Poll
            },
        }
    }
}

/// No interrupt is missed: the wait sleeps only after a poll that found nothing, and an
/// interrupt that came is acknowledged before the ring is polled again.
pub proof fn lemma_polls_around_sleep(w: CompletionWait, event: WaitEvent)
    requires
        wait_awaits(w, event),
    ensures
        wait_next(w, event).1 is Wait ==> event == WaitEvent::Polled(None),
        wait_next(w, event).1 is Acknowledge ==> ({
            let after = wait_next(w, event).0;
            after.threshold == w.threshold + 1 && wait_next(after, WaitEvent::Acknowledged).1
                == WaitStep::Poll
        }),
        event is Woken && wait_next(w, event).1 !is Failed ==> wait_next(w, event).1
            is Acknowledge,
{
}

/// The descriptor that is reached from `head` after `i` links.
pub open spec fn linked_from(d: Seq<Descriptor>, head: u16, i: nat) -> u16
    decreases i,
{
    if i == 0 {
        head
    } else {
        d[linked_from(d, head, (i - 1) as nat) as int].next
    }
}

proof fn lemma_linked_chain(
    before: Virtqueue,
    after: Virtqueue,
    segments: Seq<Segment>,
    s: Submission,
    i: nat,
)
    requires
        took(before, after, segments, s),
        i < segments.len(),
    ensures
        linked_from(after.table(), s.head, i) == s.written@[i as int],
    decreases i,
{
    if i > 0 {
        let m = (i - 1) as nat;
        lemma_linked_chain(before, after, segments, s, m);
        let chain = before.free_list().take(segments.len() as int);
        assert(after.table()[chain[m as int] as int] == descriptor_for(segments, chain, m as int));
    }
}

/// What the device reads when it follows a request from its first descriptor: segment `i` stands
/// `i` links on, with its own address and length, it may be written if and only if it was handed
/// over for that, and the last one says that none follows. The request is written to the entry
/// of the ring that its index stands for, and the index goes up by one, from the largest to
/// zero.
pub proof fn lemma_device_reads(
    before: Virtqueue,
    after: Virtqueue,
    segments: Seq<Segment>,
    s: Submission,
    i: nat,
)
    requires
        took(before, after, segments, s),
        i < segments.len(),
        before.shape().queue_size > 0,
    ensures
        ({
            let d = after.table()[linked_from(after.table(), s.head, i) as int];
            &&& d.addr == segments[i as int].pa
            &&& d.len == segments[i as int].len
            &&& d.device_writes <==> segments[i as int].direction is DeviceWritable
            &&& d.more <==> i + 1 < segments.len()
        }),
        s.written@.len() == segments.len(),
        s.ring_slot as int == before.handed() as int % before.shape().queue_size as int,
        s.avail_idx as int == (before.handed() + 1) % 0x1_0000,
        after.handed() == s.avail_idx,
        after.free_list().len() + segments.len() == before.free_list().len(),
{
    lemma_linked_chain(before, after, segments, s, i);
    let chain = before.free_list().take(segments.len() as int);
    assert(after.table()[chain[i as int] as int] == descriptor_for(segments, chain, i as int));
}

/// What a wait does, step by step: it gives back what a poll found, it waits for its own
/// interrupt where a poll found nothing, and a failed wait ends it.
pub proof fn lemma_wait_steps(irq: NotificationHandle, threshold: u64, c: (u16, u32), r: u64)
    requires
        threshold < u64::MAX,
    ensures
        wait_next(
            CompletionWait { irq, threshold, stage: WaitStage::Polling },
            WaitEvent::Polled(Some(c)),
        ).1 == WaitStep::Completed(c.0, c.1),
        wait_next(
            CompletionWait { irq, threshold, stage: WaitStage::Polling },
            WaitEvent::Polled(None),
        ) == (
            CompletionWait { irq, threshold, stage: WaitStage::Waiting },
            WaitStep::Wait(Request::WaitNotification { notification: irq.0, threshold }),
        ),
        wait_next(
            CompletionWait { irq, threshold, stage: WaitStage::Waiting },
            WaitEvent::Woken(Ok(r)),
        ) == (
            CompletionWait {
                irq,
                threshold: (threshold + 1) as u64,
                stage: WaitStage::Acknowledging,
            },
            WaitStep::Acknowledge,
        ),
        forall|e: crate::syscall::SyscallError|
            (#[trigger] wait_next(
                CompletionWait { irq, threshold, stage: WaitStage::Waiting },
                WaitEvent::Woken(Err(e)),
            )).1 == WaitStep::Failed(VirtqueueError::IrqWaitFailed),
{
}

} // verus!
