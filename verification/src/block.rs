//! The block device server: buffers that belong to the client that asked for them, and
//! transfers to and from them.

use crate::display::next_number;
use crate::handle::{EndpointHandle, PageSetHandle, ReplyHandle};
use crate::slots::{first_free, no_slots, Slots};
use crate::syscall::{MapAttribute, Message, Request, Words};
use vstd::prelude::*;

verus! {

/// The number of buffers that the server keeps.
pub const MAX_BUFFERS: usize = 8;

/// Why a block request failed.
#[derive(Clone, Copy, Debug, PartialEq, Eq, Structural)]
pub enum BlockError {
    IoError,
    Unsupported,
    InvalidParameter,
    AllocFailed,
    InvalidBuffer,
    IpcFailed,
}

/// The numbers of the protocol: the commands, and the states that answers start with.
#[derive(Clone, Copy, Debug, PartialEq, Eq, Structural)]
pub struct BlockCodes {
    pub get_info: u64,
    pub alloc_buffer: u64,
    pub read: u64,
    pub write: u64,
    pub free_buffer: u64,
    pub ok: u64,
    pub err_io: u64,
    pub err_unsupported: u64,
    pub err_invalid: u64,
    pub err_alloc: u64,
}

/// A device, as the server reports it.
#[derive(Clone, Copy, Debug, PartialEq, Eq, Structural)]
pub struct BlockGeometry {
    pub capacity_sectors: u64,
    pub sector_size: u64,
    /// The number of the attribute that buffers are mapped with.
    pub buffer_attribute: u64,
}

/// A device, as a client sees it.
#[derive(Clone, Copy, Debug, PartialEq, Eq, Structural)]
pub struct BlockInfo {
    pub capacity_sectors: u64,
    pub sector_size: u64,
    pub buffer_attribute: MapAttribute,
}

// ---------------------------------------------------------------------------
// Buffers
// ---------------------------------------------------------------------------

/// A buffer: its number, the client that it belongs to, and its page set.
#[derive(Clone, Copy, Debug, PartialEq, Eq, Structural)]
pub struct BlockSlot {
    pub buffer_id: u32,
    pub caller_token: u64,
    pub engine_handle: PageSetHandle,
}

/// Whether a slot holds the client's buffer of the given number.
pub open spec fn is_owned(slot: Option<BlockSlot>, id: u32, caller: u64) -> bool {
    slot is Some && (slot->0).buffer_id == id && (slot->0).caller_token == caller
}

/// The first slot from `i` on that holds the client's buffer of the given number, or the
/// number of slots.
pub open spec fn owned_from(s: Seq<Option<BlockSlot>>, id: u32, caller: u64, i: int) -> int
    decreases s.len() - i,
{
    if i < 0 || i >= s.len() {
        s.len() as int
    } else if is_owned(s[i], id, caller) {
        i
    } else {
        owned_from(s, id, caller, i + 1)
    }
}

/// The page set of the client's buffer of the given number.
pub open spec fn page_set_of(s: Seq<Option<BlockSlot>>, id: u32, caller: u64) -> Option<
    PageSetHandle,
> {
    let i = owned_from(s, id, caller, 0);
    if i < s.len() {
        Some((s[i]->0).engine_handle)
    } else {
        None
    }
}

/// Whether a slot holds a buffer of the given number, whichever client's it is.
pub open spec fn has_number(slot: Option<BlockSlot>, id: u32) -> bool {
    slot is Some && (slot->0).buffer_id == id
}

/// Whether one of the buffers has the given number.
pub open spec fn is_live(s: Seq<Option<BlockSlot>>, id: u32) -> bool {
    exists|i: int| 0 <= i < s.len() && has_number(#[trigger] s[i], id)
}

/// The first of the number `id` and the `more` that follow it that no buffer has; the last
/// of them where there is none.
pub open spec fn fresh_from(s: Seq<Option<BlockSlot>>, id: u32, more: nat) -> u32
    decreases more,
{
    if more == 0 || !is_live(s, id) {
        id
    } else {
        fresh_from(s, next_number(id), (more - 1) as nat)
    }
}

/// The first number from `id` on that no buffer has.
pub open spec fn fresh_number(s: Seq<Option<BlockSlot>>, id: u32) -> u32 {
    fresh_from(s, id, s.len())
}

/// The buffers with one more, in the first free slot.
pub open spec fn with_buffer(s: Seq<Option<BlockSlot>>, slot: BlockSlot) -> Seq<
    Option<BlockSlot>,
> {
    s.update(first_free(s), Some(slot))
}

/// Whether the buffers `t` are the buffers `s` with one more, whose number `id` none of them
/// had: it leads its client to the buffer and leads no other client anywhere, and what every
/// other number leads a client to is as it was.
pub open spec fn tracked_apart(
    s: Seq<Option<BlockSlot>>,
    t: Seq<Option<BlockSlot>>,
    id: u32,
    caller: u64,
    pageset: PageSetHandle,
) -> bool {
    &&& forall|i: int| 0 <= i < s.len() ==> !has_number(#[trigger] s[i], id)
    &&& page_set_of(t, id, caller) == Some(pageset)
    &&& forall|other: u64| other != caller ==> (#[trigger] page_set_of(t, id, other)) is None
    &&& forall|i: u32, c: u64|
        i != id ==> #[trigger] page_set_of(t, i, c) == page_set_of(s, i, c)
}

/// The number that comes `k` after `id`.
spec fn number_after(id: u32, k: int) -> u32 {
    ((id + k) % 0x1_0000_0000) as u32
}

proof fn lemma_fresh_from(s: Seq<Option<BlockSlot>>, id: u32, more: nat)
    requires
        more < 0x1_0000_0000,
    ensures
        is_live(s, fresh_from(s, id, more)) ==> forall|k: int|
            0 <= k <= more ==> is_live(s, #[trigger] number_after(id, k)),
    decreases more,
{
    if is_live(s, fresh_from(s, id, more)) {
        if more > 0 {
            lemma_fresh_from(s, next_number(id), (more - 1) as nat);
        }
        assert forall|k: int| 0 <= k <= more implies is_live(
            s,
            #[trigger] number_after(id, k),
        ) by {
            if k > 0 {
                assert(number_after(next_number(id), k - 1) == number_after(id, k));
            } else {
                assert(number_after(id, 0) == id);
            }
        }
    }
}

/// The number that a new buffer gets is one that no buffer has: there are more numbers than
/// slots.
pub proof fn lemma_fresh_number(s: Seq<Option<BlockSlot>>, id: u32)
    requires
        s.len() < 0x1_0000_0000,
    ensures
        !is_live(s, fresh_number(s, id)),
{
    lemma_fresh_from(s, id, s.len());
    if is_live(s, fresh_number(s, id)) {
        let numbers = Seq::new(s.len() + 1, |k: int| Some(number_after(id, k)));
        let kept = s.map_values(
            |x: Option<BlockSlot>|
                match x {
                    Some(slot) => Some(slot.buffer_id),
                    None => None,
                },
        );
        assert(numbers.no_duplicates());
        numbers.unique_seq_to_set();
        kept.lemma_cardinality_of_set();
        assert forall|x: Option<u32>| numbers.to_set().contains(x) implies kept.to_set().contains(
            x,
        ) by {
            let k = choose|k: int| 0 <= k < numbers.len() && numbers[k] == x;
            assert(is_live(s, number_after(id, k)));
            let i = choose|i: int|
                0 <= i < s.len() && has_number(#[trigger] s[i], number_after(id, k));
            assert(kept[i] == x);
        }
        vstd::set_lib::lemma_len_subset(numbers.to_set(), kept.to_set());
    }
}

/// The buffers of all clients.
pub struct BufferTracker {
    slots: Slots<BlockSlot>,
    next_id: u32,
}

proof fn lemma_owned(s: Seq<Option<BlockSlot>>, id: u32, caller: u64, i: int)
    requires
        0 <= i <= s.len(),
    ensures
        i <= owned_from(s, id, caller, i) <= s.len(),
        owned_from(s, id, caller, i) < s.len() ==> is_owned(
            s[owned_from(s, id, caller, i)],
            id,
            caller,
        ),
        forall|k: int| i <= k < owned_from(s, id, caller, i) ==> !is_owned(
            #[trigger] s[k],
            id,
            caller,
        ),
    decreases s.len() - i,
{
    if i < s.len() && !is_owned(s[i], id, caller) {
        lemma_owned(s, id, caller, i + 1);
    }
}

impl BufferTracker {
    pub closed spec fn view(&self) -> Seq<Option<BlockSlot>> {
        self.slots@
    }

    /// The number that the next buffer gets.
    pub closed spec fn next(&self) -> u32 {
        self.next_id
    }

    /// There are always all the slots.
    #[verifier::type_invariant]
    spec fn has_all_slots(self) -> bool {
        self.slots@.len() == MAX_BUFFERS
    }

    pub fn new() -> (r: Self)
        ensures
            r@ == no_slots::<BlockSlot>(MAX_BUFFERS as nat),
            r.next() == 1,
    {
        BufferTracker { slots: Slots::new(MAX_BUFFERS), next_id: 1 }
    }

    fn has(&self, id: u32) -> (r: bool)
        ensures
            r == is_live(self@, id),
    {
        let mut i: usize = 0;
        while i < self.slots.len()
            invariant
                i <= self@.len(),
                forall|k: int| 0 <= k < i ==> !has_number(#[trigger] self@[k], id),
            decreases self@.len() - i,
        {
            if let Some(s) = self.slots.get(i) {
                if s.buffer_id == id {
                    assert(has_number(self@[i as int], id));
                    return true;
                }
            }
            i += 1;
        }
        false
    }

    /// Keeps a client's buffer in the first free slot, and gives it a number that no other
    /// buffer has. The number leads this client to the buffer and leads no other client
    /// anywhere; what every other number leads a client to is as it was.
    pub fn track(&mut self, caller_token: u64, engine_handle: PageSetHandle) -> (r: Option<u32>)
        ensures
            old(self)@.len() == MAX_BUFFERS,
            match r {
                Some(id) => tracked_apart(old(self)@, final(self)@, id, caller_token, engine_handle),
                None => true,
            },
            ({
                let s = old(self)@;
                let i = first_free(s);
                if i < s.len() {
                    let id = fresh_number(s, old(self).next());
                    &&& r == Some(id)
                    &&& final(self).next() == next_number(id)
                    &&& final(self)@ == with_buffer(
                        s,
                        BlockSlot { buffer_id: id, caller_token, engine_handle },
                    )
                } else {
                    r is None && *final(self) == *old(self)
                }
            }),
    {
        proof {
            use_type_invariant(&*self);
            if first_free(self@) < self@.len() {
                lemma_track_then_translate(self@, self.next_id, caller_token, engine_handle);
            }
        }
        match self.slots.find_free() {
            Some(i) => {
                let total = self.slots.len();
                let mut id: u32 = self.next_id;
                let mut tried: usize = 0;
                while tried < total && self.has(id)
                    invariant
                        total == self@.len(),
                        total == MAX_BUFFERS,
                        tried <= total,
                        fresh_from(self@, id, (total - tried) as nat) == fresh_number(
                            self@,
                            self.next_id,
                        ),
                    decreases total - tried,
                {
                    id = id.wrapping_add(1);
                    tried += 1;
                }
                self.next_id = id.wrapping_add(1);
                self.slots.set(i, Some(BlockSlot { buffer_id: id, caller_token, engine_handle }));
                Some(id)
            },
            None => None,
        }
    }

    fn find(&self, buffer_id: u32, caller_token: u64) -> (r: Option<usize>)
        ensures
            match r {
                Some(i) => i == owned_from(self@, buffer_id, caller_token, 0) && i < self@.len(),
                None => owned_from(self@, buffer_id, caller_token, 0) == self@.len(),
            },
    {
        let mut i: usize = 0;
        while i < self.slots.len()
            invariant
                i <= self@.len(),
                owned_from(self@, buffer_id, caller_token, 0) == owned_from(
                    self@,
                    buffer_id,
                    caller_token,
                    i as int,
                ),
            decreases self@.len() - i,
        {
            if let Some(s) = self.slots.get(i) {
                if s.buffer_id == buffer_id && s.caller_token == caller_token {
                    return Some(i);
                }
            }
            i += 1;
        }
        None
    }

    /// The page set of a client's buffer.
    pub fn translate(&self, buffer_id: u32, caller_token: u64) -> (r: Option<PageSetHandle>)
        ensures
            r == page_set_of(self@, buffer_id, caller_token),
            self@.len() == MAX_BUFFERS,
    {
        proof {
            use_type_invariant(self);
            lemma_owned(self@, buffer_id, caller_token, 0);
        }
        match self.find(buffer_id, caller_token) {
            Some(i) => match self.slots.get(i) {
                Some(s) => Some(s.engine_handle),
                None => None,
            },
            None => None,
        }
    }

    /// Takes a client's buffer out. Returns its page set.
    pub fn remove(&mut self, buffer_id: u32, caller_token: u64) -> (r: Option<PageSetHandle>)
        ensures
            r == page_set_of(old(self)@, buffer_id, caller_token),
            old(self)@.len() == MAX_BUFFERS,
            final(self).next() == old(self).next(),
            final(self)@ == if r is Some {
                old(self)@.update(owned_from(old(self)@, buffer_id, caller_token, 0), None)
            } else {
                old(self)@
            },
    {
        proof {
            use_type_invariant(&*self);
            lemma_owned(self@, buffer_id, caller_token, 0);
        }
        match self.find(buffer_id, caller_token) {
            Some(i) => match self.slots.get(i) {
                Some(s) => {
                    self.slots.set(i, None);
                    Some(s.engine_handle)
                },
                None => None,
            },
            None => None,
        }
    }
}

// ---------------------------------------------------------------------------
// The server
// ---------------------------------------------------------------------------

/// The hardware behind the server. The server's loop makes these calls.
pub trait BlockEngine {
    fn info(&self) -> BlockGeometry;

    fn alloc_buffer(&mut self, sector_count: u64) -> Result<PageSetHandle, BlockError>;

    fn read(&mut self, sector: u64, count: u64, buffer: PageSetHandle) -> Result<(), BlockError>;

    fn write(&mut self, sector: u64, count: u64, buffer: PageSetHandle) -> Result<(), BlockError>;

    fn free_buffer(&mut self, buffer: PageSetHandle);
}

/// What the server's loop does next.
#[derive(Clone, Copy, Debug, PartialEq, Eq, Structural)]
pub enum BlockAction {
    /// Answer the client, and wait for the next message.
    Reply(Words),
    Info,
    Alloc(u64),
    Export(PageSetHandle),
    Read { sector: u64, count: u64, buffer: PageSetHandle },
    Write { sector: u64, count: u64, buffer: PageSetHandle },
    Free(PageSetHandle),
}

/// What came of it.
#[derive(Clone, Copy, Debug)]
pub enum BlockEvent {
    /// A client's message, and the client's token.
    Message(Words, u64),
    Info(BlockGeometry),
    Buffer(Result<PageSetHandle, BlockError>),
    /// The client's handle of an exported page set.
    Exported(Option<u64>),
    Done(Result<(), BlockError>),
    Freed,
}

/// What the server waits for.
#[derive(Clone, Copy, Debug, PartialEq, Eq, Structural)]
pub enum BlockStage {
    Idle,
    Asking,
    Allocating { caller: u64 },
    Exporting { caller: u64, id: u32, pageset: PageSetHandle },
    Transferring,
    /// A buffer is being freed; the client is answered the status.
    Freeing(u64),
}

/// The state of the server, as plain values.
pub struct BlockView {
    pub codes: BlockCodes,
    pub buffers: Seq<Option<BlockSlot>>,
    pub next_id: u32,
    pub stage: BlockStage,
}

/// Whether an event is one that the server waits for.
pub open spec fn awaits(stage: BlockStage, event: BlockEvent) -> bool {
    match stage {
        BlockStage::Idle => event is Message,
        BlockStage::Asking => event is Info,
        BlockStage::Allocating { .. } => event is Buffer,
        BlockStage::Exporting { .. } => event is Exported,
        BlockStage::Transferring => event is Done,
        BlockStage::Freeing(_) => event is Freed,
    }
}

/// The status that a transfer is answered with.
pub open spec fn transfer_status(codes: BlockCodes, r: Result<(), BlockError>) -> u64 {
    match r {
        Ok(_) => codes.ok,
        Err(BlockError::IoError) => codes.err_io,
        Err(BlockError::Unsupported) => codes.err_unsupported,
        Err(_) => codes.err_invalid,
    }
}

/// The server answers a client and is idle again.
pub open spec fn answered(v: BlockView, w: Words) -> (BlockView, BlockAction) {
    (BlockView { stage: BlockStage::Idle, ..v }, BlockAction::Reply(w))
}

/// The server answers a client with a status alone.
pub open spec fn answered_status(v: BlockView, status: u64) -> (BlockView, BlockAction) {
    answered(v, Words(status, 0, 0, 0))
}

/// The server makes a call and waits.
pub open spec fn waiting(v: BlockView, stage: BlockStage, a: BlockAction) -> (
    BlockView,
    BlockAction,
) {
    (BlockView { stage, ..v }, a)
}

/// What the server does with a client's message.
pub open spec fn on_message(v: BlockView, w: Words, caller: u64) -> (BlockView, BlockAction) {
    if w.0 == v.codes.get_info {
        waiting(v, BlockStage::Asking, BlockAction::Info)
    } else if w.0 == v.codes.alloc_buffer {
        waiting(v, BlockStage::Allocating { caller }, BlockAction::Alloc(w.1))
    } else if w.0 == v.codes.read {
        match page_set_of(v.buffers, w.3 as u32, caller) {
            Some(buffer) => waiting(
                v,
                BlockStage::Transferring,
                BlockAction::Read { sector: w.1, count: w.2, buffer },
            ),
            None => answered_status(v, v.codes.err_invalid),
        }
    } else if w.0 == v.codes.write {
        match page_set_of(v.buffers, w.3 as u32, caller) {
            Some(buffer) => waiting(
                v,
                BlockStage::Transferring,
                BlockAction::Write { sector: w.1, count: w.2, buffer },
            ),
            None => answered_status(v, v.codes.err_invalid),
        }
    } else if w.0 == v.codes.free_buffer {
        match page_set_of(v.buffers, w.1 as u32, caller) {
            Some(buffer) => waiting(
                BlockView {
                    buffers: v.buffers.update(
                        owned_from(v.buffers, w.1 as u32, caller, 0),
                        None,
                    ),
                    ..v
                },
                BlockStage::Freeing(v.codes.ok),
                BlockAction::Free(buffer),
            ),
            None => answered_status(v, v.codes.err_invalid),
        }
    } else {
        answered_status(v, v.codes.err_unsupported)
    }
}

/// What the server does when `event` comes.
pub open spec fn block_next(v: BlockView, event: BlockEvent) -> (BlockView, BlockAction) {
    match (v.stage, event) {
        (BlockStage::Idle, BlockEvent::Message(w, caller)) => on_message(v, w, caller),
        (BlockStage::Asking, BlockEvent::Info(g)) => answered(
            v,
            Words(g.capacity_sectors, g.sector_size, g.buffer_attribute, 0),
        ),
        (BlockStage::Allocating { caller }, BlockEvent::Buffer(Ok(pageset))) => {
            let i = first_free(v.buffers);
            if i < v.buffers.len() {
                let id = fresh_number(v.buffers, v.next_id);
                waiting(
                    BlockView {
                        buffers: with_buffer(
                            v.buffers,
                            BlockSlot {
                                buffer_id: id,
                                caller_token: caller,
                                engine_handle: pageset,
                            },
                        ),
                        next_id: next_number(id),
                        ..v
                    },
                    BlockStage::Exporting { caller, id, pageset },
                    BlockAction::Export(pageset),
                )
            } else {
                waiting(
                    v,
                    BlockStage::Freeing(v.codes.err_alloc),
                    BlockAction::Free(pageset),
                )
            }
        },
        (BlockStage::Allocating { .. }, BlockEvent::Buffer(Err(_))) => answered_status(
            v,
            v.codes.err_alloc,
        ),
        (BlockStage::Exporting { id, .. }, BlockEvent::Exported(Some(index))) => answered(
            v,
            Words(v.codes.ok, index, id as u64, 0),
        ),
        (BlockStage::Exporting { caller, id, pageset }, BlockEvent::Exported(None)) => {
            let i = owned_from(v.buffers, id, caller, 0);
            waiting(
                BlockView {
                    buffers: if i < v.buffers.len() {
                        v.buffers.update(i, None)
                    } else {
                        v.buffers
                    },
                    ..v
                },
                BlockStage::Freeing(v.codes.err_alloc),
                BlockAction::Free(pageset),
            )
        },
        (BlockStage::Transferring, BlockEvent::Done(r)) => answered_status(
            v,
            transfer_status(v.codes, r),
        ),
        (BlockStage::Freeing(status), _) => answered_status(v, status),
        _ => answered_status(v, v.codes.err_unsupported),
    }
}

/// The block device server.
pub struct BlockServer {
    codes: BlockCodes,
    buffers: BufferTracker,
    stage: BlockStage,
}

impl BlockServer {
    pub closed spec fn view(&self) -> BlockView {
        BlockView {
            codes: self.codes,
            buffers: self.buffers@,
            next_id: self.buffers.next(),
            stage: self.stage,
        }
    }

    pub fn new(codes: BlockCodes) -> (r: Self)
        ensures
            r@ == (BlockView {
                codes,
                buffers: no_slots(MAX_BUFFERS as nat),
                next_id: 1,
                stage: BlockStage::Idle,
            }),
    {
        BlockServer { codes, buffers: BufferTracker::new(), stage: BlockStage::Idle }
    }

    fn answer(&mut self, w: Words) -> (a: BlockAction)
        ensures
            (final(self)@, a) == answered(old(self)@, w),
    {
        self.stage = BlockStage::Idle;
        BlockAction::Reply(w)
    }

    fn answer_status(&mut self, status: u64) -> (a: BlockAction)
        ensures
            (final(self)@, a) == answered_status(old(self)@, status),
    {
        self.answer(Words(status, 0, 0, 0))
    }

    fn wait(&mut self, stage: BlockStage, action: BlockAction) -> (a: BlockAction)
        ensures
            (final(self)@, a) == waiting(old(self)@, stage, action),
    {
        self.stage = stage;
        action
    }

    fn message(&mut self, w: Words, caller: u64) -> (a: BlockAction)
        ensures
            (final(self)@, a) == on_message(old(self)@, w, caller),
    {
        let codes = self.codes;
        if w.0 == codes.get_info {
            self.wait(BlockStage::Asking, BlockAction::Info)
        } else if w.0 == codes.alloc_buffer {
            self.wait(BlockStage::Allocating { caller }, BlockAction::Alloc(w.1))
        } else if w.0 == codes.read {
            match self.buffers.translate(w.3 as u32, caller) {
                Some(buffer) => self.wait(
                    BlockStage::Transferring,
                    BlockAction::Read { sector: w.1, count: w.2, buffer },
                ),
                None => self.answer_status(codes.err_invalid),
            }
        } else if w.0 == codes.write {
            match self.buffers.translate(w.3 as u32, caller) {
                Some(buffer) => self.wait(
                    BlockStage::Transferring,
                    BlockAction::Write { sector: w.1, count: w.2, buffer },
                ),
                None => self.answer_status(codes.err_invalid),
            }
        } else if w.0 == codes.free_buffer {
            match self.buffers.remove(w.1 as u32, caller) {
                Some(buffer) => self.wait(
                    BlockStage::Freeing(codes.ok),
                    BlockAction::Free(buffer),
                ),
                None => self.answer_status(codes.err_invalid),
            }
        } else {
            self.answer_status(codes.err_unsupported)
        }
    }

    /// What the server's loop does next, now that `event` has come.
    pub fn step(&mut self, event: BlockEvent) -> (a: BlockAction)
        requires
            awaits(old(self)@.stage, event),
        ensures
            (final(self)@, a) == block_next(old(self)@, event),
    {
        let codes = self.codes;
        match self.stage {
            BlockStage::Idle => match event {
                BlockEvent::Message(w, caller) => self.message(w, caller),
                _ => self.answer_status(codes.err_unsupported),
            },
            BlockStage::Asking => match event {
                BlockEvent::Info(g) => self.answer(
                    Words(g.capacity_sectors, g.sector_size, g.buffer_attribute, 0),
                ),
                _ => self.answer_status(codes.err_unsupported),
            },
            BlockStage::Allocating { caller } => match event {
                BlockEvent::Buffer(Ok(pageset)) => match self.buffers.track(caller, pageset) {
                    Some(id) => self.wait(
                        BlockStage::Exporting { caller, id, pageset },
                        BlockAction::Export(pageset),
                    ),
                    None => self.wait(
                        BlockStage::Freeing(codes.err_alloc),
                        BlockAction::Free(pageset),
                    ),
                },
                _ => self.answer_status(codes.err_alloc),
            },
            BlockStage::Exporting { caller, id, pageset } => match event {
                BlockEvent::Exported(Some(index)) => self.answer(
                    Words(codes.ok, index, id as u64, 0),
                ),
                _ => {
                    let _ = self.buffers.remove(id, caller);
                    self.wait(
                        BlockStage::Freeing(codes.err_alloc),
                        BlockAction::Free(pageset),
                    )
                },
            },
            BlockStage::Transferring => match event {
                BlockEvent::Done(Ok(_)) => self.answer_status(codes.ok),
                BlockEvent::Done(Err(BlockError::IoError)) => self.answer_status(codes.err_io),
                BlockEvent::Done(Err(BlockError::Unsupported)) => self.answer_status(
                    codes.err_unsupported,
                ),
                _ => self.answer_status(codes.err_invalid),
            },
            BlockStage::Freeing(status) => self.answer_status(status),
        }
    }
}

// ---------------------------------------------------------------------------
// What the server keeps
// ---------------------------------------------------------------------------

/// Whether the server keeps a buffer of the client with the given page set.
pub open spec fn keeps(s: Seq<Option<BlockSlot>>, caller: u64, pageset: PageSetHandle) -> bool {
    exists|i: int|
        0 <= i < s.len() && s[i] is Some && (#[trigger] s[i]->0).caller_token == caller && (
        s[i]->0).engine_handle == pageset
}

/// A client's message reaches only buffers of that client.
pub proof fn lemma_clients_apart(v: BlockView, w: Words, caller: u64)
    requires
        v.stage is Idle,
    ensures
        match block_next(v, BlockEvent::Message(w, caller)).1 {
            BlockAction::Read { buffer, .. } => keeps(v.buffers, caller, buffer),
            BlockAction::Write { buffer, .. } => keeps(v.buffers, caller, buffer),
            BlockAction::Free(buffer) => keeps(v.buffers, caller, buffer),
            _ => true,
        },
        forall|i: int|
            0 <= i < v.buffers.len() && v.buffers[i] is Some && (v.buffers[i]->0).caller_token
                != caller ==> #[trigger] block_next(v, BlockEvent::Message(w, caller)).0.buffers[i]
                == v.buffers[i],
{
    lemma_owned(v.buffers, w.3 as u32, caller, 0);
    lemma_owned(v.buffers, w.1 as u32, caller, 0);
    let i = owned_from(v.buffers, w.3 as u32, caller, 0);
    let j = owned_from(v.buffers, w.1 as u32, caller, 0);
    if i < v.buffers.len() {
        assert((v.buffers[i]->0).caller_token == caller);
    }
    if j < v.buffers.len() {
        assert((v.buffers[j]->0).caller_token == caller);
    }
}

proof fn lemma_owned_elsewhere(
    s: Seq<Option<BlockSlot>>,
    slot: BlockSlot,
    id: u32,
    caller: u64,
    i: int,
)
    requires
        0 <= i <= s.len(),
        first_free(s) < s.len(),
        id != slot.buffer_id || caller != slot.caller_token,
    ensures
        owned_from(with_buffer(s, slot), id, caller, i) == owned_from(s, id, caller, i),
    decreases s.len() - i,
{
    crate::slots::lemma_first_free(s, 0);
    if i < s.len() {
        lemma_owned_elsewhere(s, slot, id, caller, i + 1);
    }
}

/// A new buffer gets a number that none of the buffers has. The number leads its client to
/// the buffer and leads no other client anywhere; what every other number leads a client to
/// is as it was.
pub proof fn lemma_track_then_translate(
    s: Seq<Option<BlockSlot>>,
    next: u32,
    caller: u64,
    pageset: PageSetHandle,
)
    requires
        s.len() == MAX_BUFFERS,
        first_free(s) < s.len(),
    ensures
        ({
            let id = fresh_number(s, next);
            let slot = BlockSlot { buffer_id: id, caller_token: caller, engine_handle: pageset };
            tracked_apart(s, with_buffer(s, slot), id, caller, pageset)
        }),
{
    let id = fresh_number(s, next);
    let slot = BlockSlot { buffer_id: id, caller_token: caller, engine_handle: pageset };
    let t = with_buffer(s, slot);
    lemma_fresh_number(s, next);
    lemma_owned(t, id, caller, 0);
    crate::slots::lemma_first_free(s, 0);
    let f = first_free(s);
    assert(is_owned(t[f], id, caller));
    let k = owned_from(t, id, caller, 0);
    if k < f {
        assert(t[k] == s[k]);
        assert(has_number(s[k], id));
    }
    assert forall|other: u64| other != caller implies (#[trigger] page_set_of(
        t,
        id,
        other,
    )) is None by {
        lemma_owned_elsewhere(s, slot, id, other, 0);
        lemma_owned(s, id, other, 0);
        let j = owned_from(s, id, other, 0);
        if j < s.len() {
            assert(has_number(s[j], id));
        }
    }
    assert forall|i: u32, c: u64| i != id implies #[trigger] page_set_of(t, i, c) == page_set_of(
        s,
        i,
        c,
    ) by {
        lemma_owned_elsewhere(s, slot, i, c, 0);
        lemma_owned(s, i, c, 0);
        crate::slots::lemma_first_free(s, 0);
    }
}

/// A buffer that could not be exported leaves the table as it was.
pub proof fn lemma_failed_export(
    s: Seq<Option<BlockSlot>>,
    next: u32,
    caller: u64,
    pageset: PageSetHandle,
)
    requires
        s.len() == MAX_BUFFERS,
        first_free(s) < s.len(),
    ensures
        ({
            let id = fresh_number(s, next);
            let slot = BlockSlot { buffer_id: id, caller_token: caller, engine_handle: pageset };
            let t = with_buffer(s, slot);
            t.update(owned_from(t, id, caller, 0), None) == s
        }),
{
    let id = fresh_number(s, next);
    let slot = BlockSlot { buffer_id: id, caller_token: caller, engine_handle: pageset };
    let f = first_free(s);
    let t = with_buffer(s, slot);
    lemma_fresh_number(s, next);
    crate::slots::lemma_first_free(s, 0);
    lemma_owned(t, id, caller, 0);
    let k = owned_from(t, id, caller, 0);
    assert(is_owned(t[f], id, caller));
    if k < f {
        assert(t[k] == s[k]);
        assert(has_number(s[k], id));
    }
    assert(t.update(k, None) =~= s);
}

/// Whether no two buffers have the same number.
pub open spec fn numbers_differ(s: Seq<Option<BlockSlot>>) -> bool {
    forall|i: int, j: int|
        0 <= i < j < s.len() && #[trigger] s[i] is Some && #[trigger] s[j] is Some ==> (
        s[i]->0).buffer_id != (s[j]->0).buffer_id
}

/// Whether the server is in a state that it can be in: it has all its slots, and no two
/// buffers have the same number.
pub open spec fn is_sound(v: BlockView) -> bool {
    v.buffers.len() == MAX_BUFFERS && numbers_differ(v.buffers)
}

proof fn lemma_differ_with(s: Seq<Option<BlockSlot>>, slot: BlockSlot)
    requires
        numbers_differ(s),
        first_free(s) < s.len(),
        !is_live(s, slot.buffer_id),
    ensures
        numbers_differ(with_buffer(s, slot)),
{
    crate::slots::lemma_first_free(s, 0);
    let t = with_buffer(s, slot);
    let f = first_free(s);
    assert forall|i: int, j: int|
        0 <= i < j < t.len() && #[trigger] t[i] is Some && #[trigger] t[j] is Some implies (
    t[i]->0).buffer_id != (t[j]->0).buffer_id by {
        if i == f {
            assert(!has_number(s[j], slot.buffer_id));
        } else if j == f {
            assert(!has_number(s[i], slot.buffer_id));
        } else {
            assert(s[i] is Some && s[j] is Some);
        }
    }
}

/// A server that was just started is in such a state, and whatever comes, it stays in one.
pub proof fn lemma_numbers_differ(codes: BlockCodes, v: BlockView, event: BlockEvent)
    ensures
        is_sound(
            BlockView {
                codes,
                buffers: no_slots(MAX_BUFFERS as nat),
                next_id: 1,
                stage: BlockStage::Idle,
            },
        ),
        is_sound(v) ==> is_sound(block_next(v, event).0),
{
    if is_sound(v) {
        let s = v.buffers;
        match (v.stage, event) {
            (BlockStage::Idle, BlockEvent::Message(w, caller)) => {
                lemma_owned(s, w.1 as u32, caller, 0);
            },
            (BlockStage::Allocating { caller }, BlockEvent::Buffer(Ok(pageset))) => {
                if first_free(s) < s.len() {
                    let id = fresh_number(s, v.next_id);
                    lemma_fresh_number(s, v.next_id);
                    crate::slots::lemma_first_free(s, 0);
                    lemma_differ_with(
                        s,
                        BlockSlot { buffer_id: id, caller_token: caller, engine_handle: pageset },
                    );
                }
            },
            (BlockStage::Exporting { caller, id, .. }, BlockEvent::Exported(None)) => {
                lemma_owned(s, id, caller, 0);
            },
            _ => {},
        }
    }
}

// ---------------------------------------------------------------------------
// The client
// ---------------------------------------------------------------------------

/// A buffer that a client was given.
#[derive(Clone, Copy, Debug, PartialEq, Eq, Structural)]
pub struct AllocatedBuffer {
    pub pageset: PageSetHandle,
    pub buffer_id: u32,
}

/// The endpoint of a block server, and who waits for its answers.
#[derive(Clone, Copy, Debug, PartialEq, Eq, Structural)]
pub struct BlockClient {
    pub endpoint: EndpointHandle,
    pub reply: ReplyHandle,
    pub codes: BlockCodes,
}

/// What a status says.
pub open spec fn status_of(codes: BlockCodes, status: u64) -> Result<(), BlockError> {
    if status == codes.ok {
        Ok(())
    } else if status == codes.err_io {
        Err(BlockError::IoError)
    } else if status == codes.err_unsupported {
        Err(BlockError::Unsupported)
    } else if status == codes.err_invalid {
        Err(BlockError::InvalidParameter)
    } else if status == codes.err_alloc {
        Err(BlockError::AllocFailed)
    } else {
        Err(BlockError::InvalidParameter)
    }
}

/// The device that an answer describes, given what its third word says of the attribute.
pub open spec fn info_of(message: Message, attribute: Option<MapAttribute>) -> Result<
    BlockInfo,
    BlockError,
> {
    match (message, attribute) {
        (Err(_), _) => Err(BlockError::IpcFailed),
        (Ok(_), None) => Err(BlockError::InvalidParameter),
        (Ok(w), Some(buffer_attribute)) => Ok(
            BlockInfo { capacity_sectors: w.0, sector_size: w.1, buffer_attribute },
        ),
    }
}

/// The buffer that an answer hands over.
pub open spec fn buffer_of(codes: BlockCodes, message: Message) -> Result<
    AllocatedBuffer,
    BlockError,
> {
    match message {
        Err(_) => Err(BlockError::IpcFailed),
        Ok(w) => match status_of(codes, w.0) {
            Ok(_) => Ok(AllocatedBuffer { pageset: PageSetHandle(w.1), buffer_id: w.2 as u32 }),
            Err(e) => Err(e),
        },
    }
}

/// What an answer says of a transfer or a free.
pub open spec fn outcome_of(codes: BlockCodes, message: Message) -> Result<(), BlockError> {
    match message {
        Err(_) => Err(BlockError::IpcFailed),
        Ok(w) => status_of(codes, w.0),
    }
}

impl BlockClient {
    pub fn new(endpoint: EndpointHandle, reply: ReplyHandle, codes: BlockCodes) -> (r: Self)
        ensures
            r == (BlockClient { endpoint, reply, codes }),
    {
        BlockClient { endpoint, reply, codes }
    }

    /// The request that carries a command to the server.
    pub open spec fn command(&self, w: Words) -> Request {
        Request::Call { endpoint: self.endpoint.0, reply: self.reply.0, message: w }
    }

    fn call(&self, w: Words) -> (r: Request)
        ensures
            r == self.command(w),
    {
        Request::Call { endpoint: self.endpoint.0, reply: self.reply.0, message: w }
    }

    /// Asks for the device.
    pub fn get_info(&self) -> (r: Request)
        ensures
            r == self.command(Words(self.codes.get_info, 0, 0, 0)),
    {
        self.call(Words(self.codes.get_info, 0, 0, 0))
    }

    /// The device that the server answered with, given what its third word says of the
    /// attribute.
    pub fn info_answer(&self, message: Message, attribute: Option<MapAttribute>) -> (r: Result<
        BlockInfo,
        BlockError,
    >)
        ensures
            r == info_of(message, attribute),
    {
        match (message, attribute) {
            (Err(_), _) => Err(BlockError::IpcFailed),
            (Ok(_), None) => Err(BlockError::InvalidParameter),
            (Ok(w), Some(buffer_attribute)) => Ok(
                BlockInfo { capacity_sectors: w.0, sector_size: w.1, buffer_attribute },
            ),
        }
    }

    /// Asks for a buffer.
    pub fn alloc_buffer(&self, sector_count: u64) -> (r: Request)
        ensures
            r == self.command(Words(self.codes.alloc_buffer, sector_count, 0, 0)),
    {
        self.call(Words(self.codes.alloc_buffer, sector_count, 0, 0))
    }

    /// The buffer that the server answered with.
    pub fn buffer_answer(&self, message: Message) -> (r: Result<AllocatedBuffer, BlockError>)
        ensures
            r == buffer_of(self.codes, message),
    {
        match message {
            Err(_) => Err(BlockError::IpcFailed),
            Ok(w) => match self.decode_status(w.0) {
                Ok(_) => Ok(
                    AllocatedBuffer { pageset: PageSetHandle(w.1), buffer_id: w.2 as u32 },
                ),
                Err(e) => Err(e),
            },
        }
    }

    /// Asks for sectors to be read into a buffer.
    pub fn read(&self, sector: u64, count: u64, buffer_id: u32) -> (r: Request)
        ensures
            r == self.command(Words(self.codes.read, sector, count, buffer_id as u64)),
    {
        self.call(Words(self.codes.read, sector, count, buffer_id as u64))
    }

    /// Asks for sectors to be written from a buffer.
    pub fn write(&self, sector: u64, count: u64, buffer_id: u32) -> (r: Request)
        ensures
            r == self.command(Words(self.codes.write, sector, count, buffer_id as u64)),
    {
        self.call(Words(self.codes.write, sector, count, buffer_id as u64))
    }

    /// Asks for a buffer to be freed.
    pub fn free_buffer(&self, buffer_id: u32) -> (r: Request)
        ensures
            r == self.command(Words(self.codes.free_buffer, buffer_id as u64, 0, 0)),
    {
        self.call(Words(self.codes.free_buffer, buffer_id as u64, 0, 0))
    }

    /// What the server answered to a transfer or a free.
    pub fn status_answer(&self, message: Message) -> (r: Result<(), BlockError>)
        ensures
            r == outcome_of(self.codes, message),
    {
        match message {
            Err(_) => Err(BlockError::IpcFailed),
            Ok(w) => self.decode_status(w.0),
        }
    }

    fn decode_status(&self, status: u64) -> (r: Result<(), BlockError>)
        ensures
            r == status_of(self.codes, status),
    {
        if status == self.codes.ok {
            Ok(())
        } else if status == self.codes.err_io {
            Err(BlockError::IoError)
        } else if status == self.codes.err_unsupported {
            Err(BlockError::Unsupported)
        } else if status == self.codes.err_invalid {
            Err(BlockError::InvalidParameter)
        } else if status == self.codes.err_alloc {
            Err(BlockError::AllocFailed)
        } else {
            Err(BlockError::InvalidParameter)
        }
    }
}

// ---------------------------------------------------------------------------
// Laws of the conversation
// ---------------------------------------------------------------------------

/// Whether the numbers of the commands differ, and those of the statuses.
pub open spec fn codes_differ(c: BlockCodes) -> bool {
    &&& c.get_info != c.alloc_buffer && c.get_info != c.read && c.get_info != c.write && c.get_info
        != c.free_buffer
    &&& c.alloc_buffer != c.read && c.alloc_buffer != c.write && c.alloc_buffer != c.free_buffer
    &&& c.read != c.write && c.read != c.free_buffer && c.write != c.free_buffer
    &&& c.ok != c.err_io && c.ok != c.err_unsupported && c.ok != c.err_invalid && c.ok
        != c.err_alloc
    &&& c.err_io != c.err_unsupported && c.err_io != c.err_invalid && c.err_io != c.err_alloc
    &&& c.err_unsupported != c.err_invalid && c.err_unsupported != c.err_alloc
    &&& c.err_invalid != c.err_alloc
}

/// A read and a write reach the engine with the sectors that the client named and with the
/// client's buffer, each as what it is; and what the engine said is what the client is told.
pub proof fn lemma_transfer_served(
    v: BlockView,
    sector: u64,
    count: u64,
    id: u32,
    caller: u64,
    buffer: PageSetHandle,
    r: Result<(), BlockError>,
)
    requires
        v.stage is Idle,
        codes_differ(v.codes),
        page_set_of(v.buffers, id, caller) == Some(buffer),
    ensures
        ({
            let (a, read) = block_next(
                v,
                BlockEvent::Message(Words(v.codes.read, sector, count, id as u64), caller),
            );
            let (b, write) = block_next(
                v,
                BlockEvent::Message(Words(v.codes.write, sector, count, id as u64), caller),
            );
            let (c, reply) = block_next(a, BlockEvent::Done(r));
            let (d, other) = block_next(b, BlockEvent::Done(r));
            &&& read == (BlockAction::Read { sector, count, buffer })
            &&& write == (BlockAction::Write { sector, count, buffer })
            &&& reply == other
            &&& reply matches BlockAction::Reply(w)
            &&& r is Ok ==> outcome_of(v.codes, Ok(w)) is Ok
            &&& r == Err::<(), BlockError>(BlockError::IoError) ==> outcome_of(v.codes, Ok(w)) == r
            &&& r == Err::<(), BlockError>(BlockError::Unsupported) ==> outcome_of(v.codes, Ok(w))
                == r
            &&& r is Err ==> outcome_of(v.codes, Ok(w)) is Err
            &&& c.stage is Idle && d.stage is Idle
            &&& c.buffers == v.buffers && d.buffers == v.buffers
        }),
{
}

/// A client without such a buffer is refused, whatever it asks of it.
pub proof fn lemma_transfer_refused(v: BlockView, x: u64, y: u64, id: u32, caller: u64)
    requires
        v.stage is Idle,
        codes_differ(v.codes),
        page_set_of(v.buffers, id, caller) is None,
    ensures
        ({
            let no = (v, BlockAction::Reply(Words(v.codes.err_invalid, 0, 0, 0)));
            &&& block_next(
                v,
                BlockEvent::Message(Words(v.codes.read, x, y, id as u64), caller),
            ) == no
            &&& block_next(
                v,
                BlockEvent::Message(Words(v.codes.write, x, y, id as u64), caller),
            ) == no
            &&& block_next(
                v,
                BlockEvent::Message(Words(v.codes.free_buffer, id as u64, x, y), caller),
            ) == no
        }),
{
}

/// A buffer that a client asks for is made with as many sectors, handed to it, and from then on
/// found under the number that the client reads out of the answer.
pub proof fn lemma_buffer_served(
    v: BlockView,
    sectors: u64,
    caller: u64,
    pageset: PageSetHandle,
    index: u64,
)
    requires
        v.stage is Idle,
        codes_differ(v.codes),
        is_sound(v),
        first_free(v.buffers) < v.buffers.len(),
    ensures
        ({
            let (a, first) = block_next(
                v,
                BlockEvent::Message(Words(v.codes.alloc_buffer, sectors, 0, 0), caller),
            );
            let (b, second) = block_next(a, BlockEvent::Buffer(Ok(pageset)));
            let (c, third) = block_next(b, BlockEvent::Exported(Some(index)));
            &&& first == BlockAction::Alloc(sectors)
            &&& second == BlockAction::Export(pageset)
            &&& third matches BlockAction::Reply(w)
            &&& buffer_of(v.codes, Ok(w)) matches Ok(got)
            &&& got.pageset.0 == index
            &&& page_set_of(c.buffers, got.buffer_id, caller) == Some(pageset)
            &&& c.stage is Idle
        }),
{
    lemma_track_then_translate(v.buffers, v.next_id, caller, pageset);
}

/// A buffer for which there is no slot, or that could not be handed over, is given back, and the
/// client is told that there is none.
pub proof fn lemma_buffer_not_served(v: BlockView, caller: u64, pageset: PageSetHandle, id: u32)
    ensures
        v.stage == (BlockStage::Allocating { caller }) && first_free(v.buffers) >= v.buffers.len()
            ==> ({
            let (a, first) = block_next(v, BlockEvent::Buffer(Ok(pageset)));
            let (_, second) = block_next(a, BlockEvent::Freed);
            first == BlockAction::Free(pageset) && second == BlockAction::Reply(
                Words(v.codes.err_alloc, 0, 0, 0),
            )
        }),
        v.stage == (BlockStage::Exporting { caller, id, pageset }) ==> ({
            let (a, first) = block_next(v, BlockEvent::Exported(None));
            let (_, second) = block_next(a, BlockEvent::Freed);
            first == BlockAction::Free(pageset) && second == BlockAction::Reply(
                Words(v.codes.err_alloc, 0, 0, 0),
            )
        }),
{
}

/// A buffer that a client frees is freed by the engine, and its number leads the client nowhere
/// any more.
pub proof fn lemma_free_served(v: BlockView, id: u32, caller: u64, buffer: PageSetHandle)
    requires
        v.stage is Idle,
        codes_differ(v.codes),
        is_sound(v),
        page_set_of(v.buffers, id, caller) == Some(buffer),
    ensures
        ({
            let (a, first) = block_next(
                v,
                BlockEvent::Message(Words(v.codes.free_buffer, id as u64, 0, 0), caller),
            );
            let (b, second) = block_next(a, BlockEvent::Freed);
            &&& first == BlockAction::Free(buffer)
            &&& second == BlockAction::Reply(Words(v.codes.ok, 0, 0, 0))
            &&& page_set_of(b.buffers, id, caller) is None
            &&& b.stage is Idle
        }),
{
    let s = v.buffers;
    let i = owned_from(s, id, caller, 0);
    lemma_owned(s, id, caller, 0);
    let t = s.update(i, None);
    lemma_owned(t, id, caller, 0);
    let j = owned_from(t, id, caller, 0);
    if j < t.len() {
        assert(is_owned(t[j], id, caller));
        assert(j != i);
        assert(is_owned(s[j], id, caller));
        assert(is_owned(s[i], id, caller));
    }
}

/// What the engine says of the device is what the client reads.
pub proof fn lemma_info_served(v: BlockView, caller: u64, g: BlockGeometry, attribute: MapAttribute)
    requires
        v.stage is Idle,
        codes_differ(v.codes),
    ensures
        ({
            let (a, first) = block_next(
                v,
                BlockEvent::Message(Words(v.codes.get_info, 0, 0, 0), caller),
            );
            let (_, second) = block_next(a, BlockEvent::Info(g));
            &&& first == BlockAction::Info
            &&& second matches BlockAction::Reply(w)
            &&& w.2 == g.buffer_attribute
            &&& info_of(Ok(w), Some(attribute)) matches Ok(info)
            &&& info.capacity_sectors == g.capacity_sectors
            &&& info.sector_size == g.sector_size
            &&& info.buffer_attribute == attribute
        }),
{
}

/// Every status says what it stands for; one that stands for nothing says that the request was
/// not in order.
pub proof fn lemma_status(c: BlockCodes, status: u64)
    requires
        codes_differ(c),
    ensures
        status_of(c, status) is Ok <==> status == c.ok,
        status_of(c, c.err_io) == Err::<(), BlockError>(BlockError::IoError),
        status_of(c, c.err_unsupported) == Err::<(), BlockError>(BlockError::Unsupported),
        status_of(c, c.err_invalid) == Err::<(), BlockError>(BlockError::InvalidParameter),
        status_of(c, c.err_alloc) == Err::<(), BlockError>(BlockError::AllocFailed),
{
}

} // verus!
