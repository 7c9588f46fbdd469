//! The display server: one session at a time, and the buffers that its client may show.

use crate::slots::{first_free, first_used, no_slots, used_count, Slots};
use crate::syscall::{Message, Request, Words};
use vstd::prelude::*;

verus! {

/// The number of buffers that a session can have.
pub const MAX_BUFFERS: usize = 8;

/// Why a display request was refused.
#[derive(Clone, Copy, Debug, PartialEq, Eq, Structural)]
pub enum DisplayError {
    UnknownCommand,
    SessionBusy,
    InvalidSession,
    InvalidMode,
    InvalidBuffer,
    InvalidFormat,
    NotConfigured,
    AllocFailed,
    IpcFailed,
}

/// A display mode.
#[derive(Clone, Copy, Debug, PartialEq, Eq, Structural)]
pub struct ModeInfo {
    pub width: u32,
    pub height: u32,
    pub format: u32,
    pub refresh_millihz: u32,
}

/// What a client asks for.
#[derive(Clone, Copy, Debug, PartialEq, Eq, Structural)]
pub enum DisplayRequest {
    ListModes,
    GetMode { index: u32 },
    CreateSession,
    AllocBuffer { session: u32, width: u32, height: u32, format: u32 },
    SetMode { session: u32, mode_index: u32, buffer: u32 },
    SetScanout { session: u32, buffer: u32 },
    ReleaseSession { session: u32 },
}

/// What a client is answered.
#[derive(Clone, Copy, Debug, PartialEq, Eq, Structural)]
pub enum DisplayResponse {
    Success,
    ModeCount(u32),
    Mode(ModeInfo),
    Session { id: u32 },
    Buffer { handle: u32, stride: u32, size: u32 },
    Failure(DisplayError),
}

/// A buffer as a client sees it.
#[derive(Clone, Copy, Debug, PartialEq, Eq, Structural)]
pub struct BufferInfo {
    pub handle: u32,
    pub stride: u32,
    pub size: u32,
}

// ---------------------------------------------------------------------------
// Sessions
// ---------------------------------------------------------------------------

/// The one session that can be active, and the number that the next one gets.
#[derive(Clone, Copy, Debug, PartialEq, Eq, Structural)]
pub struct SessionState {
    pub active: Option<u32>,
    pub next_id: u32,
}

/// The number after `id`; the largest is followed by zero.
pub open spec fn next_number(id: u32) -> u32 {
    if id == u32::MAX {
        0
    } else {
        (id + 1) as u32
    }
}

impl SessionState {
    pub fn new() -> (r: Self)
        ensures
            r == (SessionState { active: None, next_id: 0 }),
    {
        SessionState { active: None, next_id: 0 }
    }

    /// Opens a session, unless one is open.
    pub fn create(&mut self) -> (r: Result<u32, DisplayError>)
        ensures
            match old(self).active {
                Some(_) => r == Err::<u32, DisplayError>(DisplayError::SessionBusy)
                    && *final(self) == *old(self),
                None => r == Ok::<u32, DisplayError>(old(self).next_id) && *final(self) == (
                SessionState {
                    active: Some(old(self).next_id),
                    next_id: next_number(old(self).next_id),
                }),
            },
    {
        if self.active.is_some() {
            return Err(DisplayError::SessionBusy);
        }
        let id = self.next_id;
        self.next_id = self.next_id.wrapping_add(1);
        self.active = Some(id);
        Ok(id)
    }

    /// Whether `session` is the open one.
    pub fn validate(&self, session: u32) -> (r: Result<(), DisplayError>)
        ensures
            r == if self.active == Some(session) {
                Ok::<(), DisplayError>(())
            } else {
                Err(DisplayError::InvalidSession)
            },
    {
        match self.active {
            Some(id) => {
                if id == session {
                    Ok(())
                } else {
                    Err(DisplayError::InvalidSession)
                }
            },
            None => Err(DisplayError::InvalidSession),
        }
    }

    /// Closes the open session.
    pub fn release(&mut self, session: u32) -> (r: Result<(), DisplayError>)
        ensures
            old(self).active == Some(session) ==> r is Ok && *final(self) == (SessionState {
                active: None,
                next_id: old(self).next_id,
            }),
            old(self).active != Some(session) ==> r == Err::<(), DisplayError>(
                DisplayError::InvalidSession,
            ) && *final(self) == *old(self),
    {
        match self.validate(session) {
            Ok(()) => {
                self.active = None;
                Ok(())
            },
            Err(e) => Err(e),
        }
    }
}

// ---------------------------------------------------------------------------
// Buffers
// ---------------------------------------------------------------------------

/// A buffer: the handle that the client has, and the one that the engine has.
#[derive(Clone, Copy, Debug, PartialEq, Eq, Structural)]
pub struct BufferSlot {
    pub client_handle: u32,
    pub engine_handle: u64,
}

/// The buffers of the session.
pub struct BufferTracker {
    slots: Slots<BufferSlot>,
}

/// The engine's handle of the first buffer from slot `i` on that the client knows by
/// `handle`.
pub open spec fn engine_from(s: Seq<Option<BufferSlot>>, handle: u32, i: int) -> Option<u64>
    decreases s.len() - i,
{
    if i < 0 || i >= s.len() {
        None
    } else if s[i] is Some && (s[i]->0).client_handle == handle {
        Some((s[i]->0).engine_handle)
    } else {
        engine_from(s, handle, i + 1)
    }
}

/// Whether, in the buffers `t`, the handle leads to the engine's handle, and every other
/// handle leads to what it leads to in the buffers `s`.
pub open spec fn tracked_apart(
    s: Seq<Option<BufferSlot>>,
    t: Seq<Option<BufferSlot>>,
    client_handle: u32,
    engine_handle: u64,
) -> bool {
    &&& engine_from(t, client_handle, 0) == Some(engine_handle)
    &&& forall|other: u32|
        other != client_handle ==> #[trigger] engine_from(t, other, 0) == engine_from(s, other, 0)
}

/// The engine's handles of the buffers in the first `n` slots, in order.
pub open spec fn engine_handles(s: Seq<Option<BufferSlot>>, n: nat) -> Seq<u64>
    decreases n,
{
    if n == 0 {
        Seq::empty()
    } else {
        let head = engine_handles(s, (n - 1) as nat);
        match s[n - 1] {
            Some(b) => head.push(b.engine_handle),
            None => head,
        }
    }
}

impl BufferTracker {
    pub closed spec fn view(&self) -> Seq<Option<BufferSlot>> {
        self.slots@
    }

    /// There are always all the slots.
    #[verifier::type_invariant]
    spec fn has_all_slots(self) -> bool {
        self.slots@.len() == MAX_BUFFERS
    }

    pub fn new() -> (r: Self)
        ensures
            r@ == no_slots::<BufferSlot>(MAX_BUFFERS as nat),
    {
        BufferTracker { slots: Slots::new(MAX_BUFFERS) }
    }

    /// Keeps a buffer in the first free slot. Returns whether there was one. Under a handle
    /// that the client had for no other buffer it is then found, and what every other handle
    /// leads to is as it was.
    pub fn track(&mut self, client_handle: u32, engine_handle: u64) -> (r: bool)
        ensures
            old(self)@.len() == MAX_BUFFERS,
            r && engine_from(old(self)@, client_handle, 0) is None ==> tracked_apart(
                old(self)@,
                final(self)@,
                client_handle,
                engine_handle,
            ),
            r == (first_free(old(self)@) < old(self)@.len()),
            final(self)@ == if r {
                old(self)@.update(
                    first_free(old(self)@),
                    Some(BufferSlot { client_handle, engine_handle }),
                )
            } else {
                old(self)@
            },
    {
        proof {
            use_type_invariant(&*self);
            if first_free(self@) < self@.len() && engine_from(self@, client_handle, 0) is None {
                lemma_track_then_translate(self@, client_handle, engine_handle);
            }
        }
        match self.slots.find_free() {
            Some(i) => {
                self.slots.set(i, Some(BufferSlot { client_handle, engine_handle }));
                true
            },
            None => false,
        }
    }

    /// Whether there is a free slot.
    pub fn has_capacity(&self) -> (r: bool)
        ensures
            r == (first_free(self@) < self@.len()),
    {
        self.slots.find_free().is_some()
    }

    /// Takes the buffer out of the first slot in use. Returns its engine handle.
    pub fn take_first(&mut self) -> (r: Option<u64>)
        ensures
            ({
                let s = old(self)@;
                let i = first_used(s);
                if i < s.len() {
                    r == Some((s[i]->0).engine_handle) && final(self)@ == s.update(i, None)
                } else {
                    r is None && final(self)@ == s
                }
            }),
    {
        proof {
            use_type_invariant(&*self);
        }
        match self.slots.find_used() {
            Some(i) => {
                let slot = self.slots.get(i);
                self.slots.set(i, None);
                proof {
                    crate::slots::lemma_first_used(old(self)@, 0);
                }
                match slot {
                    Some(b) => Some(b.engine_handle),
                    None => None,
                }
            },
            None => None,
        }
    }

    /// Takes all buffers out. Returns their engine handles, in the order of the slots, so
    /// that each can be freed.
    pub fn release_all(&mut self) -> (out: Vec<u64>)
        ensures
            out@ == engine_handles(old(self)@, old(self)@.len()),
            final(self)@ == no_slots::<BufferSlot>(MAX_BUFFERS as nat),
    {
        proof {
            use_type_invariant(&*self);
        }
        let ghost s = self@;
        let mut out: Vec<u64> = Vec::new();
        let mut i: usize = 0;
        while i < self.slots.len()
            invariant
                self@.len() == s.len(),
                s.len() == MAX_BUFFERS,
                i <= s.len(),
                out@ == engine_handles(s, i as nat),
                forall|k: int| 0 <= k < i ==> (#[trigger] self@[k]) is None,
                forall|k: int| i <= k < s.len() ==> #[trigger] self@[k] == s[k],
            decreases s.len() - i,
        {
            if let Some(b) = self.slots.get(i) {
                out.push(b.engine_handle);
                self.slots.set(i, None);
            }
            i += 1;
        }
        assert(self@ =~= no_slots::<BufferSlot>(s.len()));
        out
    }

    /// The engine's handle of a client's buffer.
    pub fn translate(&self, client_handle: u32) -> (r: Option<u64>)
        ensures
            r == engine_from(self@, client_handle, 0),
            self@.len() == MAX_BUFFERS,
    {
        proof {
            use_type_invariant(self);
        }
        let mut i: usize = 0;
        while i < self.slots.len()
            invariant
                i <= self@.len(),
                self@.len() == MAX_BUFFERS,
                engine_from(self@, client_handle, 0) == engine_from(
                    self@,
                    client_handle,
                    i as int,
                ),
            decreases self@.len() - i,
        {
            if let Some(b) = self.slots.get(i) {
                if b.client_handle == client_handle {
                    return Some(b.engine_handle);
                }
            }
            i += 1;
        }
        None
    }
}

// ---------------------------------------------------------------------------
// The server
// ---------------------------------------------------------------------------

/// The hardware behind the server. The server's loop makes these calls.
pub trait DisplayEngine {
    fn mode_count(&self) -> u32;

    fn get_mode(&self, index: u32) -> Option<ModeInfo>;

    fn create_session(&mut self) -> Result<(), DisplayError>;

    fn alloc_buffer(&mut self, session: u32, width: u32, height: u32, format: u32) -> Result<
        (u64, u32, u32),
        DisplayError,
    >;

    fn set_mode(&mut self, session: u32, mode_index: u32, buffer_handle: u64) -> Result<
        (),
        DisplayError,
    >;

    fn set_scanout(&mut self, session: u32, buffer_handle: u64) -> Result<(), DisplayError>;

    fn free_buffer(&mut self, buffer_handle: u64);

    fn release_session(&mut self, session: u32) -> Result<(), DisplayError>;
}

/// What the server's loop does next.
#[derive(Clone, Copy, Debug, PartialEq, Eq, Structural)]
pub enum DisplayAction {
    /// Answer the client, and wait for the next request.
    Reply(DisplayResponse),
    /// Hand a page set to the client that waits for an answer.
    Export(u64),
    ModeCount,
    GetMode(u32),
    CreateSession,
    AllocBuffer { session: u32, width: u32, height: u32, format: u32 },
    SetMode { session: u32, mode_index: u32, buffer: u64 },
    SetScanout { session: u32, buffer: u64 },
    FreeBuffer(u64),
    ReleaseSession(u32),
}

/// What came of it.
#[derive(Clone, Copy, Debug)]
pub enum DisplayEvent {
    /// A client's request; `None` where it could not be understood.
    Request(Option<DisplayRequest>),
    ModeCount(u32),
    Mode(Option<ModeInfo>),
    /// An engine call without a value.
    Done(Result<(), DisplayError>),
    /// A buffer: its page set, the bytes of a row, the bytes in all.
    Buffer(Result<(u64, u32, u32), DisplayError>),
    /// The client's handle of an exported page set.
    Exported(Option<u64>),
    Freed,
}

/// What the server waits for.
#[derive(Clone, Copy, Debug, PartialEq, Eq, Structural)]
pub enum DisplayStage {
    Idle,
    Counting,
    Describing,
    Opening(u32),
    Allocating,
    Exporting { handle: u64, stride: u32, size: u32 },
    /// A buffer that could not be exported is being freed.
    Discarding,
    Showing,
    Releasing(u32),
    /// The buffers of a released session are being freed.
    Draining,
}

/// The state of the server, as plain values.
pub struct DisplayView {
    pub session: SessionState,
    pub buffers: Seq<Option<BufferSlot>>,
    pub stage: DisplayStage,
}

/// Whether an event is one that the server waits for.
pub open spec fn awaits(stage: DisplayStage, event: DisplayEvent) -> bool {
    match stage {
        DisplayStage::Idle => event is Request,
        DisplayStage::Counting => event is ModeCount,
        DisplayStage::Describing => event is Mode,
        DisplayStage::Opening(_) => event is Done,
        DisplayStage::Allocating => event is Buffer,
        DisplayStage::Exporting { .. } => event is Exported,
        DisplayStage::Discarding => event is Freed,
        DisplayStage::Showing => event is Done,
        DisplayStage::Releasing(_) => event is Done,
        DisplayStage::Draining => event is Freed,
    }
}

/// The server answers a client and is idle again.
pub open spec fn answered(v: DisplayView, r: DisplayResponse) -> (DisplayView, DisplayAction) {
    (DisplayView { stage: DisplayStage::Idle, ..v }, DisplayAction::Reply(r))
}

/// The server makes a call and waits.
pub open spec fn waiting(v: DisplayView, stage: DisplayStage, a: DisplayAction) -> (
    DisplayView,
    DisplayAction,
) {
    (DisplayView { stage, ..v }, a)
}

/// What the server does with a request.
pub open spec fn on_request(v: DisplayView, request: DisplayRequest) -> (
    DisplayView,
    DisplayAction,
) {
    match request {
        DisplayRequest::ListModes => waiting(v, DisplayStage::Counting, DisplayAction::ModeCount),
        DisplayRequest::GetMode { index } => waiting(
            v,
            DisplayStage::Describing,
            DisplayAction::GetMode(index),
        ),
        DisplayRequest::CreateSession => if v.session.active is Some {
            answered(v, DisplayResponse::Failure(DisplayError::SessionBusy))
        } else {
            let id = v.session.next_id;
            waiting(
                DisplayView {
                    session: SessionState { active: Some(id), next_id: next_number(id) },
                    ..v
                },
                DisplayStage::Opening(id),
                DisplayAction::CreateSession,
            )
        },
        DisplayRequest::AllocBuffer { session, width, height, format } => if v.session.active
            != Some(session) {
            answered(v, DisplayResponse::Failure(DisplayError::InvalidSession))
        } else if first_free(v.buffers) >= v.buffers.len() {
            answered(v, DisplayResponse::Failure(DisplayError::AllocFailed))
        } else {
            waiting(
                v,
                DisplayStage::Allocating,
                DisplayAction::AllocBuffer { session, width, height, format },
            )
        },
        DisplayRequest::SetMode { session, mode_index, buffer } => if v.session.active != Some(
            session,
        ) {
            answered(v, DisplayResponse::Failure(DisplayError::InvalidSession))
        } else {
            match engine_from(v.buffers, buffer, 0) {
                Some(h) => waiting(
                    v,
                    DisplayStage::Showing,
                    DisplayAction::SetMode { session, mode_index, buffer: h },
                ),
                None => answered(v, DisplayResponse::Failure(DisplayError::InvalidBuffer)),
            }
        },
        DisplayRequest::SetScanout { session, buffer } => if v.session.active != Some(session) {
            answered(v, DisplayResponse::Failure(DisplayError::InvalidSession))
        } else {
            match engine_from(v.buffers, buffer, 0) {
                Some(h) => waiting(
                    v,
                    DisplayStage::Showing,
                    DisplayAction::SetScanout { session, buffer: h },
                ),
                None => answered(v, DisplayResponse::Failure(DisplayError::InvalidBuffer)),
            }
        },
        DisplayRequest::ReleaseSession { session } => if v.session.active != Some(session) {
            answered(v, DisplayResponse::Failure(DisplayError::InvalidSession))
        } else {
            waiting(
                v,
                DisplayStage::Releasing(session),
                DisplayAction::ReleaseSession(session),
            )
        },
    }
}

/// How the server frees the buffers of a released session, one after the other.
pub open spec fn drained(v: DisplayView) -> (DisplayView, DisplayAction) {
    let i = first_used(v.buffers);
    if i < v.buffers.len() {
        waiting(
            DisplayView { buffers: v.buffers.update(i, None), ..v },
            DisplayStage::Draining,
            DisplayAction::FreeBuffer((v.buffers[i]->0).engine_handle),
        )
    } else {
        answered(v, DisplayResponse::Success)
    }
}

/// What the server does when `event` comes.
pub open spec fn display_next(v: DisplayView, event: DisplayEvent) -> (DisplayView, DisplayAction) {
    match (v.stage, event) {
        (DisplayStage::Idle, DisplayEvent::Request(None)) => answered(
            v,
            DisplayResponse::Failure(DisplayError::UnknownCommand),
        ),
        (DisplayStage::Idle, DisplayEvent::Request(Some(request))) => on_request(v, request),
        (DisplayStage::Counting, DisplayEvent::ModeCount(n)) => answered(
            v,
            DisplayResponse::ModeCount(n),
        ),
        (DisplayStage::Describing, DisplayEvent::Mode(Some(m))) => answered(
            v,
            DisplayResponse::Mode(m),
        ),
        (DisplayStage::Describing, DisplayEvent::Mode(None)) => answered(
            v,
            DisplayResponse::Failure(DisplayError::InvalidMode),
        ),
        (DisplayStage::Opening(id), DisplayEvent::Done(Ok(_))) => answered(
            v,
            DisplayResponse::Session { id },
        ),
        (DisplayStage::Opening(_), DisplayEvent::Done(Err(e))) => answered(
            DisplayView {
                session: SessionState { active: None, next_id: v.session.next_id },
                ..v
            },
            DisplayResponse::Failure(e),
        ),
        (DisplayStage::Allocating, DisplayEvent::Buffer(Ok((handle, stride, size)))) => waiting(
            v,
            DisplayStage::Exporting { handle, stride, size },
            DisplayAction::Export(handle),
        ),
        (DisplayStage::Allocating, DisplayEvent::Buffer(Err(e))) => answered(
            v,
            DisplayResponse::Failure(e),
        ),
        (
            DisplayStage::Exporting { handle, stride, size },
            DisplayEvent::Exported(Some(index)),
        ) => answered(
            DisplayView {
                buffers: v.buffers.update(
                    first_free(v.buffers),
                    Some(BufferSlot { client_handle: index as u32, engine_handle: handle }),
                ),
                ..v
            },
            DisplayResponse::Buffer { handle: index as u32, stride, size },
        ),
        (DisplayStage::Exporting { handle, .. }, DisplayEvent::Exported(None)) => waiting(
            v,
            DisplayStage::Discarding,
            DisplayAction::FreeBuffer(handle),
        ),
        (DisplayStage::Discarding, _) => answered(
            v,
            DisplayResponse::Failure(DisplayError::AllocFailed),
        ),
        (DisplayStage::Showing, DisplayEvent::Done(Ok(_))) => answered(v, DisplayResponse::Success),
        (DisplayStage::Showing, DisplayEvent::Done(Err(e))) => answered(
            v,
            DisplayResponse::Failure(e),
        ),
        (DisplayStage::Releasing(_), DisplayEvent::Done(Ok(_))) => drained(
            DisplayView {
                session: SessionState { active: None, next_id: v.session.next_id },
                ..v
            },
        ),
        (DisplayStage::Releasing(_), DisplayEvent::Done(Err(e))) => answered(
            v,
            DisplayResponse::Failure(e),
        ),
        (DisplayStage::Draining, _) => drained(v),
        _ => answered(v, DisplayResponse::Failure(DisplayError::UnknownCommand)),
    }
}

/// The display server.
pub struct DisplayServer {
    session: SessionState,
    buffers: BufferTracker,
    stage: DisplayStage,
}

impl DisplayServer {
    pub closed spec fn view(&self) -> DisplayView {
        DisplayView { session: self.session, buffers: self.buffers@, stage: self.stage }
    }

    /// Whether the state is one that the server can be in: it has its slots, and while a
    /// buffer is on its way one of them is free, and while a session is being released it
    /// is the open one.
    pub open spec fn valid(&self) -> bool {
        let v = self@;
        &&& v.buffers.len() == MAX_BUFFERS
        &&& (v.stage is Allocating || v.stage is Exporting) ==> first_free(v.buffers)
            < v.buffers.len()
        &&& v.stage matches DisplayStage::Releasing(id) ==> v.session.active == Some(id)
    }

    pub fn new() -> (r: Self)
        ensures
            r.valid(),
            r@.session == (SessionState { active: None, next_id: 0 }),
            r@.buffers == no_slots::<BufferSlot>(MAX_BUFFERS as nat),
            r@.stage == DisplayStage::Idle,
    {
        DisplayServer {
            session: SessionState::new(),
            buffers: BufferTracker::new(),
            stage: DisplayStage::Idle,
        }
    }

    fn answer(&mut self, r: DisplayResponse) -> (a: DisplayAction)
        ensures
            (final(self)@, a) == answered(old(self)@, r),
    {
        self.stage = DisplayStage::Idle;
        DisplayAction::Reply(r)
    }

    fn wait(&mut self, stage: DisplayStage, action: DisplayAction) -> (a: DisplayAction)
        ensures
            (final(self)@, a) == waiting(old(self)@, stage, action),
    {
        self.stage = stage;
        action
    }

    fn drain(&mut self) -> (a: DisplayAction)
        ensures
            (final(self)@, a) == drained(old(self)@),
    {
        match self.buffers.take_first() {
            Some(h) => self.wait(DisplayStage::Draining, DisplayAction::FreeBuffer(h)),
            None => self.answer(DisplayResponse::Success),
        }
    }

    fn request(&mut self, request: DisplayRequest) -> (a: DisplayAction)
        requires
            old(self).valid(),
        ensures
            final(self).valid(),
            (final(self)@, a) == on_request(old(self)@, request),
    {
        match request {
            DisplayRequest::ListModes => self.wait(
                DisplayStage::Counting,
                DisplayAction::ModeCount,
            ),
            DisplayRequest::GetMode { index } => self.wait(
                DisplayStage::Describing,
                DisplayAction::GetMode(index),
            ),
            DisplayRequest::CreateSession => match self.session.create() {
                Ok(id) => self.wait(DisplayStage::Opening(id), DisplayAction::CreateSession),
                Err(e) => self.answer(DisplayResponse::Failure(e)),
            },
            DisplayRequest::AllocBuffer { session, width, height, format } => {
                if self.session.validate(session).is_err() {
                    self.answer(DisplayResponse::Failure(DisplayError::InvalidSession))
                } else if !self.buffers.has_capacity() {
                    self.answer(DisplayResponse::Failure(DisplayError::AllocFailed))
                } else {
                    self.wait(
                        DisplayStage::Allocating,
                        DisplayAction::AllocBuffer { session, width, height, format },
                    )
                }
            },
            DisplayRequest::SetMode { session, mode_index, buffer } => {
                if self.session.validate(session).is_err() {
                    self.answer(DisplayResponse::Failure(DisplayError::InvalidSession))
                } else {
                    match self.buffers.translate(buffer) {
                        Some(h) => self.wait(
                            DisplayStage::Showing,
                            DisplayAction::SetMode { session, mode_index, buffer: h },
                        ),
                        None => self.answer(DisplayResponse::Failure(DisplayError::InvalidBuffer)),
                    }
                }
            },
            DisplayRequest::SetScanout { session, buffer } => {
                if self.session.validate(session).is_err() {
                    self.answer(DisplayResponse::Failure(DisplayError::InvalidSession))
                } else {
                    match self.buffers.translate(buffer) {
                        Some(h) => self.wait(
                            DisplayStage::Showing,
                            DisplayAction::SetScanout { session, buffer: h },
                        ),
                        None => self.answer(DisplayResponse::Failure(DisplayError::InvalidBuffer)),
                    }
                }
            },
            DisplayRequest::ReleaseSession { session } => {
                if self.session.validate(session).is_err() {
                    self.answer(DisplayResponse::Failure(DisplayError::InvalidSession))
                } else {
                    self.wait(
                        DisplayStage::Releasing(session),
                        DisplayAction::ReleaseSession(session),
                    )
                }
            },
        }
    }

    /// What the server's loop does next, now that `event` has come.
    pub fn step(&mut self, event: DisplayEvent) -> (a: DisplayAction)
        requires
            old(self).valid(),
            awaits(old(self)@.stage, event),
        ensures
            final(self).valid(),
            (final(self)@, a) == display_next(old(self)@, event),
    {
        proof {
            crate::slots::lemma_first_free(self@.buffers, 0);
            crate::slots::lemma_first_used(self@.buffers, 0);
        }
        match self.stage {
            DisplayStage::Idle => match event {
                DisplayEvent::Request(Some(request)) => self.request(request),
                _ => self.answer(DisplayResponse::Failure(DisplayError::UnknownCommand)),
            },
            DisplayStage::Counting => match event {
                DisplayEvent::ModeCount(n) => self.answer(DisplayResponse::ModeCount(n)),
                _ => self.answer(DisplayResponse::Failure(DisplayError::UnknownCommand)),
            },
            DisplayStage::Describing => match event {
                DisplayEvent::Mode(Some(m)) => self.answer(DisplayResponse::Mode(m)),
                _ => self.answer(DisplayResponse::Failure(DisplayError::InvalidMode)),
            },
            DisplayStage::Opening(id) => match event {
                DisplayEvent::Done(Err(e)) => {
                    self.session.active = None;
                    self.answer(DisplayResponse::Failure(e))
                },
                _ => self.answer(DisplayResponse::Session { id }),
            },
            DisplayStage::Allocating => match event {
                DisplayEvent::Buffer(Ok((handle, stride, size))) => self.wait(
                    DisplayStage::Exporting { handle, stride, size },
                    DisplayAction::Export(handle),
                ),
                DisplayEvent::Buffer(Err(e)) => self.answer(DisplayResponse::Failure(e)),
                _ => self.answer(DisplayResponse::Failure(DisplayError::UnknownCommand)),
            },
            DisplayStage::Exporting { handle, stride, size } => match event {
                DisplayEvent::Exported(Some(index)) => {
                    self.buffers.track(index as u32, handle);
                    self.answer(DisplayResponse::Buffer { handle: index as u32, stride, size })
                },
                _ => self.wait(DisplayStage::Discarding, DisplayAction::FreeBuffer(handle)),
            },
            DisplayStage::Discarding => self.answer(
                DisplayResponse::Failure(DisplayError::AllocFailed),
            ),
            DisplayStage::Showing => match event {
                DisplayEvent::Done(Err(e)) => self.answer(DisplayResponse::Failure(e)),
                _ => self.answer(DisplayResponse::Success),
            },
            DisplayStage::Releasing(id) => match event {
                DisplayEvent::Done(Err(e)) => self.answer(DisplayResponse::Failure(e)),
                _ => {
                    let _ = self.session.release(id);
                    self.drain()
                },
            },
            DisplayStage::Draining => self.drain(),
        }
    }
}

// ---------------------------------------------------------------------------
// What the server keeps
// ---------------------------------------------------------------------------

/// A request that names a session other than the open one is refused with that error. It
/// reaches neither the engine nor the state.
pub proof fn lemma_foreign_session(v: DisplayView, request: DisplayRequest)
    requires
        v.stage is Idle,
        match request {
            DisplayRequest::AllocBuffer { session, .. } => v.session.active != Some(session),
            DisplayRequest::SetMode { session, .. } => v.session.active != Some(session),
            DisplayRequest::SetScanout { session, .. } => v.session.active != Some(session),
            DisplayRequest::ReleaseSession { session } => v.session.active != Some(session),
            _ => false,
        },
    ensures
        display_next(v, DisplayEvent::Request(Some(request))) == (
            v,
            DisplayAction::Reply(DisplayResponse::Failure(DisplayError::InvalidSession)),
        ),
{
}

/// While a session is open, no second one is opened.
pub proof fn lemma_one_session(v: DisplayView)
    requires
        v.stage is Idle,
        v.session.active is Some,
    ensures
        display_next(v, DisplayEvent::Request(Some(DisplayRequest::CreateSession))) == (
            v,
            DisplayAction::Reply(DisplayResponse::Failure(DisplayError::SessionBusy)),
        ),
{
}

/// Whether the server keeps a buffer with the given engine handle.
pub open spec fn keeps(s: Seq<Option<BufferSlot>>, engine_handle: u64) -> bool {
    exists|i: int| 0 <= i < s.len() && s[i] is Some && (#[trigger] s[i]->0).engine_handle
        == engine_handle
}

proof fn lemma_engine_from(s: Seq<Option<BufferSlot>>, handle: u32, i: int)
    requires
        0 <= i <= s.len(),
    ensures
        engine_from(s, handle, i) matches Some(h) ==> exists|k: int|
            i <= k < s.len() && s[k] is Some && (#[trigger] s[k]->0) == (BufferSlot {
                client_handle: handle,
                engine_handle: h,
            }),
    decreases s.len() - i,
{
    if i < s.len() {
        if s[i] is Some && (s[i]->0).client_handle == handle {
            assert((s[i]->0) == (BufferSlot {
                client_handle: handle,
                engine_handle: (s[i]->0).engine_handle,
            }));
        } else {
            lemma_engine_from(s, handle, i + 1);
        }
    }
}

proof fn lemma_engine_with(
    s: Seq<Option<BufferSlot>>,
    slot: BufferSlot,
    handle: u32,
    i: int,
)
    requires
        0 <= i <= s.len(),
        first_free(s) < s.len(),
        handle != slot.client_handle || engine_from(s, handle, i) is None,
    ensures
        engine_from(s.update(first_free(s), Some(slot)), handle, i) == if handle
            == slot.client_handle && i <= first_free(s) {
            Some(slot.engine_handle)
        } else {
            engine_from(s, handle, i)
        },
    decreases s.len() - i,
{
    crate::slots::lemma_first_free(s, 0);
    if i < s.len() {
        lemma_engine_with(s, slot, handle, i + 1);
    }
}

/// A buffer under a handle that the client has for no other buffer is found under it, and
/// what every other handle leads to is as it was.
pub proof fn lemma_track_then_translate(
    s: Seq<Option<BufferSlot>>,
    client_handle: u32,
    engine_handle: u64,
)
    requires
        first_free(s) < s.len(),
        engine_from(s, client_handle, 0) is None,
    ensures
        tracked_apart(
            s,
            s.update(first_free(s), Some(BufferSlot { client_handle, engine_handle })),
            client_handle,
            engine_handle,
        ),
{
    let slot = BufferSlot { client_handle, engine_handle };
    let t = s.update(first_free(s), Some(slot));
    crate::slots::lemma_first_free(s, 0);
    lemma_engine_with(s, slot, client_handle, 0);
    assert forall|other: u32| other != client_handle implies #[trigger] engine_from(t, other, 0)
        == engine_from(s, other, 0) by {
        lemma_engine_with(s, slot, other, 0);
    }
}

/// Once the buffers were released, no handle leads anywhere, so no later client finds one.
pub proof fn lemma_release_forgets(n: nat, handle: u32)
    ensures
        engine_from(no_slots::<BufferSlot>(n), handle, 0) is None,
{
    lemma_engine_from(no_slots::<BufferSlot>(n), handle, 0);
}

/// The engine is asked to show only buffers that the server keeps.
pub proof fn lemma_shows_own_buffers(v: DisplayView, event: DisplayEvent)
    ensures
        match display_next(v, event).1 {
            DisplayAction::SetMode { buffer, .. } => keeps(v.buffers, buffer),
            DisplayAction::SetScanout { buffer, .. } => keeps(v.buffers, buffer),
            _ => true,
        },
{
    match event {
        DisplayEvent::Request(Some(DisplayRequest::SetMode { buffer, .. })) => {
            lemma_engine_from(v.buffers, buffer, 0);
        },
        DisplayEvent::Request(Some(DisplayRequest::SetScanout { buffer, .. })) => {
            lemma_engine_from(v.buffers, buffer, 0);
        },
        _ => {},
    }
}

/// Freeing the buffers of a released session ends: with each step one slot fewer is in
/// use, and the client is answered once none is.
pub proof fn lemma_drain_ends(v: DisplayView)
    ensures
        match drained(v).1 {
            DisplayAction::FreeBuffer(h) => keeps(v.buffers, h) && used_count(
                drained(v).0.buffers,
                v.buffers.len(),
            ) + 1 == used_count(v.buffers, v.buffers.len()),
            a => a == DisplayAction::Reply(DisplayResponse::Success) && forall|i: int|
                0 <= i < v.buffers.len() ==> (#[trigger] v.buffers[i]) is None,
        },
{
    crate::slots::lemma_first_used(v.buffers, 0);
    let i = first_used(v.buffers);
    if i < v.buffers.len() {
        crate::slots::lemma_used_count_clear(v.buffers, i);
        assert((v.buffers[i]->0).engine_handle == (v.buffers[i]->0).engine_handle);
    }
}

// ---------------------------------------------------------------------------
// The client
// ---------------------------------------------------------------------------

/// The endpoint of a display server, and who waits for its answers.
pub struct DisplayClient {
    pub endpoint: u64,
    pub reply: u64,
}

impl DisplayClient {
    pub fn new(endpoint: u64, reply: u64) -> (r: Self)
        ensures
            r.endpoint == endpoint,
            r.reply == reply,
    {
        DisplayClient { endpoint, reply }
    }

    /// What to ask for the number of modes.
    pub fn list_modes(&self) -> (r: DisplayRequest)
        ensures
            r == DisplayRequest::ListModes,
    {
        DisplayRequest::ListModes
    }

    /// What to ask for a mode; the first one is preferred.
    pub fn get_mode(&self, index: u32) -> (r: DisplayRequest)
        ensures
            r == (DisplayRequest::GetMode { index }),
    {
        DisplayRequest::GetMode { index }
    }

    /// What to ask for a session.
    pub fn create_session(&self) -> (r: DisplayRequest)
        ensures
            r == DisplayRequest::CreateSession,
    {
        DisplayRequest::CreateSession
    }

    /// What to ask for a buffer.
    pub fn alloc_buffer(&self, session: u32, width: u32, height: u32, format: u32) -> (r:
        DisplayRequest)
        ensures
            r == (DisplayRequest::AllocBuffer { session, width, height, format }),
    {
        DisplayRequest::AllocBuffer { session, width, height, format }
    }

    /// What to ask to have a buffer shown in a mode.
    pub fn set_mode(&self, session: u32, mode_index: u32, buffer: u32) -> (r: DisplayRequest)
        ensures
            r == (DisplayRequest::SetMode { session, mode_index, buffer }),
    {
        DisplayRequest::SetMode { session, mode_index, buffer }
    }

    /// What to ask to have another buffer shown in the same mode.
    pub fn set_scanout(&self, session: u32, buffer: u32) -> (r: DisplayRequest)
        ensures
            r == (DisplayRequest::SetScanout { session, buffer }),
    {
        DisplayRequest::SetScanout { session, buffer }
    }

    /// What to ask to give the session up. The last buffer stays in sight.
    pub fn release_session(&self, session: u32) -> (r: DisplayRequest)
        ensures
            r == (DisplayRequest::ReleaseSession { session }),
    {
        DisplayRequest::ReleaseSession { session }
    }

    /// The buffer that was asked for, given the handle, the stride and the size that the
    /// answer holds.
    pub fn buffer(&self, answer: Result<(u32, u32, u32), DisplayError>) -> (r: Result<
        BufferInfo,
        DisplayError,
    >)
        ensures
            match answer {
                Ok(b) => r == Ok::<BufferInfo, DisplayError>(
                    BufferInfo { handle: b.0, stride: b.1, size: b.2 },
                ),
                Err(e) => r == Err::<BufferInfo, DisplayError>(e),
            },
    {
        match answer {
            Ok((handle, stride, size)) => Ok(BufferInfo { handle, stride, size }),
            Err(e) => Err(e),
        }
    }

    /// The request that carries an encoded message to the server.
    pub fn call(&self, words: Words) -> (r: Request)
        ensures
            r == (Request::Call { endpoint: self.endpoint, reply: self.reply, message: words }),
    {
        Request::Call { endpoint: self.endpoint, reply: self.reply, message: words }
    }

    /// The words of the server's answer.
    pub fn answer(&self, message: Message) -> (r: Result<Words, DisplayError>)
        ensures
            match message {
                Ok(w) => r == Ok::<Words, DisplayError>(w),
                Err(_) => r == Err::<Words, DisplayError>(DisplayError::IpcFailed),
            },
    {
        match message {
            Ok(w) => Ok(w),
            Err(_) => Err(DisplayError::IpcFailed),
        }
    }
}

// ---------------------------------------------------------------------------
// Laws of the conversation
// ---------------------------------------------------------------------------

/// A session that is asked for while none is open is opened under the next number, and the client
/// is told that number once the engine has agreed; where the engine does not, no session is open.
pub proof fn lemma_session_opened(v: DisplayView, e: DisplayError)
    requires
        v.stage is Idle,
        v.session.active is None,
    ensures
        ({
            let (a, first) = display_next(
                v,
                DisplayEvent::Request(Some(DisplayRequest::CreateSession)),
            );
            let (b, second) = display_next(a, DisplayEvent::Done(Ok(())));
            let (c, refused) = display_next(a, DisplayEvent::Done(Err(e)));
            &&& first == DisplayAction::CreateSession
            &&& second == DisplayAction::Reply(DisplayResponse::Session { id: v.session.next_id })
            &&& b.session.active == Some(v.session.next_id)
            &&& b.session.next_id != v.session.next_id
            &&& refused == DisplayAction::Reply(DisplayResponse::Failure(e))
            &&& c.session.active is None
            &&& c.session.next_id != v.session.next_id
        }),
{
}

/// A buffer that the session's client asks for is made with the size and format that it named,
/// handed over, and described to it; and what the client then asks to have shown under the handle
/// that it got is that buffer.
pub proof fn lemma_buffer_shown(
    v: DisplayView,
    session: u32,
    width: u32,
    height: u32,
    format: u32,
    handle: u64,
    stride: u32,
    size: u32,
    index: u32,
    mode_index: u32,
)
    requires
        v.stage is Idle,
        v.session.active == Some(session),
        first_free(v.buffers) < v.buffers.len(),
        engine_from(v.buffers, index, 0) is None,
    ensures
        ({
            let (a, first) = display_next(
                v,
                DisplayEvent::Request(
                    Some(DisplayRequest::AllocBuffer { session, width, height, format }),
                ),
            );
            let (b, second) = display_next(a, DisplayEvent::Buffer(Ok((handle, stride, size))));
            let (c, third) = display_next(b, DisplayEvent::Exported(Some(index as u64)));
            let (d, shown) = display_next(
                c,
                DisplayEvent::Request(
                    Some(DisplayRequest::SetMode { session, mode_index, buffer: index }),
                ),
            );
            let (_, moved) = display_next(
                c,
                DisplayEvent::Request(Some(DisplayRequest::SetScanout { session, buffer: index })),
            );
            let (_, done) = display_next(d, DisplayEvent::Done(Ok(())));
            &&& first == (DisplayAction::AllocBuffer { session, width, height, format })
            &&& second == DisplayAction::Export(handle)
            &&& third == DisplayAction::Reply(
                DisplayResponse::Buffer { handle: index, stride, size },
            )
            &&& shown == (DisplayAction::SetMode { session, mode_index, buffer: handle })
            &&& moved == (DisplayAction::SetScanout { session, buffer: handle })
            &&& done == DisplayAction::Reply(DisplayResponse::Success)
        }),
{
    lemma_track_then_translate(v.buffers, index, handle);
}

/// What cannot be had or shown is refused with what was wrong: a second session, a buffer that
/// the client does not have, a mode that there is not, and whatever the engine says.
pub proof fn lemma_display_refuses(
    v: DisplayView,
    session: u32,
    buffer: u32,
    mode_index: u32,
    handle: u64,
    stride: u32,
    size: u32,
    e: DisplayError,
)
    ensures
        v.stage is Idle && v.session.active is Some ==> display_next(
            v,
            DisplayEvent::Request(Some(DisplayRequest::CreateSession)),
        ) == (v, DisplayAction::Reply(DisplayResponse::Failure(DisplayError::SessionBusy))),
        v.stage is Idle && v.session.active == Some(session) && engine_from(v.buffers, buffer, 0)
            is None ==> {
            &&& display_next(
                v,
                DisplayEvent::Request(
                    Some(DisplayRequest::SetMode { session, mode_index, buffer }),
                ),
            ).1 == DisplayAction::Reply(DisplayResponse::Failure(DisplayError::InvalidBuffer))
            &&& display_next(
                v,
                DisplayEvent::Request(Some(DisplayRequest::SetScanout { session, buffer })),
            ).1 == DisplayAction::Reply(DisplayResponse::Failure(DisplayError::InvalidBuffer))
        },
        v.stage is Describing ==> display_next(v, DisplayEvent::Mode(None)).1
            == DisplayAction::Reply(DisplayResponse::Failure(DisplayError::InvalidMode)),
        v.stage is Showing ==> display_next(v, DisplayEvent::Done(Err(e))).1
            == DisplayAction::Reply(DisplayResponse::Failure(e)),
        v.stage is Allocating ==> display_next(v, DisplayEvent::Buffer(Err(e))).1
            == DisplayAction::Reply(DisplayResponse::Failure(e)),
        v.stage == (DisplayStage::Exporting { handle, stride, size }) ==> ({
            let (a, first) = display_next(v, DisplayEvent::Exported(None));
            first == DisplayAction::FreeBuffer(handle) && display_next(a, DisplayEvent::Freed).1
                == DisplayAction::Reply(DisplayResponse::Failure(DisplayError::AllocFailed))
        }),
        v.stage is Idle ==> display_next(v, DisplayEvent::Request(None)).1 == DisplayAction::Reply(
            DisplayResponse::Failure(DisplayError::UnknownCommand),
        ),
{
}

/// What the engine says of its modes is what the client is told.
pub proof fn lemma_modes_told(v: DisplayView, index: u32, n: u32, m: ModeInfo)
    requires
        v.stage is Idle,
    ensures
        ({
            let (a, first) = display_next(v, DisplayEvent::Request(Some(DisplayRequest::ListModes)));
            let (b, second) = display_next(
                v,
                DisplayEvent::Request(Some(DisplayRequest::GetMode { index })),
            );
            &&& first == DisplayAction::ModeCount
            &&& display_next(a, DisplayEvent::ModeCount(n)).1 == DisplayAction::Reply(
                DisplayResponse::ModeCount(n),
            )
            &&& second == DisplayAction::GetMode(index)
            &&& display_next(b, DisplayEvent::Mode(Some(m))).1 == DisplayAction::Reply(
                DisplayResponse::Mode(m),
            )
        }),
{
}

/// A session that its client gives up is released by the engine; then its buffers are freed, the
/// first of those left each time, and only when none is left is the client told.
pub proof fn lemma_session_released(v: DisplayView, session: u32, i: int)
    requires
        v.stage is Idle,
        v.session.active == Some(session),
        0 <= i < v.buffers.len(),
        v.buffers[i] is Some,
        forall|j: int| 0 <= j < i ==> (#[trigger] v.buffers[j]) is None,
    ensures
        ({
            let (a, first) = display_next(
                v,
                DisplayEvent::Request(Some(DisplayRequest::ReleaseSession { session })),
            );
            let (b, second) = display_next(a, DisplayEvent::Done(Ok(())));
            &&& first == DisplayAction::ReleaseSession(session)
            &&& second == DisplayAction::FreeBuffer((v.buffers[i]->0).engine_handle)
            &&& b.session.active is None
            &&& b.buffers == v.buffers.update(i, None)
            &&& b.stage is Draining
        }),
{
    crate::slots::lemma_first_used(v.buffers, 0);
}

/// The handles of the buffers are those of the slots in use, one each.
pub proof fn lemma_engine_handles(s: Seq<Option<BufferSlot>>, n: nat, h: u64)
    requires
        n <= s.len(),
    ensures
        engine_handles(s, n).len() == used_count(s, n),
        engine_handles(s, n).contains(h) <==> exists|i: int|
            0 <= i < n && (#[trigger] s[i]) is Some && (s[i]->0).engine_handle == h,
    decreases n,
{
    if n > 0 {
        let m = (n - 1) as nat;
        lemma_engine_handles(s, m, h);
        let head = engine_handles(s, m);
        let all = engine_handles(s, n);
        if let Some(b) = s[m as int] {
            assert(all[all.len() - 1] == b.engine_handle);
        }
        if head.contains(h) {
            let k = choose|k: int| 0 <= k < head.len() && head[k] == h;
            assert(all[k] == h);
        }
        if all.contains(h) {
            let k = choose|k: int| 0 <= k < all.len() && all[k] == h;
            if k < head.len() {
                assert(head[k] == h);
            } else {
                assert(s[m as int] is Some);
            }
        }
    } else {
        assert(!engine_handles(s, n).contains(h));
    }
}

/// Session numbers count up by one, from the largest to zero.
pub proof fn lemma_next_number(id: u32)
    ensures
        next_number(id) as int == (id + 1) % 0x1_0000_0000,
{
}

} // verus!
