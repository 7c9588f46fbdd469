//! How the POSIX server starts: it loads a program, builds its stack and spawns it.

use crate::handle::{EndpointHandle, PageSetHandle, ReplyHandle};
use crate::syscall::{MapAttribute, Message, Reply, Request, SyscallError, Words};
use crate::virtual_memory::PAGE_SIZE;
use vstd::prelude::*;

verus! {

/// The pages of the program's stack.
pub const STACK_PAGES: u64 = 4;

/// The pages of addresses through which the program's pages are filled.
pub const TEMP_PAGES: u64 = 128;

/// What the server prints while it starts.
#[derive(Clone, Copy, Debug, PartialEq, Eq, Structural)]
pub enum BootText {
    Starting,
    Bootstrapped,
    Spawning,
    Spawned,
    ReplyFailed,
    CallFailed,
    ParseFailed,
    LayoutFailed,
    ScratchFailed,
    ArrayAllocFailed,
    ArrayMapFailed,
    PlanFailed,
    SegmentAllocFailed,
    SegmentMapFailed,
    StackAllocFailed,
    StackMapFailed,
    StackLayoutFailed,
    EndpointAllocFailed,
    EndpointFailed,
    SpawnFailed,
    Panic,
}

/// The words of a text.
pub open spec fn boot_words(t: BootText) -> Seq<char> {
    match t {
        BootText::Starting => "posix-server: starting\n"@,
        BootText::Bootstrapped => "[BOOTSTRAP] posix-server\n"@,
        BootText::Spawning => "posix-server: spawning posix-hello...\n"@,
        BootText::Spawned => "posix-server: posix-hello spawned OK\n"@,
        BootText::ReplyFailed => "posix: reply alloc FAILED\n"@,
        BootText::CallFailed => "posix: bootstrap call FAILED\n"@,
        BootText::ParseFailed => "posix: ELF parse FAILED\n"@,
        BootText::LayoutFailed => "posix: ELF layout overlaps stack/mmap or overflows\n"@,
        BootText::ScratchFailed => "posix: scratch alloc FAILED\n"@,
        BootText::ArrayAllocFailed => "posix: map array alloc FAILED\n"@,
        BootText::ArrayMapFailed => "posix: map array FAILED\n"@,
        BootText::PlanFailed => "posix: elf load plan FAILED\n"@,
        BootText::SegmentAllocFailed => "posix: seg alloc FAILED\n"@,
        BootText::SegmentMapFailed => "posix: seg map FAILED\n"@,
        BootText::StackAllocFailed => "posix: stack alloc FAILED\n"@,
        BootText::StackMapFailed => "posix: stack map FAILED\n"@,
        BootText::StackLayoutFailed => "posix: stack layout FAILED\n"@,
        BootText::EndpointAllocFailed => "posix: ep alloc FAILED\n"@,
        BootText::EndpointFailed => "posix: ep create FAILED\n"@,
        BootText::SpawnFailed => "posix-server: spawn FAILED\n"@,
        BootText::Panic => "posix-server: PANIC\n"@,
    }
}

impl BootText {
    /// The words of the text.
    pub fn words(self) -> (r: &'static str)
        ensures
            r@ == boot_words(self),
    {
        match self {
            BootText::Starting => "posix-server: starting\n",
            BootText::Bootstrapped => "[BOOTSTRAP] posix-server\n",
            BootText::Spawning => "posix-server: spawning posix-hello...\n",
            BootText::Spawned => "posix-server: posix-hello spawned OK\n",
            BootText::ReplyFailed => "posix: reply alloc FAILED\n",
            BootText::CallFailed => "posix: bootstrap call FAILED\n",
            BootText::ParseFailed => "posix: ELF parse FAILED\n",
            BootText::LayoutFailed => "posix: ELF layout overlaps stack/mmap or overflows\n",
            BootText::ScratchFailed => "posix: scratch alloc FAILED\n",
            BootText::ArrayAllocFailed => "posix: map array alloc FAILED\n",
            BootText::ArrayMapFailed => "posix: map array FAILED\n",
            BootText::PlanFailed => "posix: elf load plan FAILED\n",
            BootText::SegmentAllocFailed => "posix: seg alloc FAILED\n",
            BootText::SegmentMapFailed => "posix: seg map FAILED\n",
            BootText::StackAllocFailed => "posix: stack alloc FAILED\n",
            BootText::StackMapFailed => "posix: stack map FAILED\n",
            BootText::StackLayoutFailed => "posix: stack layout FAILED\n",
            BootText::EndpointAllocFailed => "posix: ep alloc FAILED\n",
            BootText::EndpointFailed => "posix: ep create FAILED\n",
            BootText::SpawnFailed => "posix-server: spawn FAILED\n",
            BootText::Panic => "posix-server: PANIC\n",
        }
    }
}

// ---------------------------------------------------------------------------
// The program's pages
// ---------------------------------------------------------------------------

/// A page of a program: where it belongs, and which bytes of the file it starts out with.
#[derive(Clone, Copy, Debug, PartialEq, Eq, Structural)]
pub struct ElfLoadEntry {
    pub page_va: u64,
    pub src_start: u64,
    pub src_end: u64,
    pub in_page_offset: u64,
    pub executable: bool,
}

/// A page as the kernel is to map it into a process.
#[derive(Clone, Copy, Debug, PartialEq, Eq, Structural)]
pub struct ProcessMapping {
    pub virt_addr: u64,
    pub pageset_id: u64,
    pub page_index: u64,
    pub flags: u64,
}

/// What the loading of a program does next.
#[derive(Clone, Copy, Debug, PartialEq, Eq, Structural)]
pub enum LoadAction {
    Kernel(Request),
    /// Copy bytes of the file to an address.
    Copy { from: u64, to: u64, bytes: u64 },
    /// Every page is filled.
    Finished,
    Failed(BootText),
}

/// What the loading waits for.
#[derive(Clone, Copy, Debug, PartialEq, Eq, Structural)]
pub enum LoadStage {
    Allocating,
    Mapping(u64),
    Zeroing(u64),
    Copying(u64),
    Over,
}

/// The state of a loading, as plain values.
pub struct LoadView {
    pub entries: Seq<ElfLoadEntry>,
    pub temp_base: u64,
    /// The flag of pages that hold code.
    pub executable_flag: u64,
    pub mappings: Seq<ProcessMapping>,
    pub stage: LoadStage,
}

/// How the kernel is to map a page that stands in the given page set.
pub open spec fn mapping_of(e: ElfLoadEntry, pageset: u64, executable_flag: u64) -> ProcessMapping {
    ProcessMapping {
        virt_addr: e.page_va,
        pageset_id: pageset,
        page_index: 0,
        flags: if e.executable {
            executable_flag
        } else {
            0
        },
    }
}

impl LoadView {
    /// The address through which the current page is filled.
    pub open spec fn temp_va(self) -> int {
        self.temp_base + self.mappings.len() * PAGE_SIZE
    }

    /// The pages that are filled so far stand in the order of the plan, and the addresses
    /// suffice for all of them.
    pub open spec fn valid(self) -> bool {
        &&& self.temp_base + self.entries.len() * PAGE_SIZE <= u64::MAX
        &&& forall|i: int|
            0 <= i < self.entries.len() ==> (#[trigger] self.entries[i]).in_page_offset < PAGE_SIZE
        &&& self.mappings.len() <= self.entries.len()
        &&& self.stage !is Over ==> self.mappings.len() < self.entries.len()
        &&& forall|i: int|
            0 <= i < self.mappings.len() ==> #[trigger] self.mappings[i] == mapping_of(
                self.entries[i],
                self.mappings[i].pageset_id,
                self.executable_flag,
            )
    }
}

/// The loading goes on with the next page of the plan.
pub open spec fn load_page(v: LoadView) -> (LoadView, LoadAction) {
    if v.mappings.len() < v.entries.len() {
        (
            LoadView { stage: LoadStage::Allocating, ..v },
            LoadAction::Kernel(Request::AllocPages { count: 1 }),
        )
    } else {
        (LoadView { stage: LoadStage::Over, ..v }, LoadAction::Finished)
    }
}

/// The page is filled.
pub open spec fn load_filled(v: LoadView, pageset: u64) -> (LoadView, LoadAction) {
    load_page(
        LoadView {
            mappings: v.mappings.push(
                mapping_of(v.entries[v.mappings.len() as int], pageset, v.executable_flag),
            ),
            ..v
        },
    )
}

/// How the loading goes on with an answer: each page is allocated, mapped, cleared and, if
/// the file has bytes for it, filled with them.
pub open spec fn load_next(v: LoadView, reply: Reply) -> (LoadView, LoadAction) {
    let e = v.entries[v.mappings.len() as int];
    let temp_va = v.temp_va() as u64;
    match v.stage {
        LoadStage::Allocating => match reply {
            Ok(ps) => (
                LoadView { stage: LoadStage::Mapping(ps), ..v },
                LoadAction::Kernel(
                    Request::MapPages {
                        pageset: ps,
                        va: temp_va,
                        attribute: MapAttribute::Normal,
                    },
                ),
            ),
            Err(_) => (
                LoadView { stage: LoadStage::Over, ..v },
                LoadAction::Failed(BootText::SegmentAllocFailed),
            ),
        },
        LoadStage::Mapping(ps) => match reply {
            Ok(_) => (
                LoadView { stage: LoadStage::Zeroing(ps), ..v },
                LoadAction::Kernel(Request::Zero { va: temp_va, bytes: PAGE_SIZE }),
            ),
            Err(_) => (
                LoadView { stage: LoadStage::Over, ..v },
                LoadAction::Failed(BootText::SegmentMapFailed),
            ),
        },
        LoadStage::Zeroing(ps) => if e.src_end > e.src_start {
            (
                LoadView { stage: LoadStage::Copying(ps), ..v },
                LoadAction::Copy {
                    from: e.src_start,
                    to: (temp_va + e.in_page_offset) as u64,
                    bytes: (e.src_end - e.src_start) as u64,
                },
            )
        } else {
            load_filled(v, ps)
        },
        LoadStage::Copying(ps) => load_filled(v, ps),
        LoadStage::Over => (v, LoadAction::Finished),
    }
}

/// The loading of a program's pages.
pub struct SegmentLoad {
    entries: Vec<ElfLoadEntry>,
    temp_base: u64,
    executable_flag: u64,
    mappings: Vec<ProcessMapping>,
    stage: LoadStage,
}

/// Starts to load the pages of a plan through the addresses from `temp_base` on.
pub fn load_elf_segments(entries: Vec<ElfLoadEntry>, temp_base: u64, executable_flag: u64) -> (r: (
    SegmentLoad,
    LoadAction,
))
    requires
        temp_base + entries@.len() * PAGE_SIZE <= u64::MAX,
        forall|i: int|
            0 <= i < entries@.len() ==> (#[trigger] entries@[i]).in_page_offset < PAGE_SIZE,
    ensures
        r.0@.valid(),
        (r.0@, r.1) == load_page(
            LoadView {
                entries: entries@,
                temp_base,
                executable_flag,
                mappings: Seq::empty(),
                stage: LoadStage::Over,
            },
        ),
{
    let mut load = SegmentLoad {
        entries,
        temp_base,
        executable_flag,
        mappings: Vec::new(),
        stage: LoadStage::Over,
    };
    let action = load.page();
    (load, action)
}

impl SegmentLoad {
    pub closed spec fn view(&self) -> LoadView {
        LoadView {
            entries: self.entries@,
            temp_base: self.temp_base,
            executable_flag: self.executable_flag,
            mappings: self.mappings@,
            stage: self.stage,
        }
    }

    /// How the kernel is to map the pages that are filled.
    pub fn mappings(&self) -> (r: &Vec<ProcessMapping>)
        ensures
            r@ == self@.mappings,
    {
        &self.mappings
    }

    fn page(&mut self) -> (a: LoadAction)
        ensures
            (final(self)@, a) == load_page(old(self)@),
    {
        if self.mappings.len() < self.entries.len() {
            self.stage = LoadStage::Allocating;
            LoadAction::Kernel(Request::AllocPages { count: 1 })
        } else {
            self.stage = LoadStage::Over;
            LoadAction::Finished
        }
    }

    fn filled(&mut self, pageset: u64) -> (a: LoadAction)
        requires
            old(self)@.valid(),
            old(self)@.stage !is Over,
        ensures
            final(self)@.valid(),
            (final(self)@, a) == load_filled(old(self)@, pageset),
    {
        let e = self.entries[self.mappings.len()];
        let flags = if e.executable {
            self.executable_flag
        } else {
            0
        };
        self.mappings.push(
            ProcessMapping {
                virt_addr: e.page_va,
                pageset_id: pageset,
                page_index: 0,
                flags,
            },
        );
        self.page()
    }

    /// Goes on with an answer; what comes of clearing and copying is not looked at.
    pub fn apply_elf_load_entry(&mut self, reply: Reply) -> (a: LoadAction)
        requires
            old(self)@.valid(),
            old(self)@.stage !is Over,
        ensures
            final(self)@.valid(),
            (final(self)@, a) == load_next(old(self)@, reply),
    {
        let e = self.entries[self.mappings.len()];
        let temp_va = self.temp_base + self.mappings.len() as u64 * PAGE_SIZE;
        match self.stage {
            LoadStage::Allocating => match reply {
                Ok(ps) => {
                    self.stage = LoadStage::Mapping(ps);
                    LoadAction::Kernel(
                        Request::MapPages {
                            pageset: ps,
                            va: temp_va,
                            attribute: MapAttribute::Normal,
                        },
                    )
                },
                Err(_) => {
                    self.stage = LoadStage::Over;
                    LoadAction::Failed(BootText::SegmentAllocFailed)
                },
            },
            LoadStage::Mapping(ps) => match reply {
                Ok(_) => {
                    self.stage = LoadStage::Zeroing(ps);
                    LoadAction::Kernel(Request::Zero { va: temp_va, bytes: PAGE_SIZE })
                },
                Err(_) => {
                    self.stage = LoadStage::Over;
                    LoadAction::Failed(BootText::SegmentMapFailed)
                },
            },
            LoadStage::Zeroing(ps) => {
                if e.src_end > e.src_start {
                    self.stage = LoadStage::Copying(ps);
                    LoadAction::Copy {
                        from: e.src_start,
                        to: temp_va + e.in_page_offset,
                        bytes: e.src_end - e.src_start,
                    }
                } else {
                    self.filled(ps)
                }
            },
            LoadStage::Copying(ps) => self.filled(ps),
            LoadStage::Over => LoadAction::Finished,
        }
    }
}

/// A loading that finishes has one mapping for each page of the plan, in its order.
pub proof fn lemma_load_complete(v: LoadView, reply: Reply)
    requires
        v.valid(),
        v.stage !is Over,
        load_next(v, reply).1 is Finished,
    ensures
        load_next(v, reply).0.mappings.len() == v.entries.len(),
        load_next(v, reply).0.valid(),
{
}

// ---------------------------------------------------------------------------
// The start
// ---------------------------------------------------------------------------

/// Where the program has the shared buffer, its heap and its mappings.
#[derive(Clone, Copy, Debug, PartialEq, Eq, Structural)]
pub struct VaLayout {
    pub child_shared_va: u64,
    pub brk_base: u64,
    pub mmap_base: u64,
}

/// What the start does next.
#[derive(Clone, Copy, Debug, PartialEq, Eq, Structural)]
pub enum BootAction {
    Print(BootText),
    Kernel(Request),
    AllocVa { pages: u64 },
    /// Read the program's headers.
    ParseElf,
    /// Lay the program's addresses out.
    LayOut { stack_pages: u64 },
    /// Plan and load the program's pages.
    LoadSegments { array_va: u64, temp_base_va: u64 },
    /// Write the program's arguments into the top page of its stack.
    WriteStack { layout_va: u64 },
    CreateProcess { array_va: u64, mappings: u64, stack: u64, scratch: u64, endpoint: u64 },
    /// Print the text and exit.
    Halt(BootText),
    /// Serve the program.
    Serve,
}

/// What came of it.
#[derive(Clone, Copy, Debug)]
pub enum BootEvent {
    Done,
    Kernel(Reply),
    Message(Message),
    Va(Option<u64>),
    /// Whether the headers could be read, or the stack written.
    Checked(bool),
    Layout(Option<VaLayout>),
    /// The number of mappings, or why there are none.
    Loaded(Result<u64, BootText>),
}

/// What the start waits for.
#[derive(Clone, Copy, Debug, PartialEq, Eq, Structural)]
pub enum BootStage {
    Starting,
    ReplyPage,
    ReplyObject,
    Bootstrapping,
    Announcing,
    Parsing,
    LayingOut,
    ArrayAddress,
    TempAddress,
    ScratchPage,
    ArrayPage,
    ArrayMap,
    Loading,
    StackPages,
    StackAddress,
    StackMap,
    StackZero,
    StackLayout,
    EndpointPage,
    EndpointObject,
    Spawning,
    Creating,
    Spawned,
    Over,
}

/// The start of the server: what it has so far, and what it waits for.
#[derive(Clone, Copy, Debug, PartialEq, Eq, Structural)]
pub struct PosixBoot {
    pub stage: BootStage,
    pub reply: ReplyHandle,
    pub fs_endpoint: EndpointHandle,
    pub layout: VaLayout,
    pub array_va: u64,
    pub temp_base_va: u64,
    pub scratch: PageSetHandle,
    pub array: PageSetHandle,
    pub mappings: u64,
    pub stack: PageSetHandle,
    pub stack_va: u64,
    /// Where the program's calls arrive.
    pub endpoint: EndpointHandle,
}

pub open spec fn boot_wait(b: PosixBoot, stage: BootStage, a: BootAction) -> (
    PosixBoot,
    BootAction,
) {
    (PosixBoot { stage, ..b }, a)
}

pub open spec fn boot_halt(b: PosixBoot, t: BootText) -> (PosixBoot, BootAction) {
    boot_wait(b, BootStage::Over, BootAction::Halt(t))
}

/// The server asks the kernel.
pub open spec fn boot_ask(b: PosixBoot, stage: BootStage, r: Request) -> (PosixBoot, BootAction) {
    boot_wait(b, stage, BootAction::Kernel(r))
}

/// The server asks the kernel for pages.
pub open spec fn boot_pages(b: PosixBoot, stage: BootStage, count: u64) -> (PosixBoot, BootAction) {
    boot_ask(b, stage, Request::AllocPages { count })
}

/// How the start goes on with a page or another object of the kernel.
pub open spec fn boot_object(b: PosixBoot, reply: Reply) -> (PosixBoot, BootAction) {
    match (b.stage, reply) {
        (BootStage::ReplyPage, Ok(ps)) => boot_ask(
            b,
            BootStage::ReplyObject,
            Request::CreateReply { pageset: ps },
        ),
        (BootStage::ReplyPage, _) => boot_halt(b, BootText::ReplyFailed),
        (BootStage::ReplyObject, Ok(h)) => boot_ask(
            PosixBoot { reply: ReplyHandle(h), ..b },
            BootStage::Bootstrapping,
            Request::Call { endpoint: 0, reply: h, message: Words(0, 0, 0, 0) },
        ),
        (BootStage::ReplyObject, _) => boot_halt(b, BootText::ReplyFailed),
        (BootStage::ScratchPage, Ok(ps)) => boot_pages(
            PosixBoot { scratch: PageSetHandle(ps), ..b },
            BootStage::ArrayPage,
            1,
        ),
        (BootStage::ScratchPage, _) => boot_halt(b, BootText::ScratchFailed),
        (BootStage::ArrayPage, Ok(ps)) => boot_ask(
            PosixBoot { array: PageSetHandle(ps), ..b },
            BootStage::ArrayMap,
            Request::MapPages { pageset: ps, va: b.array_va, attribute: MapAttribute::Normal },
        ),
        (BootStage::ArrayPage, _) => boot_halt(b, BootText::ArrayAllocFailed),
        (BootStage::ArrayMap, Ok(_)) => boot_wait(
            b,
            BootStage::Loading,
            BootAction::LoadSegments { array_va: b.array_va, temp_base_va: b.temp_base_va },
        ),
        (BootStage::ArrayMap, _) => boot_halt(b, BootText::ArrayMapFailed),
        (BootStage::StackPages, Ok(ps)) => boot_wait(
            PosixBoot { stack: PageSetHandle(ps), ..b },
            BootStage::StackAddress,
            BootAction::AllocVa { pages: STACK_PAGES },
        ),
        (BootStage::StackPages, _) => boot_halt(b, BootText::StackAllocFailed),
        (BootStage::StackMap, Ok(_)) => boot_ask(
            b,
            BootStage::StackZero,
            Request::Zero { va: b.stack_va, bytes: (STACK_PAGES * PAGE_SIZE) as u64 },
        ),
        (BootStage::StackMap, _) => boot_halt(b, BootText::StackMapFailed),
        (BootStage::StackZero, _) => boot_wait(
            b,
            BootStage::StackLayout,
            BootAction::WriteStack {
                layout_va: (b.stack_va + (STACK_PAGES - 1) * PAGE_SIZE) as u64,
            },
        ),
        (BootStage::EndpointPage, Ok(ps)) => boot_ask(
            b,
            BootStage::EndpointObject,
            Request::CreateEndpoint { pageset: ps },
        ),
        (BootStage::EndpointPage, _) => boot_halt(b, BootText::EndpointAllocFailed),
        (BootStage::EndpointObject, Ok(h)) => boot_wait(
            PosixBoot { endpoint: EndpointHandle(h), ..b },
            BootStage::Spawning,
            BootAction::Print(BootText::Spawning),
        ),
        (BootStage::EndpointObject, _) => boot_halt(b, BootText::EndpointFailed),
        (BootStage::Creating, Ok(_)) => boot_wait(
            b,
            BootStage::Spawned,
            BootAction::Print(BootText::Spawned),
        ),
        (BootStage::Creating, _) => boot_halt(b, BootText::SpawnFailed),
        _ => boot_halt(b, BootText::Panic),
    }
}

/// How the start goes on with an event.
pub open spec fn boot_next(b: PosixBoot, event: BootEvent) -> (PosixBoot, BootAction) {
    match (b.stage, event) {
        (_, BootEvent::Kernel(reply)) => boot_object(b, reply),
        (BootStage::Starting, _) => boot_pages(b, BootStage::ReplyPage, 1),
        (BootStage::Bootstrapping, BootEvent::Message(Ok(w))) => boot_wait(
            PosixBoot { fs_endpoint: EndpointHandle(w.0), ..b },
            BootStage::Announcing,
            BootAction::Print(BootText::Bootstrapped),
        ),
        (BootStage::Bootstrapping, _) => boot_halt(b, BootText::CallFailed),
        (BootStage::Announcing, _) => boot_wait(b, BootStage::Parsing, BootAction::ParseElf),
        (BootStage::Parsing, BootEvent::Checked(true)) => boot_wait(
            b,
            BootStage::LayingOut,
            BootAction::LayOut { stack_pages: STACK_PAGES },
        ),
        (BootStage::Parsing, _) => boot_halt(b, BootText::ParseFailed),
        (BootStage::LayingOut, BootEvent::Layout(Some(layout))) => boot_wait(
            PosixBoot { layout, ..b },
            BootStage::ArrayAddress,
            BootAction::AllocVa { pages: 1 },
        ),
        (BootStage::LayingOut, _) => boot_halt(b, BootText::LayoutFailed),
        (BootStage::ArrayAddress, BootEvent::Va(Some(va))) => boot_wait(
            PosixBoot { array_va: va, ..b },
            BootStage::TempAddress,
            BootAction::AllocVa { pages: TEMP_PAGES },
        ),
        (BootStage::TempAddress, BootEvent::Va(Some(va))) => boot_pages(
            PosixBoot { temp_base_va: va, ..b },
            BootStage::ScratchPage,
            1,
        ),
        (BootStage::Loading, BootEvent::Loaded(Ok(n))) => boot_pages(
            PosixBoot { mappings: n, ..b },
            BootStage::StackPages,
            STACK_PAGES,
        ),
        (BootStage::Loading, BootEvent::Loaded(Err(t))) => boot_halt(b, t),
        (BootStage::StackAddress, BootEvent::Va(Some(va))) => boot_ask(
            PosixBoot { stack_va: va, ..b },
            BootStage::StackMap,
            Request::MapPages { pageset: b.stack.0, va, attribute: MapAttribute::Normal },
        ),
        (BootStage::StackLayout, BootEvent::Checked(true)) => boot_pages(
            b,
            BootStage::EndpointPage,
            1,
        ),
        (BootStage::StackLayout, _) => boot_halt(b, BootText::StackLayoutFailed),
        (BootStage::Spawning, _) => boot_wait(
            b,
            BootStage::Creating,
            BootAction::CreateProcess {
                array_va: b.array_va,
                mappings: b.mappings,
                stack: b.stack.0,
                scratch: b.scratch.0,
                endpoint: b.endpoint.0,
            },
        ),
        (BootStage::Spawned, _) => boot_wait(b, BootStage::Over, BootAction::Serve),
        _ => boot_halt(b, BootText::Panic),
    }
}

/// Whether an event is one that the start waits for.
pub open spec fn boot_awaits(b: PosixBoot, event: BootEvent) -> bool {
    match b.stage {
        BootStage::Over => false,
        BootStage::Starting => event is Done,
        BootStage::Announcing => event is Done,
        BootStage::Spawning => event is Done,
        BootStage::Spawned => event is Done,
        BootStage::Bootstrapping => event is Message,
        BootStage::Parsing => event is Checked,
        BootStage::StackLayout => event is Checked,
        BootStage::LayingOut => event is Layout,
        BootStage::ArrayAddress => event is Va,
        BootStage::TempAddress => event is Va,
        BootStage::StackAddress => match event {
            BootEvent::Va(Some(va)) => va + STACK_PAGES * PAGE_SIZE <= u64::MAX,
            _ => event is Va,
        },
        BootStage::Loading => event is Loaded,
        _ => event is Kernel,
    }
}

/// Whether the start is one that the server can be in: the addresses of a stack end below
/// the last address.
pub open spec fn boot_valid(b: PosixBoot) -> bool {
    b.stack_va + STACK_PAGES * PAGE_SIZE <= u64::MAX
}

/// A start that has nothing so far: no handle, no address and no mapping.
pub open spec fn boot_start() -> PosixBoot {
    PosixBoot {
        stage: BootStage::Starting,
        reply: ReplyHandle(0),
        fs_endpoint: EndpointHandle(0),
        layout: VaLayout { child_shared_va: 0, brk_base: 0, mmap_base: 0 },
        array_va: 0,
        temp_base_va: 0,
        scratch: PageSetHandle(0),
        array: PageSetHandle(0),
        mappings: 0,
        stack: PageSetHandle(0),
        stack_va: 0,
        endpoint: EndpointHandle(0),
    }
}

/// Starts the server.
pub fn posix_boot() -> (r: (PosixBoot, BootAction))
    ensures
        r == (boot_start(), BootAction::Print(BootText::Starting)),
        boot_valid(r.0),
{
    let b = PosixBoot {
        stage: BootStage::Starting,
        reply: ReplyHandle(0),
        fs_endpoint: EndpointHandle(0),
        layout: VaLayout { child_shared_va: 0, brk_base: 0, mmap_base: 0 },
        array_va: 0,
        temp_base_va: 0,
        scratch: PageSetHandle(0),
        array: PageSetHandle(0),
        mappings: 0,
        stack: PageSetHandle(0),
        stack_va: 0,
        endpoint: EndpointHandle(0),
    };
    (b, BootAction::Print(BootText::Starting))
}

impl PosixBoot {
    fn wait(&mut self, stage: BootStage, action: BootAction) -> (a: BootAction)
        ensures
            (*final(self), a) == boot_wait(*old(self), stage, action),
    {
        self.stage = stage;
        action
    }

    fn halt(&mut self, t: BootText) -> (a: BootAction)
        ensures
            (*final(self), a) == boot_halt(*old(self), t),
    {
        self.wait(BootStage::Over, BootAction::Halt(t))
    }

    fn ask(&mut self, stage: BootStage, r: Request) -> (a: BootAction)
        ensures
            (*final(self), a) == boot_ask(*old(self), stage, r),
    {
        self.wait(stage, BootAction::Kernel(r))
    }

    fn pages(&mut self, stage: BootStage, count: u64) -> (a: BootAction)
        ensures
            (*final(self), a) == boot_pages(*old(self), stage, count),
    {
        self.ask(stage, Request::AllocPages { count })
    }

    fn object(&mut self, reply: Reply) -> (a: BootAction)
        requires
            boot_valid(*old(self)),
        ensures
            boot_valid(*final(self)),
            (*final(self), a) == boot_object(*old(self), reply),
    {
        match self.stage {
            BootStage::ReplyPage => match reply {
                Ok(ps) => self.ask(BootStage::ReplyObject, Request::CreateReply { pageset: ps }),
                Err(_) => self.halt(BootText::ReplyFailed),
            },
            BootStage::ReplyObject => match reply {
                Ok(h) => {
                    self.reply = ReplyHandle(h);
                    let endpoint = crate::handle::bootstrap_endpoint().0;
                    self.ask(
                        BootStage::Bootstrapping,
                        Request::Call { endpoint, reply: h, message: Words(0, 0, 0, 0) },
                    )
                },
                Err(_) => self.halt(BootText::ReplyFailed),
            },
            BootStage::ScratchPage => match reply {
                Ok(ps) => {
                    self.scratch = PageSetHandle(ps);
                    self.pages(BootStage::ArrayPage, 1)
                },
                Err(_) => self.halt(BootText::ScratchFailed),
            },
            BootStage::ArrayPage => match reply {
                Ok(ps) => {
                    self.array = PageSetHandle(ps);
                    let va = self.array_va;
                    self.ask(
                        BootStage::ArrayMap,
                        Request::MapPages { pageset: ps, va, attribute: MapAttribute::Normal },
                    )
                },
                Err(_) => self.halt(BootText::ArrayAllocFailed),
            },
            BootStage::ArrayMap => match reply {
                Ok(_) => {
                    let action = BootAction::LoadSegments {
                        array_va: self.array_va,
                        temp_base_va: self.temp_base_va,
                    };
                    self.wait(BootStage::Loading, action)
                },
                Err(_) => self.halt(BootText::ArrayMapFailed),
            },
            BootStage::StackPages => match reply {
                Ok(ps) => {
                    self.stack = PageSetHandle(ps);
                    self.wait(BootStage::StackAddress, BootAction::AllocVa { pages: STACK_PAGES })
                },
                Err(_) => self.halt(BootText::StackAllocFailed),
            },
            BootStage::StackMap => match reply {
                Ok(_) => {
                    let va = self.stack_va;
                    self.ask(
                        BootStage::StackZero,
                        Request::Zero { va, bytes: STACK_PAGES * PAGE_SIZE },
                    )
                },
                Err(_) => self.halt(BootText::StackMapFailed),
            },
            BootStage::StackZero => {
                let layout_va = self.stack_va + (STACK_PAGES - 1) * PAGE_SIZE;
                self.wait(BootStage::StackLayout, BootAction::WriteStack { layout_va })
            },
            BootStage::EndpointPage => match reply {
                Ok(ps) => self.ask(
                    BootStage::EndpointObject,
                    Request::CreateEndpoint { pageset: ps },
                ),
                Err(_) => self.halt(BootText::EndpointAllocFailed),
            },
            BootStage::EndpointObject => match reply {
                Ok(h) => {
                    self.endpoint = EndpointHandle(h);
                    self.wait(BootStage::Spawning, BootAction::Print(BootText::Spawning))
                },
                Err(_) => self.halt(BootText::EndpointFailed),
            },
            BootStage::Creating => match reply {
                Ok(_) => self.wait(BootStage::Spawned, BootAction::Print(BootText::Spawned)),
                Err(_) => self.halt(BootText::SpawnFailed),
            },
            _ => self.halt(BootText::Panic),
        }
    }

    /// What comes next, now that `event` has come.
    pub fn step(&mut self, event: BootEvent) -> (a: BootAction)
        requires
            boot_valid(*old(self)),
            boot_awaits(*old(self), event),
        ensures
            boot_valid(*final(self)),
            (*final(self), a) == boot_next(*old(self), event),
    {
        if let BootEvent::Kernel(reply) = event {
            return self.object(reply);
        }
        match self.stage {
            BootStage::Starting => self.pages(BootStage::ReplyPage, 1),
            BootStage::Bootstrapping => match event {
                BootEvent::Message(Ok(w)) => {
                    self.fs_endpoint = EndpointHandle(w.0);
                    self.wait(BootStage::Announcing, BootAction::Print(BootText::Bootstrapped))
                },
                _ => self.halt(BootText::CallFailed),
            },
            BootStage::Announcing => self.wait(BootStage::Parsing, BootAction::ParseElf),
            BootStage::Parsing => match event {
                BootEvent::Checked(true) => self.wait(
                    BootStage::LayingOut,
                    BootAction::LayOut { stack_pages: STACK_PAGES },
                ),
                _ => self.halt(BootText::ParseFailed),
            },
            BootStage::LayingOut => match event {
                BootEvent::Layout(Some(layout)) => {
                    self.layout = layout;
                    self.wait(BootStage::ArrayAddress, BootAction::AllocVa { pages: 1 })
                },
                _ => self.halt(BootText::LayoutFailed),
            },
            BootStage::ArrayAddress => match event {
                BootEvent::Va(Some(va)) => {
                    self.array_va = va;
                    self.wait(BootStage::TempAddress, BootAction::AllocVa { pages: TEMP_PAGES })
                },
                _ => self.halt(BootText::Panic),
            },
            BootStage::TempAddress => match event {
                BootEvent::Va(Some(va)) => {
                    self.temp_base_va = va;
                    self.pages(BootStage::ScratchPage, 1)
                },
                _ => self.halt(BootText::Panic),
            },
            BootStage::Loading => match event {
                BootEvent::Loaded(Ok(n)) => {
                    self.mappings = n;
                    self.pages(BootStage::StackPages, STACK_PAGES)
                },
                BootEvent::Loaded(Err(t)) => self.halt(t),
                _ => self.halt(BootText::Panic),
            },
            BootStage::StackAddress => match event {
                BootEvent::Va(Some(va)) => {
                    self.stack_va = va;
                    let pageset = self.stack.0;
                    self.ask(
                        BootStage::StackMap,
                        Request::MapPages { pageset, va, attribute: MapAttribute::Normal },
                    )
                },
                _ => self.halt(BootText::Panic),
            },
            BootStage::StackLayout => match event {
                BootEvent::Checked(true) => self.pages(BootStage::EndpointPage, 1),
                _ => self.halt(BootText::StackLayoutFailed),
            },
            BootStage::Spawning => {
                let action = BootAction::CreateProcess {
                    array_va: self.array_va,
                    mappings: self.mappings,
                    stack: self.stack.0,
                    scratch: self.scratch.0,
                    endpoint: self.endpoint.0,
                };
                self.wait(BootStage::Creating, action)
            },
            BootStage::Spawned => self.wait(BootStage::Over, BootAction::Serve),
            _ => self.halt(BootText::Panic),
        }
    }
}

// ---------------------------------------------------------------------------
// Laws of the runs
// ---------------------------------------------------------------------------

/// How one page of the plan is loaded: a page is allocated, mapped at an address of its own and
/// cleared; what the file holds for it is copied to its place in the page; and the page is then
/// noted under the address that the plan gives it, executable if and only if the plan says so.
pub proof fn lemma_page_loaded(v: LoadView, ps: u64, x: u64, y: u64, z: u64)
    requires
        v.valid(),
        v.stage == LoadStage::Allocating,
        v.entries[v.mappings.len() as int].src_end > v.entries[v.mappings.len() as int].src_start,
    ensures
        ({
            let k = v.mappings.len() as int;
            let e = v.entries[k];
            let at = (v.temp_base + k * 4096) as u64;
            let (a, first) = load_next(v, Ok(ps));
            let (b, second) = load_next(a, Ok(x));
            let (c, third) = load_next(b, Ok(y));
            let (d, _) = load_next(c, Ok(z));
            &&& first == LoadAction::Kernel(
                Request::MapPages { pageset: ps, va: at, attribute: MapAttribute::Normal },
            )
            &&& second == LoadAction::Kernel(Request::Zero { va: at, bytes: 4096 })
            &&& third == (LoadAction::Copy {
                from: e.src_start,
                to: (at + e.in_page_offset) as u64,
                bytes: (e.src_end - e.src_start) as u64,
            })
            &&& d.mappings.len() == k + 1
            &&& d.mappings[k].virt_addr == e.page_va
            &&& d.mappings[k].pageset_id == ps
            &&& d.mappings[k].page_index == 0
            &&& e.executable ==> d.mappings[k].flags == v.executable_flag
            &&& !e.executable ==> d.mappings[k].flags == 0
            &&& forall|i: int| 0 <= i < k ==> d.mappings[i] == v.mappings[i]
            &&& d.entries == v.entries
        }),
{
}

/// A page for which the file has nothing is only cleared.
pub proof fn lemma_empty_page_loaded(v: LoadView, ps: u64, x: u64, y: u64)
    requires
        v.valid(),
        v.stage == LoadStage::Allocating,
        v.entries[v.mappings.len() as int].src_end <= v.entries[v.mappings.len() as int].src_start,
    ensures
        ({
            let k = v.mappings.len() as int;
            let e = v.entries[k];
            let (a, _) = load_next(v, Ok(ps));
            let (b, second) = load_next(a, Ok(x));
            let (c, third) = load_next(b, Ok(y));
            &&& second == LoadAction::Kernel(
                Request::Zero { va: (v.temp_base + k * 4096) as u64, bytes: 4096 },
            )
            &&& !(third is Copy)
            &&& c.mappings.len() == k + 1
            &&& c.mappings[k].virt_addr == e.page_va
            &&& c.mappings[k].pageset_id == ps
        }),
{
}

/// After a page the loading asks for the next one, as long as the plan has one, and is finished
/// otherwise.
pub proof fn lemma_next_page(v: LoadView, ps: u64, reply: Reply)
    requires
        v.valid(),
        v.stage == LoadStage::Copying(ps),
    ensures
        v.mappings.len() + 1 < v.entries.len() ==> load_next(v, reply).1 == LoadAction::Kernel(
            Request::AllocPages { count: 1 },
        ) && load_next(v, reply).0.stage == LoadStage::Allocating,
        v.mappings.len() + 1 == v.entries.len() ==> load_next(v, reply).1 == LoadAction::Finished,
{
}

/// A page that cannot be had, or cannot be mapped, ends the loading with the text that says so.
pub proof fn lemma_load_fails(v: LoadView, ps: u64, e: SyscallError)
    ensures
        v.stage == LoadStage::Allocating ==> load_next(v, Err(e)).1 == LoadAction::Failed(
            BootText::SegmentAllocFailed,
        ),
        v.stage == LoadStage::Mapping(ps) ==> load_next(v, Err(e)).1 == LoadAction::Failed(
            BootText::SegmentMapFailed,
        ),
{
}

/// How the server starts: it has a page made its reply object and asks for the file system with
/// it; what comes back first is the file system's endpoint.
pub proof fn lemma_boot_asks(page: u64, reply: u64, w: Words)
    ensures
        ({
            let (a, first) = boot_next(boot_start(), BootEvent::Done);
            let (b, second) = boot_next(a, BootEvent::Kernel(Ok(page)));
            let (c, third) = boot_next(b, BootEvent::Kernel(Ok(reply)));
            let (d, fourth) = boot_next(c, BootEvent::Message(Ok(w)));
            let (e, fifth) = boot_next(d, BootEvent::Done);
            &&& first == BootAction::Kernel(Request::AllocPages { count: 1 })
            &&& second == BootAction::Kernel(Request::CreateReply { pageset: page })
            &&& third == BootAction::Kernel(
                Request::Call { endpoint: 0, reply, message: Words(0, 0, 0, 0) },
            )
            &&& fourth == BootAction::Print(BootText::Bootstrapped)
            &&& fifth == BootAction::ParseElf
            &&& e.reply.0 == reply
            &&& e.fs_endpoint.0 == w.0
            &&& e.stage == BootStage::Parsing
        }),
{
}

/// How the program is laid out and loaded: with addresses for the list of mappings and for
/// filling pages, and a page each for the program's scratch memory and for the list, which is
/// mapped at its address.
pub proof fn lemma_boot_loads(
    b: PosixBoot,
    layout: VaLayout,
    array_va: u64,
    temp_va: u64,
    scratch: u64,
    array: u64,
    x: u64,
    n: u64,
)
    requires
        b.stage == BootStage::Parsing,
    ensures
        ({
            let (c, a1) = boot_next(b, BootEvent::Checked(true));
            let (d, a2) = boot_next(c, BootEvent::Layout(Some(layout)));
            let (e, a3) = boot_next(d, BootEvent::Va(Some(array_va)));
            let (f, a4) = boot_next(e, BootEvent::Va(Some(temp_va)));
            let (g, a5) = boot_next(f, BootEvent::Kernel(Ok(scratch)));
            let (h, a6) = boot_next(g, BootEvent::Kernel(Ok(array)));
            let (i, a7) = boot_next(h, BootEvent::Kernel(Ok(x)));
            let (j, a8) = boot_next(i, BootEvent::Loaded(Ok(n)));
            &&& a1 == (BootAction::LayOut { stack_pages: 4 })
            &&& a2 == (BootAction::AllocVa { pages: 1 })
            &&& a3 == (BootAction::AllocVa { pages: 128 })
            &&& a4 == BootAction::Kernel(Request::AllocPages { count: 1 })
            &&& a5 == BootAction::Kernel(Request::AllocPages { count: 1 })
            &&& a6 == BootAction::Kernel(
                Request::MapPages { pageset: array, va: array_va, attribute: MapAttribute::Normal },
            )
            &&& a7 == (BootAction::LoadSegments { array_va, temp_base_va: temp_va })
            &&& a8 == BootAction::Kernel(Request::AllocPages { count: 4 })
            &&& j.layout == layout
            &&& j.array_va == array_va
            &&& j.scratch.0 == scratch
            &&& j.array.0 == array
            &&& j.mappings == n
            &&& j.reply == b.reply
            &&& j.fs_endpoint == b.fs_endpoint
            &&& j.stage == BootStage::StackPages
        }),
{
}

/// How the program is started: its stack of four pages is mapped, cleared in whole and its top
/// page written; an endpoint is made for its calls; and the process is created from the list of
/// mappings, the stack, the scratch page and that endpoint.
pub proof fn lemma_boot_spawns(
    b: PosixBoot,
    stack: u64,
    stack_va: u64,
    x: u64,
    y: u64,
    page: u64,
    endpoint: u64,
    z: u64,
)
    requires
        b.stage == BootStage::StackPages,
        stack_va + 0x4000 <= u64::MAX,
    ensures
        ({
            let (c, a1) = boot_next(b, BootEvent::Kernel(Ok(stack)));
            let (d, a2) = boot_next(c, BootEvent::Va(Some(stack_va)));
            let (e, a3) = boot_next(d, BootEvent::Kernel(Ok(x)));
            let (f, a4) = boot_next(e, BootEvent::Kernel(Ok(y)));
            let (g, a5) = boot_next(f, BootEvent::Checked(true));
            let (h, a6) = boot_next(g, BootEvent::Kernel(Ok(page)));
            let (i, a7) = boot_next(h, BootEvent::Kernel(Ok(endpoint)));
            let (j, a8) = boot_next(i, BootEvent::Done);
            let (k, a9) = boot_next(j, BootEvent::Kernel(Ok(z)));
            let (l, a10) = boot_next(k, BootEvent::Done);
            &&& a1 == (BootAction::AllocVa { pages: 4 })
            &&& a2 == BootAction::Kernel(
                Request::MapPages { pageset: stack, va: stack_va, attribute: MapAttribute::Normal },
            )
            &&& a3 == BootAction::Kernel(Request::Zero { va: stack_va, bytes: 0x4000 })
            &&& a4 == (BootAction::WriteStack { layout_va: (stack_va + 0x3000) as u64 })
            &&& a5 == BootAction::Kernel(Request::AllocPages { count: 1 })
            &&& a6 == BootAction::Kernel(Request::CreateEndpoint { pageset: page })
            &&& a7 == BootAction::Print(BootText::Spawning)
            &&& a8 == (BootAction::CreateProcess {
                array_va: b.array_va,
                mappings: b.mappings,
                stack,
                scratch: b.scratch.0,
                endpoint,
            })
            &&& a9 == BootAction::Print(BootText::Spawned)
            &&& a10 == BootAction::Serve
            &&& l.endpoint.0 == endpoint
            &&& l.reply == b.reply
            &&& l.fs_endpoint == b.fs_endpoint
            &&& l.layout == b.layout
        }),
{
}

/// What goes wrong stops the start with the text of the step that failed.
pub proof fn lemma_boot_halts(b: PosixBoot, e: SyscallError, t: BootText)
    ensures
        ({
            let refused = boot_next(b, BootEvent::Kernel(Err(e))).1;
            let unsure = boot_next(b, BootEvent::Checked(false)).1;
            &&& b.stage == BootStage::ReplyPage || b.stage == BootStage::ReplyObject ==> refused
                == BootAction::Halt(BootText::ReplyFailed)
            &&& b.stage == BootStage::Bootstrapping ==> boot_next(b, BootEvent::Message(Err(e))).1
                == BootAction::Halt(BootText::CallFailed)
            &&& b.stage == BootStage::Parsing ==> unsure == BootAction::Halt(BootText::ParseFailed)
            &&& b.stage == BootStage::LayingOut ==> boot_next(b, BootEvent::Layout(None)).1
                == BootAction::Halt(BootText::LayoutFailed)
            &&& b.stage == BootStage::ArrayAddress || b.stage == BootStage::TempAddress || b.stage
                == BootStage::StackAddress ==> boot_next(b, BootEvent::Va(None)).1
                == BootAction::Halt(BootText::Panic)
            &&& b.stage == BootStage::ScratchPage ==> refused == BootAction::Halt(
                BootText::ScratchFailed,
            )
            &&& b.stage == BootStage::ArrayPage ==> refused == BootAction::Halt(
                BootText::ArrayAllocFailed,
            )
            &&& b.stage == BootStage::ArrayMap ==> refused == BootAction::Halt(
                BootText::ArrayMapFailed,
            )
            &&& b.stage == BootStage::Loading ==> boot_next(b, BootEvent::Loaded(Err(t))).1
                == BootAction::Halt(t)
            &&& b.stage == BootStage::StackPages ==> refused == BootAction::Halt(
                BootText::StackAllocFailed,
            )
            &&& b.stage == BootStage::StackMap ==> refused == BootAction::Halt(
                BootText::StackMapFailed,
            )
            &&& b.stage == BootStage::StackLayout ==> unsure == BootAction::Halt(
                BootText::StackLayoutFailed,
            )
            &&& b.stage == BootStage::EndpointPage ==> refused == BootAction::Halt(
                BootText::EndpointAllocFailed,
            )
            &&& b.stage == BootStage::EndpointObject ==> refused == BootAction::Halt(
                BootText::EndpointFailed,
            )
            &&& b.stage == BootStage::Creating ==> refused == BootAction::Halt(
                BootText::SpawnFailed,
            )
        }),
{
}

} // verus!
