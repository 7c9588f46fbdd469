//! How the canary starts: it maps a page for both threads and a stack for the second one,
//! and spawns it.

use crate::startup::{exit, go, say_do, say_exit, say_serve, serve, Next, Said, StartStep};
use crate::syscall::{MapAttribute, Message, Reply, Request, Words};
use crate::virtual_memory::PAGE_SIZE;
use vstd::prelude::*;

verus! {

/// What the canary is set up with.
#[derive(Clone, Copy, Debug, PartialEq, Eq, Structural)]
pub struct CanaryConfig {
    /// Where the program that started the canary is asked.
    pub bootstrap_ep: u64,
    /// Where the second thread starts.
    pub child_entry: u64,
}

/// What the canary does next.
#[derive(Clone, Copy, Debug, PartialEq, Eq, Structural)]
pub enum CanaryAction {
    Kernel(Request),
    AllocVa { pages: u64 },
    /// Spawn a thread on a mapped stack, with page sets for the kernel's part of it.
    Spawn {
        entry: u64,
        stack_top: u64,
        stack_base: u64,
        arg: u64,
        kernel_stack: u64,
        thread_block: u64,
    },
}

/// What came of it.
#[derive(Clone, Copy, Debug)]
pub enum CanaryEvent {
    Started,
    Kernel(Reply),
    Answer(Message),
    Va(Option<u64>),
}

/// What the canary waits for.
#[derive(Clone, Copy, Debug, PartialEq, Eq, Structural)]
pub enum CanaryStage {
    Begin,
    ReplyPage,
    ReplyMaking,
    Bootstrapping,
    SharedAddressing,
    SharedAllocating { shared_va: u64 },
    SharedMapping { shared_va: u64 },
    StackAddressing { shared_va: u64 },
    StackAllocating { shared_va: u64, stack_va: u64 },
    StackMapping { shared_va: u64, stack_va: u64 },
    KernelStack { shared_va: u64, stack_va: u64 },
    ThreadBlock { shared_va: u64, stack_va: u64, kernel_stack: u64 },
    Spawning { shared_va: u64 },
    Over,
}

/// Whether an event is one that the canary waits for; an address has room for a page.
pub open spec fn awaits(stage: CanaryStage, event: CanaryEvent) -> bool {
    match stage {
        CanaryStage::Begin => event is Started,
        CanaryStage::Bootstrapping => event is Answer,
        CanaryStage::SharedAddressing | CanaryStage::StackAddressing { .. } => {
            &&& event is Va
            &&& event matches CanaryEvent::Va(Some(va)) ==> va + PAGE_SIZE <= u64::MAX
        },
        CanaryStage::Over => false,
        _ => event is Kernel,
    }
}

/// Whether the stage holds only addresses that have room for a page.
pub open spec fn is_sound(stage: CanaryStage) -> bool {
    match stage {
        CanaryStage::StackAllocating { stack_va, .. } => stack_va + PAGE_SIZE <= u64::MAX,
        CanaryStage::StackMapping { stack_va, .. } => stack_va + PAGE_SIZE <= u64::MAX,
        CanaryStage::KernelStack { stack_va, .. } => stack_va + PAGE_SIZE <= u64::MAX,
        CanaryStage::ThreadBlock { stack_va, .. } => stack_va + PAGE_SIZE <= u64::MAX,
        _ => true,
    }
}

pub open spec fn map_at(pageset: u64, va: u64) -> CanaryAction {
    CanaryAction::Kernel(Request::MapPages { pageset, va, attribute: MapAttribute::Normal })
}

pub open spec fn one_page() -> CanaryAction {
    CanaryAction::Kernel(Request::AllocPages { count: 1 })
}

/// The canary gives up.
pub open spec fn canary_exit(say: Seq<char>) -> (CanaryStage, Said<CanaryAction, u64>) {
    (CanaryStage::Over, say_exit(say))
}

/// What the canary does once an event has come. It ends with the address of the page that
/// both threads use.
pub open spec fn canary_next(config: CanaryConfig, stage: CanaryStage, event: CanaryEvent) -> (
    CanaryStage,
    Said<CanaryAction, u64>,
) {
    match (stage, event) {
        (CanaryStage::Begin, _) => (
            CanaryStage::ReplyPage,
            say_do("neon-canary: starting\n"@, one_page()),
        ),
        (CanaryStage::ReplyPage, CanaryEvent::Kernel(Ok(pageset))) => (
            CanaryStage::ReplyMaking,
            say_do(""@, CanaryAction::Kernel(Request::CreateReply { pageset })),
        ),
        (CanaryStage::ReplyPage, _) => canary_exit("neon-canary: create reply FAILED\n"@),
        (CanaryStage::ReplyMaking, CanaryEvent::Kernel(Ok(reply))) => (
            CanaryStage::Bootstrapping,
            say_do(
                "neon-canary: bootstrapping...\n"@,
                CanaryAction::Kernel(
                    Request::Call {
                        endpoint: config.bootstrap_ep,
                        reply,
                        message: Words(0, 0, 0, 0),
                    },
                ),
            ),
        ),
        (CanaryStage::ReplyMaking, _) => canary_exit("neon-canary: create reply FAILED\n"@),
        (CanaryStage::Bootstrapping, CanaryEvent::Answer(Ok(_))) => (
            CanaryStage::SharedAddressing,
            say_do("neon-canary: bootstrapped\n"@, CanaryAction::AllocVa { pages: 1 }),
        ),
        (CanaryStage::Bootstrapping, _) => canary_exit("neon-canary: bootstrap FAILED\n"@),
        (CanaryStage::SharedAddressing, CanaryEvent::Va(Some(shared_va))) => (
            CanaryStage::SharedAllocating { shared_va },
            say_do(""@, one_page()),
        ),
        (CanaryStage::SharedAddressing, _) => canary_exit("neon-canary: PANIC\n"@),
        (CanaryStage::SharedAllocating { shared_va }, CanaryEvent::Kernel(Ok(ps))) => (
            CanaryStage::SharedMapping { shared_va },
            say_do(""@, map_at(ps, shared_va)),
        ),
        (CanaryStage::SharedAllocating { .. }, _) => canary_exit(
            "neon-canary: shared alloc FAILED\n"@,
        ),
        (CanaryStage::SharedMapping { shared_va }, CanaryEvent::Kernel(Ok(_))) => (
            CanaryStage::StackAddressing { shared_va },
            say_do(""@, CanaryAction::AllocVa { pages: 1 }),
        ),
        (CanaryStage::SharedMapping { .. }, _) => canary_exit("neon-canary: shared map FAILED\n"@),
        (CanaryStage::StackAddressing { shared_va }, CanaryEvent::Va(Some(stack_va))) => (
            CanaryStage::StackAllocating { shared_va, stack_va },
            say_do(""@, one_page()),
        ),
        (CanaryStage::StackAddressing { .. }, _) => canary_exit("neon-canary: PANIC\n"@),
        (CanaryStage::StackAllocating { shared_va, stack_va }, CanaryEvent::Kernel(Ok(ps))) => (
            CanaryStage::StackMapping { shared_va, stack_va },
            say_do(""@, map_at(ps, stack_va)),
        ),
        (CanaryStage::StackAllocating { .. }, _) => canary_exit(
            "neon-canary: child stack alloc FAILED\n"@,
        ),
        (CanaryStage::StackMapping { shared_va, stack_va }, CanaryEvent::Kernel(Ok(_))) => (
            CanaryStage::KernelStack { shared_va, stack_va },
            say_do(""@, one_page()),
        ),
        (CanaryStage::StackMapping { .. }, _) => canary_exit(
            "neon-canary: child stack map FAILED\n"@,
        ),
        (
            CanaryStage::KernelStack { shared_va, stack_va },
            CanaryEvent::Kernel(Ok(kernel_stack)),
        ) => (
            CanaryStage::ThreadBlock { shared_va, stack_va, kernel_stack },
            say_do(""@, one_page()),
        ),
        (CanaryStage::KernelStack { .. }, _) => canary_exit("neon-canary: kstack alloc FAILED\n"@),
        (
            CanaryStage::ThreadBlock { shared_va, stack_va, kernel_stack },
            CanaryEvent::Kernel(Ok(thread_block)),
        ) => (
            CanaryStage::Spawning { shared_va },
            say_do(
                ""@,
                CanaryAction::Spawn {
                    entry: config.child_entry,
                    stack_top: (stack_va + PAGE_SIZE) as u64,
                    stack_base: stack_va,
                    arg: 1,
                    kernel_stack,
                    thread_block,
                },
            ),
        ),
        (CanaryStage::ThreadBlock { .. }, _) => canary_exit("neon-canary: tcb alloc FAILED\n"@),
        (CanaryStage::Spawning { shared_va }, CanaryEvent::Kernel(Ok(_))) => (
            CanaryStage::Over,
            say_serve(""@, shared_va),
        ),
        (CanaryStage::Spawning { .. }, _) => canary_exit("neon-canary: spawn child FAILED\n"@),
        (CanaryStage::Over, _) => canary_exit(""@),
    }
}

/// The canary's start.
pub struct CanaryStart {
    pub config: CanaryConfig,
    pub stage: CanaryStage,
}

impl CanaryStart {
    pub fn new(config: CanaryConfig) -> (r: Self)
        ensures
            r.config == config,
            r.stage == CanaryStage::Begin,
    {
        CanaryStart { config, stage: CanaryStage::Begin }
    }

    fn give_up(&mut self, say: &str) -> (r: StartStep<CanaryAction, u64>)
        ensures
            final(self).config == old(self).config,
            (final(self).stage, r@) == canary_exit(say@),
    {
        self.stage = CanaryStage::Over;
        exit(say)
    }

    fn wait(&mut self, stage: CanaryStage, say: &str, action: CanaryAction) -> (r: StartStep<
        CanaryAction,
        u64,
    >)
        ensures
            final(self).config == old(self).config,
            final(self).stage == stage,
            r@ == say_do::<CanaryAction, u64>(say@, action),
    {
        self.stage = stage;
        go(say, action)
    }

    fn map_page(&mut self, stage: CanaryStage, pageset: u64, va: u64) -> (r: StartStep<
        CanaryAction,
        u64,
    >)
        ensures
            final(self).config == old(self).config,
            final(self).stage == stage,
            r@ == say_do::<CanaryAction, u64>(""@, map_at(pageset, va)),
    {
        self.wait(
            stage,
            "",
            CanaryAction::Kernel(
                Request::MapPages { pageset, va, attribute: MapAttribute::Normal },
            ),
        )
    }

    /// What the canary does once an event has come.
    pub fn step(&mut self, event: CanaryEvent) -> (r: StartStep<CanaryAction, u64>)
        requires
            is_sound(old(self).stage),
            awaits(old(self).stage, event),
        ensures
            final(self).config == old(self).config,
            is_sound(final(self).stage),
            (final(self).stage, r@) == canary_next(old(self).config, old(self).stage, event),
    {
        let page = CanaryAction::Kernel(Request::AllocPages { count: 1 });
        let address = CanaryAction::AllocVa { pages: 1 };
        match (self.stage, event) {
            (CanaryStage::Begin, _) => self.wait(
                CanaryStage::ReplyPage,
                "neon-canary: starting\n",
                page,
            ),
            (CanaryStage::ReplyPage, CanaryEvent::Kernel(Ok(pageset))) => self.wait(
                CanaryStage::ReplyMaking,
                "",
                CanaryAction::Kernel(Request::CreateReply { pageset }),
            ),
            (CanaryStage::ReplyPage, _) => self.give_up("neon-canary: create reply FAILED\n"),
            (CanaryStage::ReplyMaking, CanaryEvent::Kernel(Ok(reply))) => {
                let call = Request::Call {
                    endpoint: self.config.bootstrap_ep,
                    reply,
                    message: Words(0, 0, 0, 0),
                };
                self.wait(
                    CanaryStage::Bootstrapping,
                    "neon-canary: bootstrapping...\n",
                    CanaryAction::Kernel(call),
                )
            },
            (CanaryStage::ReplyMaking, _) => self.give_up("neon-canary: create reply FAILED\n"),
            (CanaryStage::Bootstrapping, CanaryEvent::Answer(Ok(_))) => self.wait(
                CanaryStage::SharedAddressing,
                "neon-canary: bootstrapped\n",
                address,
            ),
            (CanaryStage::Bootstrapping, _) => self.give_up("neon-canary: bootstrap FAILED\n"),
            (CanaryStage::SharedAddressing, CanaryEvent::Va(Some(shared_va))) => self.wait(
                CanaryStage::SharedAllocating { shared_va },
                "",
                page,
            ),
            (CanaryStage::SharedAddressing, _) => self.give_up("neon-canary: PANIC\n"),
            (CanaryStage::SharedAllocating { shared_va }, CanaryEvent::Kernel(Ok(ps))) =>
                self.map_page(CanaryStage::SharedMapping { shared_va }, ps, shared_va),
            (CanaryStage::SharedAllocating { .. }, _) => self.give_up(
                "neon-canary: shared alloc FAILED\n",
            ),
            (CanaryStage::SharedMapping { shared_va }, CanaryEvent::Kernel(Ok(_))) => self.wait(
                CanaryStage::StackAddressing { shared_va },
                "",
                address,
            ),
            (CanaryStage::SharedMapping { .. }, _) => self.give_up(
                "neon-canary: shared map FAILED\n",
            ),
            (CanaryStage::StackAddressing { shared_va }, CanaryEvent::Va(Some(stack_va))) =>
                self.wait(CanaryStage::StackAllocating { shared_va, stack_va }, "", page),
            (CanaryStage::StackAddressing { .. }, _) => self.give_up("neon-canary: PANIC\n"),
            (CanaryStage::StackAllocating { shared_va, stack_va }, CanaryEvent::Kernel(Ok(ps))) =>
                self.map_page(CanaryStage::StackMapping { shared_va, stack_va }, ps, stack_va),
            (CanaryStage::StackAllocating { .. }, _) => self.give_up(
                "neon-canary: child stack alloc FAILED\n",
            ),
            (CanaryStage::StackMapping { shared_va, stack_va }, CanaryEvent::Kernel(Ok(_))) =>
                self.wait(CanaryStage::KernelStack { shared_va, stack_va }, "", page),
            (CanaryStage::StackMapping { .. }, _) => self.give_up(
                "neon-canary: child stack map FAILED\n",
            ),
            (
                CanaryStage::KernelStack { shared_va, stack_va },
                CanaryEvent::Kernel(Ok(kernel_stack)),
            ) => self.wait(
                CanaryStage::ThreadBlock { shared_va, stack_va, kernel_stack },
                "",
                page,
            ),
            (CanaryStage::KernelStack { .. }, _) => self.give_up(
                "neon-canary: kstack alloc FAILED\n",
            ),
            (
                CanaryStage::ThreadBlock { shared_va, stack_va, kernel_stack },
                CanaryEvent::Kernel(Ok(thread_block)),
            ) => {
                let spawn = CanaryAction::Spawn {
                    entry: self.config.child_entry,
                    stack_top: stack_va + PAGE_SIZE,
                    stack_base: stack_va,
                    arg: 1,
                    kernel_stack,
                    thread_block,
                };
                self.wait(CanaryStage::Spawning { shared_va }, "", spawn)
            },
            (CanaryStage::ThreadBlock { .. }, _) => self.give_up("neon-canary: tcb alloc FAILED\n"),
            (CanaryStage::Spawning { shared_va }, CanaryEvent::Kernel(Ok(_))) => {
                self.stage = CanaryStage::Over;
                serve("", shared_va)
            },
            (CanaryStage::Spawning { .. }, _) => self.give_up("neon-canary: spawn child FAILED\n"),
            (CanaryStage::Over, _) => self.give_up(""),
        }
    }
}

/// The threads run only once the second one was spawned, and the page that both use is the
/// one that was mapped for it.
pub proof fn lemma_runs_with_child(config: CanaryConfig, stage: CanaryStage, event: CanaryEvent)
    ensures
        canary_next(config, stage, event).1.next matches crate::startup::Next::Serve(shared_va)
            ==> stage == (CanaryStage::Spawning { shared_va }) && event matches CanaryEvent::Kernel(
            Ok(_),
        ),
{
}

/// How the second thread is started: with a page that both threads use and a stack of one page,
/// each mapped at its own address; the thread starts at the given entry, at the top of its stack,
/// as thread one.
pub proof fn lemma_canary_spawns(
    config: CanaryConfig,
    shared_va: u64,
    shared: u64,
    stack_va: u64,
    stack: u64,
    kernel_stack: u64,
    thread_block: u64,
    x: u64,
)
    requires
        stack_va + 4096 <= u64::MAX,
    ensures
        ({
            let (s1, d1) = canary_next(
                config,
                CanaryStage::SharedAddressing,
                CanaryEvent::Va(Some(shared_va)),
            );
            let (s2, d2) = canary_next(config, s1, CanaryEvent::Kernel(Ok(shared)));
            let (s3, d3) = canary_next(config, s2, CanaryEvent::Kernel(Ok(x)));
            let (s4, d4) = canary_next(config, s3, CanaryEvent::Va(Some(stack_va)));
            let (s5, d5) = canary_next(config, s4, CanaryEvent::Kernel(Ok(stack)));
            let (s6, d6) = canary_next(config, s5, CanaryEvent::Kernel(Ok(x)));
            let (s7, d7) = canary_next(config, s6, CanaryEvent::Kernel(Ok(kernel_stack)));
            let (s8, d8) = canary_next(config, s7, CanaryEvent::Kernel(Ok(thread_block)));
            let (_, d9) = canary_next(config, s8, CanaryEvent::Kernel(Ok(x)));
            let page = Next::<CanaryAction, u64>::Do(
                CanaryAction::Kernel(Request::AllocPages { count: 1 }),
            );
            &&& d1.next == page
            &&& d2.next == Next::<CanaryAction, u64>::Do(
                CanaryAction::Kernel(
                    Request::MapPages {
                        pageset: shared,
                        va: shared_va,
                        attribute: MapAttribute::Normal,
                    },
                ),
            )
            &&& d3.next == Next::<CanaryAction, u64>::Do(CanaryAction::AllocVa { pages: 1 })
            &&& d4.next == page
            &&& d5.next == Next::<CanaryAction, u64>::Do(
                CanaryAction::Kernel(
                    Request::MapPages {
                        pageset: stack,
                        va: stack_va,
                        attribute: MapAttribute::Normal,
                    },
                ),
            )
            &&& d6.next == page
            &&& d7.next == page
            &&& d8.next == Next::<CanaryAction, u64>::Do(
                CanaryAction::Spawn {
                    entry: config.child_entry,
                    stack_top: (stack_va + 4096) as u64,
                    stack_base: stack_va,
                    arg: 1,
                    kernel_stack,
                    thread_block,
                },
            )
            &&& d9.next == Next::<CanaryAction, u64>::Serve(shared_va)
        }),
{
}

/// How the canary begins: it has a page made its reply object and, with it, asks the program that
/// started it.
pub proof fn lemma_canary_begins(config: CanaryConfig, page: u64, reply: u64, w: Words)
    ensures
        ({
            let (s1, d1) = canary_next(config, CanaryStage::Begin, CanaryEvent::Started);
            let (s2, d2) = canary_next(config, s1, CanaryEvent::Kernel(Ok(page)));
            let (s3, d3) = canary_next(config, s2, CanaryEvent::Kernel(Ok(reply)));
            let (s4, d4) = canary_next(config, s3, CanaryEvent::Answer(Ok(w)));
            &&& d1.next == Next::<CanaryAction, u64>::Do(
                CanaryAction::Kernel(Request::AllocPages { count: 1 }),
            )
            &&& d2.next == Next::<CanaryAction, u64>::Do(
                CanaryAction::Kernel(Request::CreateReply { pageset: page }),
            )
            &&& d3.next == Next::<CanaryAction, u64>::Do(
                CanaryAction::Kernel(
                    Request::Call {
                        endpoint: config.bootstrap_ep,
                        reply,
                        message: Words(0, 0, 0, 0),
                    },
                ),
            )
            &&& d4.next == Next::<CanaryAction, u64>::Do(CanaryAction::AllocVa { pages: 1 })
            &&& s4 == CanaryStage::SharedAddressing
        }),
{
}

/// Whatever the kernel refuses ends the canary.
pub proof fn lemma_canary_gives_up(
    config: CanaryConfig,
    stage: CanaryStage,
    e: crate::syscall::SyscallError,
)
    requires
        stage !is Begin,
    ensures
        canary_next(config, stage, CanaryEvent::Kernel(Err(e))).1.next is Exit,
        canary_next(config, stage, CanaryEvent::Answer(Err(e))).1.next is Exit,
        canary_next(config, stage, CanaryEvent::Va(None)).1.next is Exit,
{
}

} // verus!
