//! The SD host controller: issuing commands, data transfers, and bringing a card up.
//!
//! An operation says what to read from or write to the controller next, and goes on with
//! what was read. Waits are polls with a budget; each poll reports whether it has run out.

use crate::dma_transfer::{
    clean_next, lemma_written_from, resume_transfer, run_dma_transfer, transfer_next, within,
    written_from, DmaRegion, DmaTransferError, TransferAction, TransferEvent, TransferStage,
};
use crate::irq::IrqWaitError;
use crate::syscall::{Reply, Request, SyscallError};
use vstd::prelude::*;

verus! {

/// The budget for a command line to become free, in milliseconds.
pub const INHIBIT_BUDGET_MS: u64 = 100;

/// The budget for a command to be answered, in milliseconds.
pub const RESPONSE_BUDGET_MS: u64 = 1000;

/// The budget for a data transfer, in milliseconds.
pub const TRANSFER_BUDGET_MS: u64 = 1000;

/// The budget for the controller to drain after a transfer, in milliseconds.
pub const DRAIN_BUDGET_MS: u64 = 10;

/// The budget for a selected card to become ready, in milliseconds.
pub const SELECT_BUDGET_MS: u64 = 500;

/// The budget for a card to power up, in milliseconds.
pub const POWER_UP_BUDGET_MS: u64 = 1000;

/// The budget for a reset, in milliseconds.
pub const RESET_BUDGET_MS: u64 = 200;

/// The budget for the clock to become stable, in milliseconds.
pub const CLOCK_BUDGET_MS: u64 = 100;

/// How long the bus voltage takes to settle, in milliseconds.
pub const SETTLE_MS: u64 = 2;

/// The milliseconds between two attempts to power a card up.
pub const POWER_UP_PAUSE_MS: u64 = 10;

/// The bytes of a block.
pub const BLOCK_SIZE: u16 = 512;

/// The commands that are used.
#[derive(Clone, Copy, Debug, PartialEq, Eq, Structural)]
pub enum SdCommand {
    GoIdleState,
    SendIfCond,
    AppCmd,
    SdSendOpCond,
    AllSendCid,
    SendRelativeAddr,
    SendCsd,
    SelectCard,
    SetBusWidth,
    ReadSingleBlock,
    WriteSingleBlock,
}

/// The four words of a response; a short response has one, and zeros.
#[derive(Clone, Copy, Debug, PartialEq, Eq, Structural)]
pub struct Response(pub u32, pub u32, pub u32, pub u32);

/// What a look at the present state shows.
#[derive(Clone, Copy, Debug, PartialEq, Eq, Structural)]
pub struct Present {
    pub cmd_inhibit: bool,
    pub dat_inhibit: bool,
    /// The register as it is.
    pub bits: u32,
    /// Whether the poll's budget has run out.
    pub expired: bool,
}

/// What a look at the interrupt status shows.
#[derive(Clone, Copy, Debug, PartialEq, Eq, Structural)]
pub struct IntStatus {
    pub error: bool,
    pub cmd_complete: bool,
    pub data_complete: bool,
    /// Whether the poll's budget has run out.
    pub expired: bool,
}

// ---------------------------------------------------------------------------
// Commands without data
// ---------------------------------------------------------------------------

/// Why a command failed.
#[derive(Clone, Copy, Debug, PartialEq, Eq, Structural)]
pub enum SdhciCommandError {
    InhibitStuck { present_state: u32 },
    ControllerError { err_int_status: u16 },
    NoResponse,
}

/// What a command is answered. The controller is told with the command.
#[derive(Clone, Copy, Debug, PartialEq, Eq, Structural)]
pub enum ResponseShape {
    /// Nothing.
    R0,
    /// The card's status.
    R1,
    /// The card's status; the card may be busy afterwards.
    R1b,
    /// A register of four words.
    R2,
    /// The card's operating conditions, which are not checked.
    R3,
    /// The card's address.
    R6,
    /// The echo of the interface conditions.
    R7,
}

impl ResponseShape {
    /// Whether the response has four words.
    pub open spec fn is_long(self) -> bool {
        self == ResponseShape::R2
    }

    fn has_four_words(&self) -> (r: bool)
        ensures
            r == self.is_long(),
    {
        match self {
            ResponseShape::R2 => true,
            _ => false,
        }
    }
}

/// A command: its argument, and what it is answered.
#[derive(Clone, Copy, Debug, PartialEq, Eq, Structural)]
pub struct CardCommand {
    pub cmd: SdCommand,
    pub arg: u32,
    pub shape: ResponseShape,
}

/// What a command does next.
#[derive(Clone, Copy, Debug)]
pub enum CommandAction {
    /// Look at the present state.
    PollPresent { budget_ms: u64 },
    /// Write the argument, then the command in one store, and then look at the interrupt
    /// status.
    Issue { command: CardCommand, budget_ms: u64 },
    /// Look at the interrupt status.
    PollStatus,
    /// Read the error status, then clear it and the bits that summarise it.
    CollectError,
    /// Clear the bit that says that the command is complete, then read the response.
    ReadResponse { long: bool },
    Finish(Result<Response, SdhciCommandError>),
}

/// What came of it.
#[derive(Clone, Copy, Debug)]
pub enum CommandEvent {
    Present(Present),
    Status(IntStatus),
    ErrorBits(u16),
    Response(Response),
}

/// Where a command stands.
#[derive(Clone, Copy, Debug, PartialEq, Eq, Structural)]
pub enum CommandStage {
    Inhibited,
    Issued,
    Failing,
    Reading,
    Ended,
}

/// A command that is being issued.
#[derive(Clone, Copy, Debug, PartialEq, Eq, Structural)]
pub struct SdhciCommandInit {
    pub command: CardCommand,
    pub stage: CommandStage,
}

/// Whether an event is one that a command waits for.
pub open spec fn command_awaits(stage: CommandStage, event: CommandEvent) -> bool {
    match stage {
        CommandStage::Inhibited => event is Present,
        CommandStage::Issued => event is Status,
        CommandStage::Failing => event is ErrorBits,
        CommandStage::Reading => event is Response,
        CommandStage::Ended => false,
    }
}

/// How a command ends.
pub open spec fn command_end(r: Result<Response, SdhciCommandError>) -> (
    CommandStage,
    CommandAction,
) {
    (CommandStage::Ended, CommandAction::Finish(r))
}

/// What a command does when `event` comes. It is issued only once the command line is
/// free; afterwards an error counts before a completion, and a completion before the
/// budget.
pub open spec fn command_next(c: CardCommand, stage: CommandStage, event: CommandEvent) -> (
    CommandStage,
    CommandAction,
) {
    match (stage, event) {
        (CommandStage::Inhibited, CommandEvent::Present(p)) => if !p.cmd_inhibit {
            (
                CommandStage::Issued,
                CommandAction::Issue { command: c, budget_ms: RESPONSE_BUDGET_MS },
            )
        } else if p.expired {
            command_end(Err(SdhciCommandError::InhibitStuck { present_state: p.bits }))
        } else {
            (
                CommandStage::Inhibited,
                CommandAction::PollPresent { budget_ms: INHIBIT_BUDGET_MS },
            )
        },
        (CommandStage::Issued, CommandEvent::Status(s)) => if s.error {
            (CommandStage::Failing, CommandAction::CollectError)
        } else if s.cmd_complete {
            (CommandStage::Reading, CommandAction::ReadResponse { long: c.shape.is_long() })
        } else if s.expired {
            command_end(Err(SdhciCommandError::NoResponse))
        } else {
            (CommandStage::Issued, CommandAction::PollStatus)
        },
        (CommandStage::Failing, CommandEvent::ErrorBits(b)) => command_end(
            Err(SdhciCommandError::ControllerError { err_int_status: b }),
        ),
        (CommandStage::Reading, CommandEvent::Response(r)) => command_end(Ok(r)),
        _ => command_end(Err(SdhciCommandError::NoResponse)),
    }
}

impl SdhciCommandInit {
    /// Issues a command.
    pub fn issue_no_data(command: CardCommand) -> (r: (SdhciCommandInit, CommandAction))
        ensures
            r.0 == (SdhciCommandInit { command, stage: CommandStage::Inhibited }),
            r.1 == (CommandAction::PollPresent { budget_ms: INHIBIT_BUDGET_MS }),
    {
        (
            SdhciCommandInit { command, stage: CommandStage::Inhibited },
            CommandAction::PollPresent { budget_ms: INHIBIT_BUDGET_MS },
        )
    }

    fn end(&mut self, r: Result<Response, SdhciCommandError>) -> (a: CommandAction)
        ensures
            final(self).command == old(self).command,
            (final(self).stage, a) == command_end(r),
    {
        self.stage = CommandStage::Ended;
        CommandAction::Finish(r)
    }

    /// Goes on, now that `event` has come.
    pub fn step(&mut self, event: CommandEvent) -> (a: CommandAction)
        requires
            command_awaits(old(self).stage, event),
        ensures
            final(self).command == old(self).command,
            (final(self).stage, a) == command_next(old(self).command, old(self).stage, event),
    {
        match event {
            CommandEvent::Present(p) => {
                if !p.cmd_inhibit {
                    self.stage = CommandStage::Issued;
                    CommandAction::Issue {
                        command: self.command,
                        budget_ms: RESPONSE_BUDGET_MS,
                    }
                } else if p.expired {
                    self.end(Err(SdhciCommandError::InhibitStuck { present_state: p.bits }))
                } else {
                    CommandAction::PollPresent { budget_ms: INHIBIT_BUDGET_MS }
                }
            },
            CommandEvent::Status(s) => {
                if s.error {
                    self.stage = CommandStage::Failing;
                    CommandAction::CollectError
                } else if s.cmd_complete {
                    self.stage = CommandStage::Reading;
                    CommandAction::ReadResponse { long: self.command.shape.has_four_words() }
                } else if s.expired {
                    self.end(Err(SdhciCommandError::NoResponse))
                } else {
                    CommandAction::PollStatus
                }
            },
            CommandEvent::ErrorBits(b) => self.end(
                Err(SdhciCommandError::ControllerError { err_int_status: b }),
            ),
            CommandEvent::Response(r) => self.end(Ok(r)),
        }
    }
}

/// A command that fails because the command line is not free was not issued: before the
/// command is issued that is its only failure, and afterwards it is none.
pub proof fn lemma_stuck_is_unissued(c: CardCommand, stage: CommandStage, event: CommandEvent)
    requires
        command_awaits(stage, event),
    ensures
        command_next(c, stage, event).1 matches CommandAction::Finish(Err(e)) ==> (
        e is InhibitStuck <==> stage is Inhibited),
{
}

// ---------------------------------------------------------------------------
// The end of a data transfer
// ---------------------------------------------------------------------------

/// Why a data transfer did not complete.
#[derive(Clone, Copy, Debug, PartialEq, Eq, Structural)]
pub enum SdhciDataCompletionError {
    CmdCompleteTimeout,
    TransferCompleteTimeout,
    CmdError { err_int_status: u16 },
    DataError { err_int_status: u16 },
    DatInhibitStuck { present_state: u32 },
}

/// What a wait for the end of a transfer does next.
#[derive(Clone, Copy, Debug)]
pub enum DataAction {
    /// Wait for the interrupt, then look at the interrupt status.
    WaitIrq { budget_ms: u64 },
    ReadStatus,
    /// Read the error status, then clear it and the whole interrupt status, and let the
    /// line deliver again.
    CollectError,
    /// Clear the bits that were seen and let the line deliver again; then go on as said.
    Acknowledge { cmd_complete: bool, data_complete: bool },
    /// Look at the present state.
    PollPresent { budget_ms: u64 },
    Finish(Result<(), SdhciDataCompletionError>),
}

/// What came of it.
#[derive(Clone, Copy, Debug)]
pub enum DataEvent {
    Irq(Result<(), IrqWaitError>),
    Status(IntStatus),
    ErrorBits(u16),
    Acknowledged,
    Present(Present),
}

/// Where a wait for the end of a transfer stands, and whether the command was seen to
/// complete.
#[derive(Clone, Copy, Debug, PartialEq, Eq, Structural)]
pub enum DataStage {
    Waiting { cmd_seen: bool },
    Looking { cmd_seen: bool },
    Failing { cmd_seen: bool },
    Acknowledging { cmd_seen: bool, data_seen: bool },
    Draining,
    Ended,
}

/// A wait for the end of a transfer.
#[derive(Clone, Copy, Debug, PartialEq, Eq, Structural)]
pub struct SdhciDataCompletion {
    pub stage: DataStage,
}

/// Whether an event is one that the wait waits for.
pub open spec fn data_awaits(stage: DataStage, event: DataEvent) -> bool {
    match stage {
        DataStage::Waiting { .. } => event is Irq,
        DataStage::Looking { .. } => event is Status,
        DataStage::Failing { .. } => event is ErrorBits,
        DataStage::Acknowledging { .. } => event is Acknowledged,
        DataStage::Draining => event is Present,
        DataStage::Ended => false,
    }
}

/// How the wait ends.
pub open spec fn data_end(r: Result<(), SdhciDataCompletionError>) -> (DataStage, DataAction) {
    (DataStage::Ended, DataAction::Finish(r))
}

/// What the wait does when `event` comes. An error counts as one of the command until the
/// command was seen to complete, and as one of the data afterwards. Once the data is
/// complete the controller is given time to drain.
pub open spec fn data_next(stage: DataStage, event: DataEvent) -> (DataStage, DataAction) {
    match (stage, event) {
        (DataStage::Waiting { cmd_seen }, DataEvent::Irq(Ok(_))) => (
            DataStage::Looking { cmd_seen },
            DataAction::ReadStatus,
        ),
        (DataStage::Waiting { cmd_seen }, DataEvent::Irq(Err(_))) => data_end(
            Err(
                if cmd_seen {
                    SdhciDataCompletionError::TransferCompleteTimeout
                } else {
                    SdhciDataCompletionError::CmdCompleteTimeout
                },
            ),
        ),
        (DataStage::Looking { cmd_seen }, DataEvent::Status(s)) => if s.error {
            (DataStage::Failing { cmd_seen }, DataAction::CollectError)
        } else {
            (
                DataStage::Acknowledging {
                    cmd_seen: cmd_seen || s.cmd_complete,
                    data_seen: s.data_complete,
                },
                DataAction::Acknowledge {
                    cmd_complete: s.cmd_complete,
                    data_complete: s.data_complete,
                },
            )
        },
        (DataStage::Failing { cmd_seen }, DataEvent::ErrorBits(b)) => data_end(
            Err(
                if cmd_seen {
                    SdhciDataCompletionError::DataError { err_int_status: b }
                } else {
                    SdhciDataCompletionError::CmdError { err_int_status: b }
                },
            ),
        ),
        (DataStage::Acknowledging { cmd_seen, data_seen }, _) => if data_seen {
            (DataStage::Draining, DataAction::PollPresent { budget_ms: DRAIN_BUDGET_MS })
        } else {
            (
                DataStage::Waiting { cmd_seen },
                DataAction::WaitIrq { budget_ms: TRANSFER_BUDGET_MS },
            )
        },
        (DataStage::Draining, DataEvent::Present(p)) => if !p.dat_inhibit {
            data_end(Ok(()))
        } else if p.expired {
            data_end(Err(SdhciDataCompletionError::DatInhibitStuck { present_state: p.bits }))
        } else {
            (DataStage::Draining, DataAction::PollPresent { budget_ms: DRAIN_BUDGET_MS })
        },
        _ => data_end(Err(SdhciDataCompletionError::CmdCompleteTimeout)),
    }
}

impl SdhciDataCompletion {
    /// Starts to wait.
    pub fn await_complete() -> (r: (SdhciDataCompletion, DataAction))
        ensures
            r.0.stage == (DataStage::Waiting { cmd_seen: false }),
            r.1 == (DataAction::WaitIrq { budget_ms: TRANSFER_BUDGET_MS }),
    {
        (
            SdhciDataCompletion { stage: DataStage::Waiting { cmd_seen: false } },
            DataAction::WaitIrq { budget_ms: TRANSFER_BUDGET_MS },
        )
    }

    fn end(&mut self, r: Result<(), SdhciDataCompletionError>) -> (a: DataAction)
        ensures
            (final(self).stage, a) == data_end(r),
    {
        self.stage = DataStage::Ended;
        DataAction::Finish(r)
    }

    /// Goes on, now that `event` has come.
    pub fn step(&mut self, event: DataEvent) -> (a: DataAction)
        requires
            data_awaits(old(self).stage, event),
        ensures
            (final(self).stage, a) == data_next(old(self).stage, event),
    {
        match self.stage {
            DataStage::Waiting { cmd_seen } => match event {
                DataEvent::Irq(Ok(_)) => {
                    self.stage = DataStage::Looking { cmd_seen };
                    DataAction::ReadStatus
                },
                _ => {
                    if cmd_seen {
                        self.end(Err(SdhciDataCompletionError::TransferCompleteTimeout))
                    } else {
                        self.end(Err(SdhciDataCompletionError::CmdCompleteTimeout))
                    }
                },
            },
            DataStage::Looking { cmd_seen } => match event {
                DataEvent::Status(s) => {
                    if s.error {
                        self.stage = DataStage::Failing { cmd_seen };
                        DataAction::CollectError
                    } else {
                        self.stage = DataStage::Acknowledging {
                            cmd_seen: cmd_seen || s.cmd_complete,
                            data_seen: s.data_complete,
                        };
                        DataAction::Acknowledge {
                            cmd_complete: s.cmd_complete,
                            data_complete: s.data_complete,
                        }
                    }
                },
                _ => self.end(Err(SdhciDataCompletionError::CmdCompleteTimeout)),
            },
            DataStage::Failing { cmd_seen } => match event {
                DataEvent::ErrorBits(b) => {
                    if cmd_seen {
                        self.end(
                            Err(SdhciDataCompletionError::DataError { err_int_status: b }),
                        )
                    } else {
                        self.end(Err(SdhciDataCompletionError::CmdError { err_int_status: b }))
                    }
                },
                _ => self.end(Err(SdhciDataCompletionError::CmdCompleteTimeout)),
            },
            DataStage::Acknowledging { cmd_seen, data_seen } => {
                if data_seen {
                    self.stage = DataStage::Draining;
                    DataAction::PollPresent { budget_ms: DRAIN_BUDGET_MS }
                } else {
                    self.stage = DataStage::Waiting { cmd_seen };
                    DataAction::WaitIrq { budget_ms: TRANSFER_BUDGET_MS }
                }
            },
            DataStage::Draining => match event {
                DataEvent::Present(p) => {
                    if !p.dat_inhibit {
                        self.end(Ok(()))
                    } else if p.expired {
                        self.end(
                            Err(
                                SdhciDataCompletionError::DatInhibitStuck {
                                    present_state: p.bits,
                                },
                            ),
                        )
                    } else {
                        DataAction::PollPresent { budget_ms: DRAIN_BUDGET_MS }
                    }
                },
                _ => self.end(Err(SdhciDataCompletionError::CmdCompleteTimeout)),
            },
            DataStage::Ended => self.end(Err(SdhciDataCompletionError::CmdCompleteTimeout)),
        }
    }
}

/// A transfer counts as done only when the controller has drained: the wait succeeds only
/// out of the last stage, and only where the data lines are free.
pub proof fn lemma_done_is_drained(stage: DataStage, event: DataEvent)
    requires
        data_awaits(stage, event),
    ensures
        data_next(stage, event).1 matches DataAction::Finish(Ok(_)) ==> stage is Draining
            && !event->Present_0.dat_inhibit,
{
}

/// The controller starts to drain only after the data was seen to be complete.
pub proof fn lemma_drains_after_data(stage: DataStage, event: DataEvent)
    requires
        data_awaits(stage, event),
        data_next(stage, event).0 is Draining,
        !(stage is Draining),
    ensures
        stage matches DataStage::Acknowledging { data_seen, .. } && data_seen,
{
}

// ---------------------------------------------------------------------------
// Data transfers
// ---------------------------------------------------------------------------

/// Which way the data goes.
#[derive(Clone, Copy, Debug, PartialEq, Eq, Structural)]
pub enum DataDirection {
    Read,
    Write,
}

/// A transfer of one block.
#[derive(Clone, Copy, Debug, PartialEq, Eq, Structural)]
pub struct SdhciDataTransfer {
    pub cmd: SdCommand,
    pub arg: u32,
    pub direction: DataDirection,
    pub adma_descriptor_pa: u32,
}

/// Why a transfer failed.
#[derive(Clone, Copy, Debug, PartialEq, Eq, Structural)]
pub enum SdhciDataTransferError {
    InhibitStuck { present_state: u32 },
    CleanFailed(SyscallError),
    Completion(SdhciDataCompletionError),
    InvalidateFailed(SyscallError),
}

/// What to write to the controller to start a transfer, in this order. The transfer mode and
/// the command are written in one store.
#[derive(Clone, Copy, Debug, PartialEq, Eq, Structural)]
pub struct KickWrites {
    /// What makes the controller fetch descriptors.
    pub select: SdhciWrite,
    pub adma_address: u32,
    pub block_size: u16,
    pub block_count: u16,
    pub argument: u32,
    /// Whether the transfer mode says that the controller moves the data itself.
    pub moves_data: bool,
    /// Whether the transfer mode says that the data comes from the card.
    pub reads_card: bool,
    pub command: SdCommand,
    pub shape: ResponseShape,
    /// Whether the command says that data goes with it.
    pub with_data: bool,
}

impl SdhciDataTransfer {
    /// What starts the transfer.
    pub open spec fn kick(self) -> KickWrites {
        KickWrites {
            select: SdhciWrite::SelectAdma32,
            adma_address: self.adma_descriptor_pa,
            block_size: BLOCK_SIZE,
            block_count: 1,
            argument: self.arg,
            moves_data: true,
            reads_card: self.direction == DataDirection::Read,
            command: self.cmd,
            shape: ResponseShape::R1,
            with_data: true,
        }
    }

    fn kick_writes(&self) -> (r: KickWrites)
        ensures
            r == self.kick(),
    {
        KickWrites {
            select: SdhciWrite::SelectAdma32,
            adma_address: self.adma_descriptor_pa,
            block_size: BLOCK_SIZE,
            block_count: 1,
            argument: self.arg,
            moves_data: true,
            reads_card: self.direction == DataDirection::Read,
            command: self.cmd,
            shape: ResponseShape::R1,
            with_data: true,
        }
    }
}

/// What a transfer does next.
#[derive(Clone, Copy, Debug)]
pub enum TransferDo {
    /// Look at the present state.
    PollPresent { budget_ms: u64 },
    /// Clean or invalidate a region.
    Sync(Request),
    Kick(KickWrites),
    /// A step of the wait for the end of the transfer.
    Wait(DataAction),
    Finish(Result<(), SdhciDataTransferError>),
}

/// What came of it.
#[derive(Clone, Copy, Debug)]
pub enum TransferSaw {
    Present(Present),
    Synced(Reply),
    Kicked,
    Data(DataEvent),
}

/// Where a transfer stands.
pub enum DataTransferStage {
    Inhibited,
    /// Regions are being cleaned or invalidated, or the controller is being started.
    Moving(TransferStage<()>),
    Waiting(DataStage),
    Ended,
}

/// A transfer that is being run. Its envelope cleans and invalidates the regions.
pub struct SdhciTransfer {
    pub params: SdhciDataTransfer,
    pub regions: Vec<DmaRegion>,
    pub stage: DataTransferStage,
}

/// How the envelope of a transfer fails. Starting the controller never does.
pub type EnvelopeError = DmaTransferError<(), SdhciDataCompletionError>;

/// What the envelope of a transfer does next.
pub type EnvelopeAction = TransferAction<(), (), SdhciDataCompletionError>;

/// What comes to the envelope of a transfer.
pub type EnvelopeEvent = TransferEvent<(), (), SdhciDataCompletionError>;

/// What a transfer comes to, given what its envelope comes to.
pub open spec fn transfer_outcome(r: Result<(), EnvelopeError>) -> Result<
    (),
    SdhciDataTransferError,
> {
    match r {
        Ok(_) => Ok(()),
        Err(DmaTransferError::CleanFailed(e)) => Err(SdhciDataTransferError::CleanFailed(e)),
        Err(DmaTransferError::Completion(e)) => Err(SdhciDataTransferError::Completion(e)),
        Err(DmaTransferError::InvalidateFailed(e)) => Err(
            SdhciDataTransferError::InvalidateFailed(e),
        ),
        Err(DmaTransferError::Kick(_)) => Ok(()),
    }
}

/// What a transfer does, given what its envelope does.
pub open spec fn enveloped(
    t: SdhciDataTransfer,
    s: (TransferStage<()>, EnvelopeAction),
) -> (DataTransferStage, TransferDo) {
    match s.1 {
        TransferAction::Sync(request) => (
            DataTransferStage::Moving(s.0),
            TransferDo::Sync(request),
        ),
        TransferAction::Kick => (DataTransferStage::Moving(s.0), TransferDo::Kick(t.kick())),
        TransferAction::Await => (
            DataTransferStage::Waiting(DataStage::Waiting { cmd_seen: false }),
            TransferDo::Wait(DataAction::WaitIrq { budget_ms: TRANSFER_BUDGET_MS }),
        ),
        TransferAction::Finish(r) => (
            DataTransferStage::Ended,
            TransferDo::Finish(transfer_outcome(r)),
        ),
    }
}

/// What a transfer does when `event` comes. It starts only once both lines are free.
pub open spec fn data_transfer_next(
    t: SdhciDataTransfer,
    regions: Seq<DmaRegion>,
    stage: DataTransferStage,
    event: TransferSaw,
) -> (DataTransferStage, TransferDo) {
    match (stage, event) {
        (DataTransferStage::Inhibited, TransferSaw::Present(p)) => if !p.cmd_inhibit
            && !p.dat_inhibit {
            enveloped(t, clean_next(regions, 0))
        } else if p.expired {
            (
                DataTransferStage::Ended,
                TransferDo::Finish(
                    Err(SdhciDataTransferError::InhibitStuck { present_state: p.bits }),
                ),
            )
        } else {
            (
                DataTransferStage::Inhibited,
                TransferDo::PollPresent { budget_ms: INHIBIT_BUDGET_MS },
            )
        },
        (DataTransferStage::Moving(s), TransferSaw::Synced(reply)) => enveloped(
            t,
            transfer_next(regions, s, EnvelopeEvent::Synced(reply)),
        ),
        (DataTransferStage::Moving(s), TransferSaw::Kicked) => enveloped(
            t,
            transfer_next(regions, s, EnvelopeEvent::Kicked(Ok(()))),
        ),
        (DataTransferStage::Waiting(d), TransferSaw::Data(e)) => match data_next(d, e) {
            (_, DataAction::Finish(r)) => enveloped(
                t,
                transfer_next(
                    regions,
                    TransferStage::Awaiting(()),
                    EnvelopeEvent::Completed(r),
                ),
            ),
            (next, action) => (DataTransferStage::Waiting(next), TransferDo::Wait(action)),
        },
        _ => (
            DataTransferStage::Ended,
            TransferDo::PollPresent { budget_ms: INHIBIT_BUDGET_MS },
        ),
    }
}

/// Whether an event is one that a transfer waits for.
pub open spec fn data_transfer_awaits(stage: DataTransferStage, event: TransferSaw) -> bool {
    match stage {
        DataTransferStage::Inhibited => event is Present,
        DataTransferStage::Moving(s) => match s {
            TransferStage::Cleaning(_) => event is Synced,
            TransferStage::Kicking => event is Kicked,
            TransferStage::Invalidating(_, _) => event is Synced,
            _ => false,
        },
        DataTransferStage::Waiting(d) => event matches TransferSaw::Data(e) && data_awaits(d, e),
        DataTransferStage::Ended => false,
    }
}

/// Whether a stage speaks of a region that there is.
pub open spec fn data_transfer_within(stage: DataTransferStage, n: nat) -> bool {
    stage matches DataTransferStage::Moving(s) ==> within(s, n)
}

fn envelope(params: &SdhciDataTransfer, s: (TransferStage<()>, EnvelopeAction)) -> (r: (
    DataTransferStage,
    TransferDo,
))
    requires
        !(s.1 matches TransferAction::Finish(Err(DmaTransferError::Kick(_)))),
    ensures
        r == enveloped(*params, s),
{
    let (stage, action) = s;
    match action {
        TransferAction::Sync(request) => (
            DataTransferStage::Moving(stage),
            TransferDo::Sync(request),
        ),
        TransferAction::Kick => (
            DataTransferStage::Moving(stage),
            TransferDo::Kick(params.kick_writes()),
        ),
        TransferAction::Await => {
            let (wait, action) = SdhciDataCompletion::await_complete();
            (DataTransferStage::Waiting(wait.stage), TransferDo::Wait(action))
        },
        TransferAction::Finish(result) => {
            let r = match result {
                Ok(_) => Ok(()),
                Err(DmaTransferError::CleanFailed(e)) => Err(
                    SdhciDataTransferError::CleanFailed(e),
                ),
                Err(DmaTransferError::Completion(e)) => Err(
                    SdhciDataTransferError::Completion(e),
                ),
                Err(DmaTransferError::InvalidateFailed(e)) => Err(
                    SdhciDataTransferError::InvalidateFailed(e),
                ),
                Err(DmaTransferError::Kick(_)) => Ok(()),
            };
            (DataTransferStage::Ended, TransferDo::Finish(r))
        },
    }
}

impl SdhciCommandInit {
    /// Starts a transfer of one block. The descriptors and the block are among the regions.
    pub fn issue_data_transfer(params: SdhciDataTransfer, regions: Vec<DmaRegion>) -> (r: (
        SdhciTransfer,
        TransferDo,
    ))
        ensures
            r.0 == (SdhciTransfer { params, regions, stage: DataTransferStage::Inhibited }),
            r.1 == (TransferDo::PollPresent { budget_ms: INHIBIT_BUDGET_MS }),
    {
        (
            SdhciTransfer { params, regions, stage: DataTransferStage::Inhibited },
            TransferDo::PollPresent { budget_ms: INHIBIT_BUDGET_MS },
        )
    }
}

impl SdhciTransfer {
    /// Goes on, now that `event` has come.
    pub fn step(self, event: TransferSaw) -> (r: (SdhciTransfer, TransferDo))
        requires
            data_transfer_awaits(self.stage, event),
            data_transfer_within(self.stage, self.regions@.len()),
        ensures
            r.0.params == self.params,
            r.0.regions == self.regions,
            (r.0.stage, r.1) == data_transfer_next(self.params, self.regions@, self.stage, event),
            data_transfer_within(r.0.stage, r.0.regions@.len()),
    {
        let params = self.params;
        let regions = self.regions;
        let (stage, action) = match self.stage {
            DataTransferStage::Inhibited => match event {
                TransferSaw::Present(p) => {
                    if !p.cmd_inhibit && !p.dat_inhibit {
                        envelope(&params, run_dma_transfer(&regions))
                    } else if p.expired {
                        (
                            DataTransferStage::Ended,
                            TransferDo::Finish(
                                Err(
                                    SdhciDataTransferError::InhibitStuck {
                                        present_state: p.bits,
                                    },
                                ),
                            ),
                        )
                    } else {
                        (
                            DataTransferStage::Inhibited,
                            TransferDo::PollPresent { budget_ms: INHIBIT_BUDGET_MS },
                        )
                    }
                },
                _ => (
                    DataTransferStage::Ended,
                    TransferDo::PollPresent { budget_ms: INHIBIT_BUDGET_MS },
                ),
            },
            DataTransferStage::Moving(s) => match event {
                TransferSaw::Synced(reply) => envelope(
                    &params,
                    resume_transfer(&regions, s, TransferEvent::Synced(reply)),
                ),
                _ => envelope(
                    &params,
                    resume_transfer(&regions, s, TransferEvent::Kicked(Ok(()))),
                ),
            },
            DataTransferStage::Waiting(d) => match event {
                TransferSaw::Data(e) => {
                    let mut wait = SdhciDataCompletion { stage: d };
                    match wait.step(e) {
                        DataAction::Finish(result) => envelope(
                            &params,
                            resume_transfer(
                                &regions,
                                TransferStage::Awaiting(()),
                                TransferEvent::Completed(result),
                            ),
                        ),
                        action => (
                            DataTransferStage::Waiting(wait.stage),
                            TransferDo::Wait(action),
                        ),
                    }
                },
                _ => (
                    DataTransferStage::Ended,
                    TransferDo::PollPresent { budget_ms: INHIBIT_BUDGET_MS },
                ),
            },
            DataTransferStage::Ended => (
                DataTransferStage::Ended,
                TransferDo::PollPresent { budget_ms: INHIBIT_BUDGET_MS },
            ),
        };
        (SdhciTransfer { params, regions, stage }, action)
    }
}

/// A transfer that fails because the lines are not free has touched nothing: that is its only
/// failure before anything is cleaned or started, and afterwards it is none.
pub proof fn lemma_stuck_is_untouched(
    t: SdhciDataTransfer,
    regions: Seq<DmaRegion>,
    stage: DataTransferStage,
    event: TransferSaw,
)
    requires
        data_transfer_awaits(stage, event),
    ensures
        data_transfer_next(t, regions, stage, event).1 matches TransferDo::Finish(Err(e)) ==> (
        e is InhibitStuck <==> stage is Inhibited),
{
}

/// The controller is started only when both lines were seen to be free and nothing is left to
/// clean: out of the first stage where there are no regions, or once the last one was cleaned.
pub proof fn lemma_kicked_when_clean(
    t: SdhciDataTransfer,
    regions: Seq<DmaRegion>,
    stage: DataTransferStage,
    event: TransferSaw,
)
    requires
        data_transfer_awaits(stage, event),
        data_transfer_within(stage, regions.len()),
        data_transfer_next(t, regions, stage, event).1 is Kick,
    ensures
        data_transfer_next(t, regions, stage, event).1->Kick_0 == t.kick(),
        match stage {
            DataTransferStage::Inhibited => regions.len() == 0 && !event->Present_0.cmd_inhibit
                && !event->Present_0.dat_inhibit,
            DataTransferStage::Moving(TransferStage::Cleaning(i)) => i + 1 == regions.len()
                && event->Synced_0 is Ok,
            _ => false,
        },
{
}

/// A transfer succeeds only once the controller has drained and every region that the device
/// wrote was invalidated.
pub proof fn lemma_succeeds_when_coherent(
    t: SdhciDataTransfer,
    regions: Seq<DmaRegion>,
    stage: DataTransferStage,
    event: TransferSaw,
)
    requires
        data_transfer_awaits(stage, event),
        data_transfer_next(t, regions, stage, event).1 matches TransferDo::Finish(Ok(_)),
    ensures
        match stage {
            DataTransferStage::Waiting(d) => d is Draining && written_from(regions, 0)
                == regions.len(),
            DataTransferStage::Moving(TransferStage::Invalidating(i, _)) => event->Synced_0 is Ok
                && written_from(regions, i + 1) == regions.len(),
            _ => false,
        },
{
    lemma_written_from(regions, 0);
    if let DataTransferStage::Moving(TransferStage::Invalidating(i, _)) = stage {
        lemma_written_from(regions, i + 1);
    }
}

/// A transfer that is started is the one that was asked for: its command, argument and
/// descriptors are the caller's, the transfer mode says that the data comes from the card if
/// and only if the caller reads, one block goes with the command, and the controller moves it
/// itself.
pub proof fn lemma_starts_what_was_asked(
    t: SdhciDataTransfer,
    regions: Seq<DmaRegion>,
    stage: DataTransferStage,
    event: TransferSaw,
)
    ensures
        data_transfer_next(t, regions, stage, event).1 matches TransferDo::Kick(k) ==> {
            &&& k.reads_card <==> t.direction is Read
            &&& k.command == t.cmd
            &&& k.argument == t.arg
            &&& k.adma_address == t.adma_descriptor_pa
            &&& k.select is SelectAdma32
            &&& k.block_size == 512 && k.block_count == 1
            &&& k.moves_data && k.with_data
            &&& k.shape is R1
        },
{
}

/// A transfer without regions that goes well: once both lines are free it is started, the
/// interrupt is waited for, what the interrupt shows is acknowledged, and once the data is
/// complete and the data lines are free the transfer succeeds.
pub proof fn lemma_transfer_runs(t: SdhciDataTransfer, free: Present, s: IntStatus, drained: Present)
    requires
        !free.cmd_inhibit && !free.dat_inhibit,
        !s.error && s.data_complete,
        !drained.dat_inhibit,
    ensures
        ({
            let none = Seq::<DmaRegion>::empty();
            let (s1, a1) = data_transfer_next(
                t,
                none,
                DataTransferStage::Inhibited,
                TransferSaw::Present(free),
            );
            let (s2, a2) = data_transfer_next(t, none, s1, TransferSaw::Kicked);
            let (s3, a3) = data_transfer_next(t, none, s2, TransferSaw::Data(DataEvent::Irq(Ok(()))));
            let (s4, a4) = data_transfer_next(t, none, s3, TransferSaw::Data(DataEvent::Status(s)));
            let (s5, a5) = data_transfer_next(
                t,
                none,
                s4,
                TransferSaw::Data(DataEvent::Acknowledged),
            );
            let (s6, a6) = data_transfer_next(
                t,
                none,
                s5,
                TransferSaw::Data(DataEvent::Present(drained)),
            );
            &&& a1 is Kick
            &&& a2 == TransferDo::Wait(DataAction::WaitIrq { budget_ms: 1000 })
            &&& a3 == TransferDo::Wait(DataAction::ReadStatus)
            &&& a4 == TransferDo::Wait(
                DataAction::Acknowledge { cmd_complete: s.cmd_complete, data_complete: true },
            )
            &&& a5 == TransferDo::Wait(DataAction::PollPresent { budget_ms: 10 })
            &&& a6 == TransferDo::Finish(Ok(()))
            &&& s6 is Ended
        }),
{
}

/// A transfer that fails tells why, with what the controller showed: the status of the lines
/// where they are stuck, the error's bits where there was one, as one of the command until the
/// command was seen to complete; and a wait that runs out says for what it waited.
pub proof fn lemma_transfer_fails(
    cmd_seen: bool,
    data_seen: bool,
    s: IntStatus,
    bits: u16,
    p: Present,
    e: IrqWaitError,
)
    ensures
        s.error ==> data_next(DataStage::Looking { cmd_seen }, DataEvent::Status(s)).1
            is CollectError,
        s.error ==> ({
            let failing = data_next(DataStage::Looking { cmd_seen }, DataEvent::Status(s)).0;
            data_next(failing, DataEvent::ErrorBits(bits)).1 == DataAction::Finish(
                Err(
                    if cmd_seen {
                        SdhciDataCompletionError::DataError { err_int_status: bits }
                    } else {
                        SdhciDataCompletionError::CmdError { err_int_status: bits }
                    },
                ),
            )
        }),
        data_next(DataStage::Waiting { cmd_seen }, DataEvent::Irq(Err(e))).1 == DataAction::Finish(
            Err(
                if cmd_seen {
                    SdhciDataCompletionError::TransferCompleteTimeout
                } else {
                    SdhciDataCompletionError::CmdCompleteTimeout
                },
            ),
        ),
        p.dat_inhibit && p.expired ==> data_next(DataStage::Draining, DataEvent::Present(p)).1
            == DataAction::Finish(
            Err(SdhciDataCompletionError::DatInhibitStuck { present_state: p.bits }),
        ),
        p.dat_inhibit && !p.expired ==> data_next(DataStage::Draining, DataEvent::Present(p)).1
            is PollPresent,
        !s.error ==> ({
            let (seen, a) = data_next(DataStage::Looking { cmd_seen }, DataEvent::Status(s));
            let after = data_next(seen, DataEvent::Acknowledged);
            &&& a == DataAction::Acknowledge {
                cmd_complete: s.cmd_complete,
                data_complete: s.data_complete,
            }
            &&& s.data_complete ==> after.0 is Draining
            &&& !s.data_complete ==> after.0 == (DataStage::Waiting {
                cmd_seen: cmd_seen || s.cmd_complete,
            }) && after.1 is WaitIrq
        }),
{
}

/// A command that goes well: it is issued, with its own argument and response, once the
/// command line is free; once the controller says that it is complete its response is read,
/// four words of it if and only if the response has four; and that is the result.
pub proof fn lemma_command_runs(c: CardCommand, free: Present, s: IntStatus, r: Response)
    requires
        !free.cmd_inhibit,
        !s.error && s.cmd_complete,
    ensures
        ({
            let (s1, a1) = command_next(c, CommandStage::Inhibited, CommandEvent::Present(free));
            let (s2, a2) = command_next(c, s1, CommandEvent::Status(s));
            let (s3, a3) = command_next(c, s2, CommandEvent::Response(r));
            &&& a1 == CommandAction::Issue { command: c, budget_ms: 1000 }
            &&& a2 matches CommandAction::ReadResponse { long } && (long <==> c.shape is R2)
            &&& a3 == CommandAction::Finish(Ok(r))
            &&& s3 is Ended
        }),
{
}

/// A command waits while the line is not free and while nothing was seen, until its budget has
/// run out; an error is collected, and its bits are what the command failed with.
pub proof fn lemma_command_waits(c: CardCommand, p: Present, s: IntStatus, bits: u16)
    ensures
        p.cmd_inhibit ==> command_next(c, CommandStage::Inhibited, CommandEvent::Present(p)) == (
        if p.expired {
            (
                CommandStage::Ended,
                CommandAction::Finish(
                    Err(SdhciCommandError::InhibitStuck { present_state: p.bits }),
                ),
            )
        } else {
            (CommandStage::Inhibited, CommandAction::PollPresent { budget_ms: 100 })
        }),
        !s.error && !s.cmd_complete ==> command_next(
            c,
            CommandStage::Issued,
            CommandEvent::Status(s),
        ) == (if s.expired {
            (CommandStage::Ended, CommandAction::Finish(Err(SdhciCommandError::NoResponse)))
        } else {
            (CommandStage::Issued, CommandAction::PollStatus)
        }),
        s.error ==> ({
            let (failing, a) = command_next(c, CommandStage::Issued, CommandEvent::Status(s));
            &&& a is CollectError
            &&& command_next(c, failing, CommandEvent::ErrorBits(bits)).1 == CommandAction::Finish(
                Err(SdhciCommandError::ControllerError { err_int_status: bits }),
            )
        }),
{
}

// ---------------------------------------------------------------------------
// Setting the controller up
// ---------------------------------------------------------------------------

/// Why the controller could not be set up.
#[derive(Clone, Copy, Debug, PartialEq, Eq, Structural)]
pub enum SdhciInitError {
    ResetTimeout,
    ClockUnstable,
}

/// One look after a reset was started: it is done once the controller has cleared the bit.
pub fn soft_reset_all(resetting: bool, expired: bool) -> (r: Option<Result<(), SdhciInitError>>)
    ensures
        r == if !resetting {
            Some(Ok::<(), SdhciInitError>(()))
        } else if expired {
            Some(Err(SdhciInitError::ResetTimeout))
        } else {
            None
        },
{
    if !resetting {
        return Some(Ok(()));
    }
    if expired {
        return Some(Err(SdhciInitError::ResetTimeout));
    }
    None
}

/// What setting the clock does next.
#[derive(Clone, Copy, Debug)]
pub enum ClockAction {
    /// Gate the clock off.
    GateOff,
    /// Write the divisor and let the internal clock run.
    WriteDivisor { lo: u8, hi: u8 },
    /// Look whether the internal clock is stable.
    PollStable { budget_ms: u64 },
    /// Gate the clock on.
    GateOn,
    Finish(Result<(), SdhciInitError>),
}

/// Where setting the clock stands.
#[derive(Clone, Copy, Debug, PartialEq, Eq, Structural)]
pub enum ClockStage {
    Gating,
    Dividing,
    Settling,
    Opening,
    Ended,
}

/// How setting the clock goes on. In the third stage `stable` and `expired` are what the
/// look showed.
pub open spec fn clock_next(
    stage: ClockStage,
    divisor: (u8, u8),
    stable: bool,
    expired: bool,
) -> (ClockStage, ClockAction) {
    match stage {
        ClockStage::Gating => (
            ClockStage::Dividing,
            ClockAction::WriteDivisor { lo: divisor.0, hi: divisor.1 },
        ),
        ClockStage::Dividing => (
            ClockStage::Settling,
            ClockAction::PollStable { budget_ms: CLOCK_BUDGET_MS },
        ),
        ClockStage::Settling => if stable {
            (ClockStage::Opening, ClockAction::GateOn)
        } else if expired {
            (ClockStage::Ended, ClockAction::Finish(Err(SdhciInitError::ClockUnstable)))
        } else {
            (ClockStage::Settling, ClockAction::PollStable { budget_ms: CLOCK_BUDGET_MS })
        },
        ClockStage::Opening => (ClockStage::Ended, ClockAction::Finish(Ok(()))),
        ClockStage::Ended => (ClockStage::Ended, ClockAction::Finish(Ok(()))),
    }
}

/// Sets the clock: it is gated off while the divisor changes, and on again only once the
/// internal clock is stable. The first action is to gate it off.
pub fn configure_clock(stage: ClockStage, divisor: (u8, u8), stable: bool, expired: bool) -> (r: (
    ClockStage,
    ClockAction,
))
    ensures
        r == clock_next(stage, divisor, stable, expired),
{
    match stage {
        ClockStage::Gating => (
            ClockStage::Dividing,
            ClockAction::WriteDivisor { lo: divisor.0, hi: divisor.1 },
        ),
        ClockStage::Dividing => (
            ClockStage::Settling,
            ClockAction::PollStable { budget_ms: CLOCK_BUDGET_MS },
        ),
        ClockStage::Settling => {
            if stable {
                (ClockStage::Opening, ClockAction::GateOn)
            } else if expired {
                (ClockStage::Ended, ClockAction::Finish(Err(SdhciInitError::ClockUnstable)))
            } else {
                (ClockStage::Settling, ClockAction::PollStable { budget_ms: CLOCK_BUDGET_MS })
            }
        },
        ClockStage::Opening => (ClockStage::Ended, ClockAction::Finish(Ok(()))),
        ClockStage::Ended => (ClockStage::Ended, ClockAction::Finish(Ok(()))),
    }
}

/// Whatever the looks show, the clock is on again only after the divisor that was asked for
/// was written and the internal clock was seen to be stable; a clock that stays unstable until
/// the budget has run out is not switched on.
pub proof fn lemma_clock_on_when_stable(divisor: (u8, u8), a: bool, b: bool)
    ensures
        ({
            let (s1, x1) = clock_next(ClockStage::Gating, divisor, a, b);
            let (s2, x2) = clock_next(s1, divisor, a, b);
            let (on, x3) = clock_next(s2, divisor, true, b);
            let (off, y3) = clock_next(s2, divisor, false, true);
            let (still, z3) = clock_next(s2, divisor, false, false);
            &&& x1 == ClockAction::WriteDivisor { lo: divisor.0, hi: divisor.1 }
            &&& x2 == ClockAction::PollStable { budget_ms: 100 }
            &&& x3 is GateOn && clock_next(on, divisor, a, b).1 == ClockAction::Finish(Ok(()))
            &&& y3 == ClockAction::Finish(Err(SdhciInitError::ClockUnstable))
            &&& z3 is PollStable && still == s2
        }),
        forall|stage: ClockStage| #[trigger]
            clock_next(stage, divisor, a, b).1 is GateOn ==> stage is Settling && a,
{
}

/// A write to a register of the controller.
#[derive(Clone, Copy, Debug, PartialEq, Eq, Structural)]
pub enum SdhciWrite {
    ClearNormalStatus(u16),
    ClearErrorStatus(u16),
    NormalSignalEnable(u16),
    ErrorSignalEnable(u16),
    NormalStatusEnable(u16),
    ErrorStatusEnable(u16),
    /// Power the bus with the given voltage.
    PowerOn { voltage: u8 },
    /// The exponent of the time after which a data line is given up.
    DataTimeout(u8),
    /// Drive four data lines; the other bits of the register stay.
    FourDataLines,
    /// Fetch descriptors of 32 bits; the other bits of the register stay.
    SelectAdma32,
    /// Where the descriptors stand.
    AdmaAddress(u32),
}

/// Powers the bus. The caller waits until the voltage has settled.
pub fn set_power_on(voltage: u8) -> (r: SdhciWrite)
    ensures
        r == (SdhciWrite::PowerOn { voltage }),
{
    SdhciWrite::PowerOn { voltage }
}

/// Powers the bus, with the milliseconds to sleep afterwards until the voltage has settled.
pub fn set_power_on_and_settle(voltage: u8) -> (r: (SdhciWrite, u64))
    ensures
        r == (SdhciWrite::PowerOn { voltage }, SETTLE_MS),
{
    (set_power_on(voltage), SETTLE_MS)
}

/// The writes that choose which events the controller keeps in its status registers.
pub fn set_int_enable_masks(normal: u16, error: u16) -> (out: Vec<SdhciWrite>)
    ensures
        out@ == seq![SdhciWrite::NormalStatusEnable(normal), SdhciWrite::ErrorStatusEnable(error)],
{
    let mut out: Vec<SdhciWrite> = Vec::new();
    out.push(SdhciWrite::NormalStatusEnable(normal));
    out.push(SdhciWrite::ErrorStatusEnable(error));
    assert(out@ =~= seq![
        SdhciWrite::NormalStatusEnable(normal),
        SdhciWrite::ErrorStatusEnable(error),
    ]);
    out
}

/// Chooses after which time a data line is given up.
pub fn set_timeout_dat_counter(value: u8) -> (r: SdhciWrite)
    ensures
        r == SdhciWrite::DataTimeout(value),
{
    SdhciWrite::DataTimeout(value)
}

/// Makes the controller drive four data lines, as the card does.
pub fn set_bus_width_4bit() -> (r: SdhciWrite)
    ensures
        r == SdhciWrite::FourDataLines,
{
    SdhciWrite::FourDataLines
}

/// The writes that make the controller fetch its descriptors from the given address.
pub fn init_adma2_32(descriptor_pa: u32) -> (out: Vec<SdhciWrite>)
    ensures
        out@ == seq![SdhciWrite::SelectAdma32, SdhciWrite::AdmaAddress(descriptor_pa)],
{
    let mut out: Vec<SdhciWrite> = Vec::new();
    out.push(SdhciWrite::SelectAdma32);
    out.push(SdhciWrite::AdmaAddress(descriptor_pa));
    assert(out@ =~= seq![SdhciWrite::SelectAdma32, SdhciWrite::AdmaAddress(descriptor_pa)]);
    out
}

/// The writes that let the controller raise interrupts: what is pending is cleared first.
pub fn enable_irq_signaling(normal: u16, error: u16) -> (out: Vec<SdhciWrite>)
    ensures
        out@ == seq![
            SdhciWrite::ClearNormalStatus(0xFFFF),
            SdhciWrite::ClearErrorStatus(0xFFFF),
            SdhciWrite::NormalSignalEnable(normal),
            SdhciWrite::ErrorSignalEnable(error),
        ],
{
    let mut out: Vec<SdhciWrite> = Vec::new();
    out.push(SdhciWrite::ClearNormalStatus(0xFFFF));
    out.push(SdhciWrite::ClearErrorStatus(0xFFFF));
    out.push(SdhciWrite::NormalSignalEnable(normal));
    out.push(SdhciWrite::ErrorSignalEnable(error));
    assert(out@ =~= seq![
        SdhciWrite::ClearNormalStatus(0xFFFF),
        SdhciWrite::ClearErrorStatus(0xFFFF),
        SdhciWrite::NormalSignalEnable(normal),
        SdhciWrite::ErrorSignalEnable(error),
    ]);
    out
}

// ---------------------------------------------------------------------------
// Cards
// ---------------------------------------------------------------------------

/// Why a card could not be brought up.
#[derive(Clone, Copy, Debug, PartialEq, Eq, Structural)]
pub enum MmcCardError {
    Sdhci(SdhciCommandError),
    Cmd8EchoMismatch { echo: u32 },
    Acmd41Timeout,
    Cmd9NotV2 { csd_structure: u8 },
    Cmd7BusyStuck { present_state: u32 },
}

/// The argument of the command that asks for the card's version.
pub const CMD8_IF_COND_ARG: u32 = 0x1AA;

/// The width of the data bus.
#[derive(Clone, Copy, Debug, PartialEq, Eq, Structural)]
pub enum BusWidth {
    Bit1,
    Bit4,
}

/// A card's operating conditions.
#[derive(Clone, Copy, Debug, PartialEq, Eq, Structural)]
pub struct OcrRegister {
    pub raw: u32,
    pub power_up_done: bool,
}

/// A card of which nothing is known.
pub struct Uninit;

/// A card that is idle.
pub struct Idle;

/// An idle card that was told that the command that powers it up comes next.
pub struct Announced;

/// A card that has powered up.
pub struct Ready {
    pub ocr: OcrRegister,
}

/// A card that was identified.
pub struct Ident {
    pub ocr: OcrRegister,
    pub cid: Response,
}

/// A card that has an address.
pub struct Stby {
    pub ocr: OcrRegister,
    pub cid: Response,
    pub rca: u16,
}

/// A card that was asked for its properties and is being selected.
pub struct Selecting {
    pub ocr: OcrRegister,
    pub cid: Response,
    pub rca: u16,
    pub csd: Response,
}

/// A card that was selected and may still be busy.
pub struct Busy {
    pub ocr: OcrRegister,
    pub cid: Response,
    pub rca: u16,
    pub csd: Response,
}

/// A card that transfers data.
pub struct Tran {
    pub ocr: OcrRegister,
    pub cid: Response,
    pub rca: u16,
    pub csd: Response,
    pub bus_width: BusWidth,
}

/// A card that transfers data and was told that the command that widens its bus comes next.
pub struct Widening {
    pub card: Tran,
}

/// What is known of a card that transfers data. It comes only from such a card.
#[derive(Clone, Copy, Debug, PartialEq, Eq, Structural)]
pub struct CardInfo {
    rca: u16,
    ocr: OcrRegister,
    cid: Response,
    csd: Response,
    bus_width: BusWidth,
}

impl CardInfo {
    /// The card that it tells of.
    pub closed spec fn view(&self) -> Tran {
        Tran {
            ocr: self.ocr,
            cid: self.cid,
            rca: self.rca,
            csd: self.csd,
            bus_width: self.bus_width,
        }
    }

    /// The address that the card published.
    pub fn rca(&self) -> (r: u16)
        ensures
            r == self@.rca,
    {
        self.rca
    }

    /// The card's conditions as it came up.
    pub fn ocr(&self) -> (r: OcrRegister)
        ensures
            r == self@.ocr,
    {
        self.ocr
    }

    /// The card's identification.
    pub fn cid(&self) -> (r: Response)
        ensures
            r == self@.cid,
    {
        self.cid
    }

    /// The card's capacity register.
    pub fn csd(&self) -> (r: Response)
        ensures
            r == self@.csd,
    {
        self.csd
    }

    /// The width of the bus.
    pub fn bus_width(&self) -> (r: BusWidth)
        ensures
            r == self@.bus_width,
    {
        self.bus_width
    }
}

/// A card, and how far it was brought up. What a state holds was learned on the way to it; a
/// card that is further on comes only from the step before.
pub struct MmcCard<S> {
    state: S,
}

impl<S> MmcCard<S> {
    /// What is known of the card.
    pub closed spec fn known(&self) -> S {
        self.state
    }
}

/// The argument that addresses a card.
pub open spec fn rca_arg(rca: u16) -> u32 {
    (rca * 0x1_0000) as u32
}

/// The argument that addresses a card has the address in its upper half and zeros below.
pub proof fn lemma_rca_arg(rca: u16)
    ensures
        rca_arg(rca) / 0x1_0000 == rca,
        rca_arg(rca) % 0x1_0000 == 0,
{
}

fn address_of(rca: u16) -> (r: u32)
    ensures
        r == rca_arg(rca),
{
    rca as u32 * 0x1_0000
}

/// The command with the given argument and response.
pub open spec fn card_command(cmd: SdCommand, arg: u32, shape: ResponseShape) -> CardCommand {
    CardCommand { cmd, arg, shape }
}

impl MmcCard<Uninit> {
    /// A card of which nothing is known, and the command that makes it idle.
    pub fn uninit() -> (r: (MmcCard<Uninit>, CardCommand))
        ensures
            r.1 == card_command(SdCommand::GoIdleState, 0, ResponseShape::R0),
    {
        (
            MmcCard { state: Uninit },
            CardCommand { cmd: SdCommand::GoIdleState, arg: 0, shape: ResponseShape::R0 },
        )
    }

    /// Goes on once the card was made idle: the next command asks for its version.
    pub fn go_idle(self, r: Result<Response, SdhciCommandError>) -> (out: Result<
        (MmcCard<Idle>, CardCommand),
        MmcCardError,
    >)
        ensures
            match r {
                Ok(_) => out matches Ok(ok) && ok.1 == card_command(
                    SdCommand::SendIfCond,
                    CMD8_IF_COND_ARG,
                    ResponseShape::R7,
                ),
                Err(e) => out matches Err(f) && f == MmcCardError::Sdhci(e),
            },
    {
        match r {
            Ok(_) => Ok(
                (
                    MmcCard { state: Idle },
                    CardCommand {
                        cmd: SdCommand::SendIfCond,
                        arg: CMD8_IF_COND_ARG,
                        shape: ResponseShape::R7,
                    },
                ),
            ),
            Err(e) => Err(MmcCardError::Sdhci(e)),
        }
    }
}

/// What a card that powers up does next.
pub enum PowerUp {
    Ready(MmcCard<Ready>, CardCommand),
    /// Sleep for so many milliseconds, and issue the command.
    Again(MmcCard<Idle>, CardCommand, u64),
    Failed(MmcCardError),
}

impl MmcCard<Idle> {
    /// Goes on once the card was asked for its version, which it echoes in twelve bits: the
    /// next command announces the one that powers it up.
    pub fn verify_sdv2_if_cond(self, r: Result<Response, SdhciCommandError>) -> (out: Result<
        (MmcCard<Idle>, CardCommand),
        MmcCardError,
    >)
        ensures
            match r {
                Err(e) => out matches Err(f) && f == MmcCardError::Sdhci(e),
                Ok(w) => if w.0 % 0x1000 == 0x1AA {
                    out matches Ok(ok) && ok.1 == card_command(
                        SdCommand::AppCmd,
                        0,
                        ResponseShape::R1,
                    )
                } else {
                    out matches Err(f) && f == (MmcCardError::Cmd8EchoMismatch { echo: w.0 })
                },
            },
    {
        match r {
            Err(e) => Err(MmcCardError::Sdhci(e)),
            Ok(w) => {
                if w.0 % 0x1000 != 0x1AA {
                    return Err(MmcCardError::Cmd8EchoMismatch { echo: w.0 });
                }
                Ok((self, CardCommand { cmd: SdCommand::AppCmd, arg: 0, shape: ResponseShape::R1 }))
            },
        }
    }

    /// Goes on once the power-up command was announced.
    pub fn announce_power_up(self, r: Result<Response, SdhciCommandError>, acmd41_arg: u32) -> (out:
        Result<(MmcCard<Announced>, CardCommand), MmcCardError>)
        ensures
            match r {
                Err(e) => out matches Err(f) && f == MmcCardError::Sdhci(e),
                Ok(_) => out matches Ok(ok) && ok.1 == card_command(
                    SdCommand::SdSendOpCond,
                    acmd41_arg,
                    ResponseShape::R3,
                ),
            },
    {
        match r {
            Err(e) => Err(MmcCardError::Sdhci(e)),
            Ok(_) => Ok(
                (
                    MmcCard { state: Announced },
                    CardCommand {
                        cmd: SdCommand::SdSendOpCond,
                        arg: acmd41_arg,
                        shape: ResponseShape::R3,
                    },
                ),
            ),
        }
    }
}

impl MmcCard<Announced> {
    /// Goes on once the power-up command was answered, given whether its budget has run
    /// out: the card is ready, or it is asked again after a pause.
    pub fn power_up_to_ready(
        self,
        r: Result<OcrRegister, SdhciCommandError>,
        expired: bool,
    ) -> (out: PowerUp)
        ensures
            match r {
                Err(e) => out matches PowerUp::Failed(f) && f == MmcCardError::Sdhci(e),
                Ok(ocr) => if ocr.power_up_done {
                    out matches PowerUp::Ready(card, c) && card.known().ocr == ocr && c
                        == card_command(SdCommand::AllSendCid, 0, ResponseShape::R2)
                } else if expired {
                    out matches PowerUp::Failed(f) && f == MmcCardError::Acmd41Timeout
                } else {
                    out matches PowerUp::Again(_, c, pause_ms) && c == card_command(
                        SdCommand::AppCmd,
                        0,
                        ResponseShape::R1,
                    ) && pause_ms == POWER_UP_PAUSE_MS
                },
            },
    {
        match r {
            Err(e) => PowerUp::Failed(MmcCardError::Sdhci(e)),
            Ok(ocr) => {
                if ocr.power_up_done {
                    PowerUp::Ready(
                        MmcCard { state: Ready { ocr } },
                        CardCommand {
                            cmd: SdCommand::AllSendCid,
                            arg: 0,
                            shape: ResponseShape::R2,
                        },
                    )
                } else if expired {
                    PowerUp::Failed(MmcCardError::Acmd41Timeout)
                } else {
                    PowerUp::Again(
                        MmcCard { state: Idle },
                        CardCommand { cmd: SdCommand::AppCmd, arg: 0, shape: ResponseShape::R1 },
                        POWER_UP_PAUSE_MS,
                    )
                }
            },
        }
    }
}

impl MmcCard<Ready> {
    /// Goes on once the card was identified: the next command gives it an address.
    pub fn identify(self, r: Result<Response, SdhciCommandError>) -> (out: Result<
        (MmcCard<Ident>, CardCommand),
        MmcCardError,
    >)
        ensures
            match r {
                Err(e) => out matches Err(f) && f == MmcCardError::Sdhci(e),
                Ok(cid) => out matches Ok(ok) && ok.0.known() == (Ident {
                    ocr: self.known().ocr,
                    cid,
                }) && ok.1 == card_command(SdCommand::SendRelativeAddr, 0, ResponseShape::R6),
            },
    {
        match r {
            Err(e) => Err(MmcCardError::Sdhci(e)),
            Ok(cid) => Ok(
                (
                    MmcCard { state: Ident { ocr: self.state.ocr, cid } },
                    CardCommand {
                        cmd: SdCommand::SendRelativeAddr,
                        arg: 0,
                        shape: ResponseShape::R6,
                    },
                ),
            ),
        }
    }
}

impl MmcCard<Ident> {
    /// Goes on once the card has an address: the next command asks for its properties.
    pub fn publish_rca(self, r: Result<u16, SdhciCommandError>) -> (out: Result<
        (MmcCard<Stby>, CardCommand),
        MmcCardError,
    >)
        ensures
            match r {
                Err(e) => out matches Err(f) && f == MmcCardError::Sdhci(e),
                Ok(rca) => out matches Ok(ok) && ok.0.known() == (Stby {
                    ocr: self.known().ocr,
                    cid: self.known().cid,
                    rca,
                }) && ok.1 == card_command(SdCommand::SendCsd, rca_arg(rca), ResponseShape::R2),
            },
    {
        match r {
            Err(e) => Err(MmcCardError::Sdhci(e)),
            Ok(rca) => Ok(
                (
                    MmcCard { state: Stby { ocr: self.state.ocr, cid: self.state.cid, rca } },
                    CardCommand {
                        cmd: SdCommand::SendCsd,
                        arg: address_of(rca),
                        shape: ResponseShape::R2,
                    },
                ),
            ),
        }
    }
}

impl MmcCard<Stby> {
    /// Goes on once the card was asked for its properties, given the structure that they
    /// have where it is not the one that is known: the next command selects the card.
    pub fn read_csd(self, r: Result<Response, SdhciCommandError>, not_v2: Option<u8>) -> (out:
        Result<(MmcCard<Selecting>, CardCommand), MmcCardError>)
        ensures
            match (r, not_v2) {
                (Err(e), _) => out matches Err(f) && f == MmcCardError::Sdhci(e),
                (Ok(_), Some(csd_structure)) => out matches Err(f) && f == (
                MmcCardError::Cmd9NotV2 { csd_structure }),
                (Ok(csd), None) => out matches Ok(ok) && ok.0.known() == (Selecting {
                    ocr: self.known().ocr,
                    cid: self.known().cid,
                    rca: self.known().rca,
                    csd,
                }) && ok.1 == card_command(
                    SdCommand::SelectCard,
                    rca_arg(self.known().rca),
                    ResponseShape::R1b,
                ),
            },
    {
        match (r, not_v2) {
            (Err(e), _) => Err(MmcCardError::Sdhci(e)),
            (Ok(_), Some(csd_structure)) => Err(MmcCardError::Cmd9NotV2 { csd_structure }),
            (Ok(csd), None) => Ok(
                (
                    MmcCard {
                        state: Selecting {
                            ocr: self.state.ocr,
                            cid: self.state.cid,
                            rca: self.state.rca,
                            csd,
                        },
                    },
                    CardCommand {
                        cmd: SdCommand::SelectCard,
                        arg: address_of(self.state.rca),
                        shape: ResponseShape::R1b,
                    },
                ),
            ),
        }
    }
}

/// What a card that was selected does next.
pub enum Select {
    Selected(MmcCard<Tran>),
    /// Look at the present state again.
    Again(MmcCard<Busy>),
    Failed(MmcCardError),
}

impl MmcCard<Selecting> {
    /// Goes on once the card was selected, before the first look at the present state.
    pub fn selected(self, r: Result<Response, SdhciCommandError>) -> (out: Result<
        MmcCard<Busy>,
        MmcCardError,
    >)
        ensures
            match r {
                Err(e) => out matches Err(f) && f == MmcCardError::Sdhci(e),
                Ok(_) => out matches Ok(card) && card.known() == (Busy {
                    ocr: self.known().ocr,
                    cid: self.known().cid,
                    rca: self.known().rca,
                    csd: self.known().csd,
                }),
            },
    {
        match r {
            Err(e) => Err(MmcCardError::Sdhci(e)),
            Ok(_) => Ok(
                MmcCard {
                    state: Busy {
                        ocr: self.state.ocr,
                        cid: self.state.cid,
                        rca: self.state.rca,
                        csd: self.state.csd,
                    },
                },
            ),
        }
    }
}

impl MmcCard<Busy> {
    /// One look at the present state: the card transfers data once both lines are free.
    pub fn select(self, p: Present) -> (out: Select)
        ensures
            if !p.cmd_inhibit && !p.dat_inhibit {
                out matches Select::Selected(card) && card.known() == (Tran {
                    ocr: self.known().ocr,
                    cid: self.known().cid,
                    rca: self.known().rca,
                    csd: self.known().csd,
                    bus_width: BusWidth::Bit1,
                })
            } else if p.expired {
                out matches Select::Failed(f) && f == (MmcCardError::Cmd7BusyStuck {
                    present_state: p.bits,
                })
            } else {
                out matches Select::Again(card) && card == self
            },
    {
        if !p.cmd_inhibit && !p.dat_inhibit {
            Select::Selected(
                MmcCard {
                    state: Tran {
                        ocr: self.state.ocr,
                        cid: self.state.cid,
                        rca: self.state.rca,
                        csd: self.state.csd,
                        bus_width: BusWidth::Bit1,
                    },
                },
            )
        } else if p.expired {
            Select::Failed(MmcCardError::Cmd7BusyStuck { present_state: p.bits })
        } else {
            Select::Again(self)
        }
    }
}

impl MmcCard<Tran> {
    /// The command that announces the one that widens the bus.
    pub fn announce_bus_width(&self) -> (r: CardCommand)
        ensures
            r == card_command(SdCommand::AppCmd, rca_arg(self.known().rca), ResponseShape::R1),
    {
        CardCommand {
            cmd: SdCommand::AppCmd,
            arg: address_of(self.state.rca),
            shape: ResponseShape::R1,
        }
    }

    /// Goes on once it was announced.
    pub fn bus_width_command(self, r: Result<Response, SdhciCommandError>) -> (out: Result<
        (MmcCard<Widening>, CardCommand),
        MmcCardError,
    >)
        ensures
            match r {
                Err(e) => out matches Err(f) && f == MmcCardError::Sdhci(e),
                Ok(_) => out matches Ok(ok) && ok.0.known().card == self.known() && ok.1
                    == card_command(SdCommand::SetBusWidth, 2, ResponseShape::R1),
            },
    {
        match r {
            Err(e) => Err(MmcCardError::Sdhci(e)),
            Ok(_) => Ok(
                (
                    MmcCard { state: Widening { card: self.state } },
                    CardCommand { cmd: SdCommand::SetBusWidth, arg: 2, shape: ResponseShape::R1 },
                ),
            ),
        }
    }

    /// What is known of the card.
    pub fn into_parts(self) -> (r: CardInfo)
        ensures
            r@ == self.known(),
    {
        CardInfo {
            rca: self.state.rca,
            ocr: self.state.ocr,
            cid: self.state.cid,
            csd: self.state.csd,
            bus_width: self.state.bus_width,
        }
    }
}

impl MmcCard<Widening> {
    /// Goes on once the card's bus is wide: the write makes the controller's wide too.
    pub fn set_bus_width_4bit(self, r: Result<Response, SdhciCommandError>) -> (out: Result<
        (MmcCard<Tran>, SdhciWrite),
        MmcCardError,
    >)
        ensures
            match r {
                Err(e) => out matches Err(f) && f == MmcCardError::Sdhci(e),
                Ok(_) => out matches Ok(ok) && ok.0.known() == (Tran {
                    bus_width: BusWidth::Bit4,
                    ..self.known().card
                }) && ok.1 == SdhciWrite::FourDataLines,
            },
    {
        match r {
            Err(e) => Err(MmcCardError::Sdhci(e)),
            Ok(_) => Ok(
                (
                    MmcCard {
                        state: Tran {
                            ocr: self.state.card.ocr,
                            cid: self.state.card.cid,
                            rca: self.state.card.rca,
                            csd: self.state.card.csd,
                            bus_width: BusWidth::Bit4,
                        },
                    },
                    set_bus_width_4bit(),
                ),
            ),
        }
    }
}

} // verus!
