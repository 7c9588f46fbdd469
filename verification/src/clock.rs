//! Clocks: a client that reaches them through the device manager, and the server of a
//! driver that provides them.

use crate::handle::{EndpointHandle, ReplyHandle};
use crate::syscall::{Message, Reply, Request, Words};
use vstd::prelude::*;

verus! {

/// The numbers of the clock protocol.
#[derive(Clone, Copy, Debug, PartialEq, Eq, Structural)]
pub struct ClockCodes {
    pub get_clock_handle: u64,
    pub set_rate: u64,
    pub get_rate: u64,
    pub enable: u64,
    pub disable: u64,
    pub ok: u64,
    pub err_not_supported: u64,
}

/// Why a clock operation failed.
#[derive(Clone, Copy, Debug, PartialEq, Eq, Structural)]
pub enum ClockError {
    /// The clock of this number is not provided.
    NotSupported(u32),
    /// Any other failure, by its status.
    Status(u64),
    IpcFailed,
}

/// A clock that was acquired. It comes only from the device manager's answer.
#[derive(Clone, Copy, Debug, PartialEq, Eq, Structural)]
pub struct ClockClient {
    devmgr: EndpointHandle,
    reply: ReplyHandle,
    codes: ClockCodes,
    handle_id: u32,
}

impl ClockClient {
    /// The endpoint of the device manager.
    pub closed spec fn manager(&self) -> EndpointHandle {
        self.devmgr
    }

    /// Who waits for the answers.
    pub closed spec fn waiter(&self) -> ReplyHandle {
        self.reply
    }

    /// The numbers of the protocol.
    pub closed spec fn numbers(&self) -> ClockCodes {
        self.codes
    }

    /// The number under which the device manager knows the clock.
    pub closed spec fn handle(&self) -> u32 {
        self.handle_id
    }
}

/// What an answer says: the value, or why there is none.
pub open spec fn clock_answer(codes: ClockCodes, answer: Message) -> Result<u64, ClockError> {
    match answer {
        Err(_) => Err(ClockError::IpcFailed),
        Ok(w) => if w.0 == codes.ok {
            Ok(w.1)
        } else if w.0 == codes.err_not_supported {
            Err(ClockError::NotSupported(w.1 as u32))
        } else {
            Err(ClockError::Status(w.0))
        },
    }
}

/// What an answer says.
pub fn decode_answer(codes: ClockCodes, answer: Message) -> (r: Result<u64, ClockError>)
    ensures
        r == clock_answer(codes, answer),
{
    match answer {
        Err(_) => Err(ClockError::IpcFailed),
        Ok(w) => {
            if w.0 == codes.ok {
                Ok(w.1)
            } else if w.0 == codes.err_not_supported {
                Err(ClockError::NotSupported(w.1 as u32))
            } else {
                Err(ClockError::Status(w.0))
            }
        },
    }
}

impl ClockClient {
    /// Asks the device manager for a clock of a controller.
    pub fn acquire(
        devmgr: EndpointHandle,
        reply: ReplyHandle,
        codes: ClockCodes,
        controller_phandle: u32,
        clock_id: u32,
    ) -> (r: Request)
        ensures
            r == (Request::Call {
                endpoint: devmgr.0,
                reply: reply.0,
                message: Words(
                    codes.get_clock_handle,
                    controller_phandle as u64,
                    clock_id as u64,
                    0,
                ),
            }),
    {
        Request::Call {
            endpoint: devmgr.0,
            reply: reply.0,
            message: Words(
                codes.get_clock_handle,
                controller_phandle as u64,
                clock_id as u64,
                0,
            ),
        }
    }

    /// The clock that the device manager answered with.
    pub fn acquired(
        devmgr: EndpointHandle,
        reply: ReplyHandle,
        codes: ClockCodes,
        answer: Message,
    ) -> (r: Result<ClockClient, ClockError>)
        ensures
            match clock_answer(codes, answer) {
                Ok(v) => {
                    &&& r is Ok
                    &&& r->Ok_0.manager() == devmgr
                    &&& r->Ok_0.waiter() == reply
                    &&& r->Ok_0.numbers() == codes
                    &&& r->Ok_0.handle() == v as u32
                },
                Err(e) => r == Err::<ClockClient, ClockError>(e),
            },
    {
        match decode_answer(codes, answer) {
            Ok(v) => Ok(ClockClient { devmgr, reply, codes, handle_id: v as u32 }),
            Err(e) => Err(e),
        }
    }

    /// The call that carries an operation to the device manager.
    pub open spec fn operation(self, op: u64, arg: u64) -> Request {
        Request::Call {
            endpoint: self.manager().0,
            reply: self.waiter().0,
            message: Words(op, self.handle() as u64, arg, 0),
        }
    }

    fn op(&self, op: u64, arg: u64) -> (r: Request)
        ensures
            r == self.operation(op, arg),
    {
        Request::Call {
            endpoint: self.devmgr.0,
            reply: self.reply.0,
            message: Words(op, self.handle_id as u64, arg, 0),
        }
    }

    /// Asks for a rate; the answer's value is the rate that the clock will have.
    pub fn set_rate(&self, target_hz: u64) -> (r: Request)
        ensures
            r == self.operation(self.numbers().set_rate, target_hz),
    {
        self.op(self.codes.set_rate, target_hz)
    }

    /// Asks for the rate that the clock has.
    pub fn get_rate(&self) -> (r: Request)
        ensures
            r == self.operation(self.numbers().get_rate, 0),
    {
        self.op(self.codes.get_rate, 0)
    }

    /// Lets the clock run.
    pub fn enable(&self) -> (r: Request)
        ensures
            r == self.operation(self.numbers().enable, 0),
    {
        self.op(self.codes.enable, 0)
    }

    /// Stops the clock.
    pub fn disable(&self) -> (r: Request)
        ensures
            r == self.operation(self.numbers().disable, 0),
    {
        self.op(self.codes.disable, 0)
    }
}

/// The driver behind the server. The server's loop makes this call.
pub trait ClockEngine {
    fn dispatch(&mut self, op: u64, clock_id_raw: u32, arg: u64) -> Result<u64, ClockError>;
}

/// What a client asks of the server: the operation, the clock, and the argument. A message
/// that could not be received asks nothing.
pub open spec fn asked(message: Message) -> Option<(u64, u32, u64)> {
    match message {
        Ok(w) => Some((w.0, w.1 as u32, w.2)),
        Err(_) => None,
    }
}

/// What a client asks of the server.
pub fn clock_request(message: Message) -> (r: Option<(u64, u32, u64)>)
    ensures
        r == asked(message),
{
    match message {
        Ok(w) => Some((w.0, w.1 as u32, w.2)),
        Err(_) => None,
    }
}

/// What the server answers, where `ipc_failed` is the status of a failed call.
pub open spec fn clock_reply(
    codes: ClockCodes,
    ipc_failed: u64,
    r: Result<u64, ClockError>,
) -> Words {
    match r {
        Ok(value) => Words(codes.ok, value, 0, 0),
        Err(ClockError::NotSupported(id)) => Words(codes.err_not_supported, id as u64, 0, 0),
        Err(ClockError::Status(status)) => Words(status, 0, 0, 0),
        Err(ClockError::IpcFailed) => Words(ipc_failed, 0, 0, 0),
    }
}

/// What the server's loop does next.
#[derive(Clone, Copy, Debug, PartialEq, Eq, Structural)]
pub enum ServerAction {
    /// Wait for a message.
    Receive,
    /// Ask the driver.
    Dispatch { op: u64, clock_id_raw: u32, arg: u64 },
    /// Answer the client.
    Reply(Words),
}

/// What came of it.
#[derive(Clone, Copy, Debug)]
pub enum ServerEvent {
    Received(Message),
    /// What the driver made of the request.
    Dispatched(Result<u64, ClockError>),
    /// Whether the answer could be given.
    Replied(Reply),
}

/// What the loop does once an event has come. A message that could not be received is passed
/// over, and so is an answer that could not be given.
pub open spec fn server_next(codes: ClockCodes, ipc_failed: u64, event: ServerEvent) -> ServerAction {
    match event {
        ServerEvent::Received(message) => match asked(message) {
            None => ServerAction::Receive,
            Some((op, clock_id_raw, arg)) => ServerAction::Dispatch { op, clock_id_raw, arg },
        },
        ServerEvent::Dispatched(r) => ServerAction::Reply(clock_reply(codes, ipc_failed, r)),
        ServerEvent::Replied(_) => ServerAction::Receive,
    }
}

/// One turn of the server's loop, where `ipc_failed` is the status of a failed call.
pub fn run_clock_server(codes: ClockCodes, ipc_failed: u64, event: ServerEvent) -> (a: ServerAction)
    ensures
        a == server_next(codes, ipc_failed, event),
{
    match event {
        ServerEvent::Received(message) => match clock_request(message) {
            None => ServerAction::Receive,
            Some((op, clock_id_raw, arg)) => ServerAction::Dispatch { op, clock_id_raw, arg },
        },
        ServerEvent::Dispatched(r) => ServerAction::Reply(reply_words(codes, ipc_failed, r)),
        ServerEvent::Replied(_) => ServerAction::Receive,
    }
}

fn reply_words(codes: ClockCodes, ipc_failed: u64, r: Result<u64, ClockError>) -> (w: Words)
    ensures
        w == clock_reply(codes, ipc_failed, r),
{
    match r {
        Ok(value) => Words(codes.ok, value, 0, 0),
        Err(ClockError::NotSupported(id)) => Words(codes.err_not_supported, id as u64, 0, 0),
        Err(ClockError::Status(status)) => Words(status, 0, 0, 0),
        Err(ClockError::IpcFailed) => Words(ipc_failed, 0, 0, 0),
    }
}

/// A client reads out of an answer what the server put into it.
pub proof fn lemma_clock_round_trip(
    codes: ClockCodes,
    ipc_failed: u64,
    r: Result<u64, ClockError>,
)
    requires
        codes.ok != codes.err_not_supported,
        r matches Err(ClockError::Status(s)) ==> s != codes.ok && s != codes.err_not_supported,
        !(r matches Err(ClockError::IpcFailed)),
    ensures
        clock_answer(codes, Ok(clock_reply(codes, ipc_failed, r))) == r,
{
    match r {
        Err(ClockError::NotSupported(id)) => {
            assert((id as u64) as u32 == id);
        },
        _ => {},
    }
}

/// A client's request goes to the driver with the operation, the clock and the argument that its
/// words hold; what the driver made of it goes back; and then the next is waited for. A message
/// that could not be received is passed over.
pub proof fn lemma_clock_served(
    codes: ClockCodes,
    ipc_failed: u64,
    client: ClockClient,
    op: u64,
    arg: u64,
    value: u64,
    reply: Reply,
    e: crate::syscall::SyscallError,
)
    ensures
        client.operation(op, arg) matches Request::Call { endpoint, reply: waits, message } && {
            &&& endpoint == client.manager().0
            &&& waits == client.waiter().0
            &&& server_next(codes, ipc_failed, ServerEvent::Received(Ok(message))) == (
            ServerAction::Dispatch { op, clock_id_raw: client.handle(), arg })
        },
        server_next(codes, ipc_failed, ServerEvent::Dispatched(Ok(value))) == ServerAction::Reply(
            Words(codes.ok, value, 0, 0),
        ),
        server_next(codes, ipc_failed, ServerEvent::Dispatched(Err(ClockError::IpcFailed)))
            == ServerAction::Reply(Words(ipc_failed, 0, 0, 0)),
        server_next(codes, ipc_failed, ServerEvent::Replied(reply)) == ServerAction::Receive,
        server_next(codes, ipc_failed, ServerEvent::Received(Err(e))) == ServerAction::Receive,
{
}

} // verus!
