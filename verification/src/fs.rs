//! The client of a file system server.

use crate::handle::{EndpointHandle, PageSetHandle, ReplyHandle};
use crate::syscall::{Message, Request, Words};
use vstd::prelude::*;

verus! {

/// Why a file operation failed.
#[derive(Clone, Copy, Debug, PartialEq, Eq, Structural)]
pub enum FsError {
    NotFound,
    Invalid,
    TooManyOpen,
    Io,
    PathTooLong,
    InvalidBufferPages,
    AllocFailed,
    IsDirectory,
    NotDirectory,
    /// The server answered with a status that is not known.
    Unknown,
    IpcFailed,
}

/// The numbers and limits of the protocol.
#[derive(Clone, Copy, Debug, PartialEq, Eq, Structural)]
pub struct FsCodes {
    pub open: u64,
    pub read: u64,
    pub close: u64,
    pub ok: u64,
    pub err_not_found: u64,
    pub err_invalid: u64,
    pub err_too_many_open: u64,
    pub err_io: u64,
    pub err_path_too_long: u64,
    pub err_invalid_buffer_pages: u64,
    pub err_alloc: u64,
    pub err_is_directory: u64,
    pub err_not_directory: u64,
    pub max_inline_path: usize,
    pub max_buffer_pages: u8,
}

/// A file that was opened.
#[derive(Clone, Copy, Debug, PartialEq, Eq, Structural)]
pub struct OpenedFile {
    pub handle: u32,
    pub pageset: PageSetHandle,
    pub buffer_size: u32,
}

/// The endpoint of a file system server, and who waits for its answers.
#[derive(Clone, Copy, Debug, PartialEq, Eq, Structural)]
pub struct FsClient {
    pub endpoint: EndpointHandle,
    pub reply: ReplyHandle,
    pub codes: FsCodes,
}

/// What a status says.
pub open spec fn status_of(c: FsCodes, status: u64) -> Result<(), FsError> {
    if status == c.ok {
        Ok(())
    } else if status == c.err_not_found {
        Err(FsError::NotFound)
    } else if status == c.err_invalid {
        Err(FsError::Invalid)
    } else if status == c.err_too_many_open {
        Err(FsError::TooManyOpen)
    } else if status == c.err_io {
        Err(FsError::Io)
    } else if status == c.err_path_too_long {
        Err(FsError::PathTooLong)
    } else if status == c.err_invalid_buffer_pages {
        Err(FsError::InvalidBufferPages)
    } else if status == c.err_alloc {
        Err(FsError::AllocFailed)
    } else if status == c.err_is_directory {
        Err(FsError::IsDirectory)
    } else if status == c.err_not_directory {
        Err(FsError::NotDirectory)
    } else {
        Err(FsError::Unknown)
    }
}

/// The words of a good answer, or why it is none.
pub open spec fn words_of(c: FsCodes, answer: Message) -> Result<Words, FsError> {
    match answer {
        Err(_) => Err(FsError::IpcFailed),
        Ok(w) => match status_of(c, w.0) {
            Ok(_) => Ok(w),
            Err(e) => Err(e),
        },
    }
}

impl FsClient {
    pub fn new(endpoint: EndpointHandle, reply: ReplyHandle, codes: FsCodes) -> (r: Self)
        ensures
            r == (FsClient { endpoint, reply, codes }),
    {
        FsClient { endpoint, reply, codes }
    }

    /// The call that carries a command to the server.
    pub open spec fn command(self, w: Words) -> Request {
        Request::Call { endpoint: self.endpoint.0, reply: self.reply.0, message: w }
    }

    fn call(&self, w: Words) -> (r: Request)
        ensures
            r == self.command(w),
    {
        Request::Call { endpoint: self.endpoint.0, reply: self.reply.0, message: w }
    }

    fn decode_status(&self, status: u64) -> (r: Result<(), FsError>)
        ensures
            r == status_of(self.codes, status),
    {
        let c = self.codes;
        if status == c.ok {
            Ok(())
        } else if status == c.err_not_found {
            Err(FsError::NotFound)
        } else if status == c.err_invalid {
            Err(FsError::Invalid)
        } else if status == c.err_too_many_open {
            Err(FsError::TooManyOpen)
        } else if status == c.err_io {
            Err(FsError::Io)
        } else if status == c.err_path_too_long {
            Err(FsError::PathTooLong)
        } else if status == c.err_invalid_buffer_pages {
            Err(FsError::InvalidBufferPages)
        } else if status == c.err_alloc {
            Err(FsError::AllocFailed)
        } else if status == c.err_is_directory {
            Err(FsError::IsDirectory)
        } else if status == c.err_not_directory {
            Err(FsError::NotDirectory)
        } else {
            Err(FsError::Unknown)
        }
    }

    fn words(&self, answer: Message) -> (r: Result<Words, FsError>)
        ensures
            r == words_of(self.codes, answer),
    {
        match answer {
            Err(_) => Err(FsError::IpcFailed),
            Ok(w) => match self.decode_status(w.0) {
                Ok(_) => Ok(w),
                Err(e) => Err(e),
            },
        }
    }

    /// Asks for a file to be opened, given the length of its path, the pages of the buffer,
    /// and the header and the path as the protocol packs them. A path that is empty or too
    /// long, and a number of pages that cannot be had, are refused at once.
    pub fn open(&self, path_len: usize, buffer_pages: u8, header: u64, lo: u64, hi: u64) -> (r:
        Result<Request, FsError>)
        ensures
            r == if path_len == 0 || path_len > self.codes.max_inline_path {
                Err::<Request, FsError>(FsError::PathTooLong)
            } else if buffer_pages == 0 || buffer_pages > self.codes.max_buffer_pages {
                Err(FsError::InvalidBufferPages)
            } else {
                Ok(self.command(Words(self.codes.open, header, lo, hi)))
            },
    {
        if path_len == 0 || path_len > self.codes.max_inline_path {
            return Err(FsError::PathTooLong);
        }
        if buffer_pages == 0 || buffer_pages > self.codes.max_buffer_pages {
            return Err(FsError::InvalidBufferPages);
        }
        Ok(self.call(Words(self.codes.open, header, lo, hi)))
    }

    /// The file that the server answered with.
    pub fn opened(&self, answer: Message) -> (r: Result<OpenedFile, FsError>)
        ensures
            match words_of(self.codes, answer) {
                Ok(w) => r == Ok::<OpenedFile, FsError>(
                    OpenedFile {
                        handle: w.1 as u32,
                        pageset: PageSetHandle(w.2),
                        buffer_size: w.3 as u32,
                    },
                ),
                Err(e) => r == Err::<OpenedFile, FsError>(e),
            },
    {
        match self.words(answer) {
            Ok(w) => Ok(
                OpenedFile {
                    handle: w.1 as u32,
                    pageset: PageSetHandle(w.2),
                    buffer_size: w.3 as u32,
                },
            ),
            Err(e) => Err(e),
        }
    }

    /// Asks for bytes to be read into the file's buffer.
    pub fn read(&self, handle: u32, len: u32) -> (r: Request)
        ensures
            r == self.command(Words(self.codes.read, handle as u64, len as u64, 0)),
    {
        self.call(Words(self.codes.read, handle as u64, len as u64, 0))
    }

    /// The number of bytes that were read.
    pub fn read_answer(&self, answer: Message) -> (r: Result<u32, FsError>)
        ensures
            match words_of(self.codes, answer) {
                Ok(w) => r == Ok::<u32, FsError>(w.1 as u32),
                Err(e) => r == Err::<u32, FsError>(e),
            },
    {
        match self.words(answer) {
            Ok(w) => Ok(w.1 as u32),
            Err(e) => Err(e),
        }
    }

    /// Asks for a file to be closed.
    pub fn close(&self, handle: u32) -> (r: Request)
        ensures
            r == self.command(Words(self.codes.close, handle as u64, 0, 0)),
    {
        self.call(Words(self.codes.close, handle as u64, 0, 0))
    }

    /// Whether the file was closed.
    pub fn close_answer(&self, answer: Message) -> (r: Result<(), FsError>)
        ensures
            match words_of(self.codes, answer) {
                Ok(w) => r is Ok,
                Err(e) => r == Err::<(), FsError>(e),
            },
    {
        match self.words(answer) {
            Ok(_) => Ok(()),
            Err(e) => Err(e),
        }
    }
}

/// Whether the statuses of the protocol differ.
pub open spec fn statuses_differ(c: FsCodes) -> bool {
    let v = seq![
        c.ok,
        c.err_not_found,
        c.err_invalid,
        c.err_too_many_open,
        c.err_io,
        c.err_path_too_long,
        c.err_invalid_buffer_pages,
        c.err_alloc,
        c.err_is_directory,
        c.err_not_directory,
    ];
    forall|i: int, j: int| 0 <= i < j < v.len() ==> #[trigger] v[i] != #[trigger] v[j]
}

/// Every status says what it stands for, and one that stands for nothing says that it is not
/// known.
pub proof fn lemma_status(c: FsCodes, status: u64)
    requires
        statuses_differ(c),
    ensures
        status_of(c, status) is Ok <==> status == c.ok,
        status_of(c, c.err_not_found) == Err::<(), FsError>(FsError::NotFound),
        status_of(c, c.err_invalid) == Err::<(), FsError>(FsError::Invalid),
        status_of(c, c.err_too_many_open) == Err::<(), FsError>(FsError::TooManyOpen),
        status_of(c, c.err_io) == Err::<(), FsError>(FsError::Io),
        status_of(c, c.err_path_too_long) == Err::<(), FsError>(FsError::PathTooLong),
        status_of(c, c.err_invalid_buffer_pages) == Err::<(), FsError>(FsError::InvalidBufferPages),
        status_of(c, c.err_alloc) == Err::<(), FsError>(FsError::AllocFailed),
        status_of(c, c.err_is_directory) == Err::<(), FsError>(FsError::IsDirectory),
        status_of(c, c.err_not_directory) == Err::<(), FsError>(FsError::NotDirectory),
{
    let v = seq![
        c.ok,
        c.err_not_found,
        c.err_invalid,
        c.err_too_many_open,
        c.err_io,
        c.err_path_too_long,
        c.err_invalid_buffer_pages,
        c.err_alloc,
        c.err_is_directory,
        c.err_not_directory,
    ];
    assert(v[0] == c.ok && v[1] == c.err_not_found && v[2] == c.err_invalid && v[3]
        == c.err_too_many_open && v[4] == c.err_io && v[5] == c.err_path_too_long && v[6]
        == c.err_invalid_buffer_pages && v[7] == c.err_alloc && v[8] == c.err_is_directory && v[9]
        == c.err_not_directory);
}

/// The words of an answer are given back as they are if and only if the first says that the
/// request went well; a failed call is told apart from a refusal.
pub proof fn lemma_words(c: FsCodes, answer: Message)
    requires
        statuses_differ(c),
    ensures
        answer is Err ==> words_of(c, answer) == Err::<Words, FsError>(FsError::IpcFailed),
        answer matches Ok(w) ==> (words_of(c, answer) is Ok <==> w.0 == c.ok),
        answer matches Ok(w) ==> (w.0 == c.ok ==> words_of(c, answer) == Ok::<Words, FsError>(w)),
        answer matches Ok(w) ==> (w.0 == c.err_not_found ==> words_of(c, answer) == Err::<
            Words,
            FsError,
        >(FsError::NotFound)),
        answer matches Ok(w) ==> (w.0 == c.err_io ==> words_of(c, answer) == Err::<Words, FsError>(
            FsError::Io,
        )),
{
    if let Ok(w) = answer {
        lemma_status(c, w.0);
    }
}

} // verus!
