use lockjaw::display::{
    BufferTracker, DisplayAction, DisplayClient, DisplayError, DisplayEvent, DisplayRequest,
    DisplayResponse, DisplayServer, ModeInfo, SessionState, MAX_BUFFERS,
};
use lockjaw::syscall::{Request, SyscallError, Words};

#[test]
fn session_create_and_validate() {
    let mut s = SessionState::new();
    let id = s.create().unwrap();
    assert!(s.validate(id).is_ok());
}

#[test]
fn session_busy_rejects_second() {
    let mut s = SessionState::new();
    s.create().unwrap();
    assert_eq!(s.create(), Err(DisplayError::SessionBusy));
}

#[test]
fn session_validate_wrong_id() {
    let mut s = SessionState::new();
    let id = s.create().unwrap();
    assert_eq!(s.validate(id + 1), Err(DisplayError::InvalidSession));
}

#[test]
fn session_validate_none_active() {
    let s = SessionState::new();
    assert_eq!(s.validate(0), Err(DisplayError::InvalidSession));
}

#[test]
fn session_release_allows_new() {
    let mut s = SessionState::new();
    let id = s.create().unwrap();
    s.release(id).unwrap();
    let id2 = s.create().unwrap();
    assert_ne!(id, id2);
    assert!(s.validate(id2).is_ok());
}

#[test]
fn session_release_wrong_id() {
    let mut s = SessionState::new();
    let id = s.create().unwrap();
    assert_eq!(s.release(id + 1), Err(DisplayError::InvalidSession));
    assert!(s.validate(id).is_ok());
}


#[test]
fn tracker_track_and_translate() {
    let mut t = BufferTracker::new();
    assert!(t.track(3, 0xA000));
    assert_eq!(t.translate(3), Some(0xA000));
}

#[test]
fn tracker_translate_unknown() {
    let t = BufferTracker::new();
    assert_eq!(t.translate(99), None);
}

#[test]
fn tracker_capacity() {
    let mut t = BufferTracker::new();
    for i in 0..MAX_BUFFERS {
        assert!(t.has_capacity());
        assert!(t.track(i as u32, i as u64 * 0x1000));
    }
    assert!(!t.has_capacity());
    assert!(!t.track(99, 0xFFFF));
}

#[test]
fn tracker_release_all_calls_free_buffer() {
    let mut t = BufferTracker::new();
    t.track(0, 0xA000);
    t.track(1, 0xB000);
    t.track(2, 0xC000);

    let mut freed = t.release_all();
    freed.sort();
    assert_eq!(freed, vec![0xA000, 0xB000, 0xC000]);
    assert_eq!(t.translate(0), None);
    assert_eq!(t.translate(1), None);
    assert_eq!(t.translate(2), None);
    assert!(t.has_capacity());
}

#[test]
fn tracker_release_all_empty_is_noop() {
    let mut t = BufferTracker::new();
    assert!(t.release_all().is_empty());
}

fn open_session(s: &mut DisplayServer) -> u32 {
    assert_eq!(
        s.step(DisplayEvent::Request(Some(DisplayRequest::CreateSession))),
        DisplayAction::CreateSession
    );
    match s.step(DisplayEvent::Done(Ok(()))) {
        DisplayAction::Reply(DisplayResponse::Session { id }) => id,
        a => panic!("{a:?}"),
    }
}

fn new_buffer(s: &mut DisplayServer, session: u32, pageset: u64, handle: u64) {
    let ask = DisplayRequest::AllocBuffer { session, width: 4, height: 2, format: 1 };
    assert_eq!(
        s.step(DisplayEvent::Request(Some(ask))),
        DisplayAction::AllocBuffer { session, width: 4, height: 2, format: 1 }
    );
    assert_eq!(s.step(DisplayEvent::Buffer(Ok((pageset, 16, 32)))), DisplayAction::Export(pageset));
    assert_eq!(
        s.step(DisplayEvent::Exported(Some(handle))),
        DisplayAction::Reply(DisplayResponse::Buffer {
            handle: handle as u32,
            stride: 16,
            size: 32
        })
    );
}

fn failure(e: DisplayError) -> DisplayAction {
    DisplayAction::Reply(DisplayResponse::Failure(e))
}

#[test]
fn modes_are_listed_and_described() {
    let mut s = DisplayServer::new();
    assert_eq!(
        s.step(DisplayEvent::Request(Some(DisplayRequest::ListModes))),
        DisplayAction::ModeCount
    );
    assert_eq!(
        s.step(DisplayEvent::ModeCount(2)),
        DisplayAction::Reply(DisplayResponse::ModeCount(2))
    );
    let mode = ModeInfo { width: 640, height: 480, format: 1, refresh_millihz: 60000 };
    assert_eq!(
        s.step(DisplayEvent::Request(Some(DisplayRequest::GetMode { index: 1 }))),
        DisplayAction::GetMode(1)
    );
    assert_eq!(
        s.step(DisplayEvent::Mode(Some(mode))),
        DisplayAction::Reply(DisplayResponse::Mode(mode))
    );
    s.step(DisplayEvent::Request(Some(DisplayRequest::GetMode { index: 9 })));
    assert_eq!(s.step(DisplayEvent::Mode(None)), failure(DisplayError::InvalidMode));
    assert_eq!(s.step(DisplayEvent::Request(None)), failure(DisplayError::UnknownCommand));
}

#[test]
fn a_foreign_session_reaches_nothing() {
    let mut s = DisplayServer::new();
    let id = open_session(&mut s);
    assert_eq!(
        s.step(DisplayEvent::Request(Some(DisplayRequest::CreateSession))),
        failure(DisplayError::SessionBusy)
    );
    for ask in [
        DisplayRequest::AllocBuffer { session: id + 1, width: 4, height: 2, format: 1 },
        DisplayRequest::SetMode { session: id + 1, mode_index: 0, buffer: 3 },
        DisplayRequest::SetScanout { session: id + 1, buffer: 3 },
        DisplayRequest::ReleaseSession { session: id + 1 },
    ] {
        assert_eq!(
            s.step(DisplayEvent::Request(Some(ask))),
            failure(DisplayError::InvalidSession)
        );
    }
}

#[test]
fn an_engine_that_refuses_leaves_no_session() {
    let mut s = DisplayServer::new();
    s.step(DisplayEvent::Request(Some(DisplayRequest::CreateSession)));
    assert_eq!(
        s.step(DisplayEvent::Done(Err(DisplayError::NotConfigured))),
        failure(DisplayError::NotConfigured)
    );
    assert_eq!(open_session(&mut s), 1);
}

#[test]
fn only_own_buffers_are_shown() {
    let mut s = DisplayServer::new();
    let session = open_session(&mut s);
    new_buffer(&mut s, session, 0xA000, 3);
    let ask = DisplayRequest::SetMode { session, mode_index: 0, buffer: 3 };
    assert_eq!(
        s.step(DisplayEvent::Request(Some(ask))),
        DisplayAction::SetMode { session, mode_index: 0, buffer: 0xA000 }
    );
    assert_eq!(
        s.step(DisplayEvent::Done(Ok(()))),
        DisplayAction::Reply(DisplayResponse::Success)
    );
    let ask = DisplayRequest::SetScanout { session, buffer: 4 };
    assert_eq!(
        s.step(DisplayEvent::Request(Some(ask))),
        failure(DisplayError::InvalidBuffer)
    );
    let ask = DisplayRequest::SetScanout { session, buffer: 3 };
    assert_eq!(
        s.step(DisplayEvent::Request(Some(ask))),
        DisplayAction::SetScanout { session, buffer: 0xA000 }
    );
    assert_eq!(
        s.step(DisplayEvent::Done(Err(DisplayError::AllocFailed))),
        failure(DisplayError::AllocFailed)
    );
}

#[test]
fn a_released_session_frees_its_buffers() {
    let mut s = DisplayServer::new();
    let session = open_session(&mut s);
    new_buffer(&mut s, session, 0xA000, 3);
    new_buffer(&mut s, session, 0xB000, 4);
    assert_eq!(
        s.step(DisplayEvent::Request(Some(DisplayRequest::ReleaseSession { session }))),
        DisplayAction::ReleaseSession(session)
    );
    assert_eq!(s.step(DisplayEvent::Done(Ok(()))), DisplayAction::FreeBuffer(0xA000));
    assert_eq!(s.step(DisplayEvent::Freed), DisplayAction::FreeBuffer(0xB000));
    assert_eq!(
        s.step(DisplayEvent::Freed),
        DisplayAction::Reply(DisplayResponse::Success)
    );
    assert_eq!(open_session(&mut s), session + 1);
}

#[test]
fn a_buffer_that_is_not_exported_is_freed() {
    let mut s = DisplayServer::new();
    let session = open_session(&mut s);
    let ask = DisplayRequest::AllocBuffer { session, width: 4, height: 2, format: 1 };
    s.step(DisplayEvent::Request(Some(ask)));
    s.step(DisplayEvent::Buffer(Ok((0xA000, 16, 32))));
    assert_eq!(s.step(DisplayEvent::Exported(None)), DisplayAction::FreeBuffer(0xA000));
    assert_eq!(s.step(DisplayEvent::Freed), failure(DisplayError::AllocFailed));
    s.step(DisplayEvent::Request(Some(ask)));
    assert_eq!(
        s.step(DisplayEvent::Buffer(Err(DisplayError::InvalidFormat))),
        failure(DisplayError::InvalidFormat)
    );
}

#[test]
fn a_full_table_refuses_before_the_engine_is_asked() {
    let mut s = DisplayServer::new();
    let session = open_session(&mut s);
    for i in 0..MAX_BUFFERS as u64 {
        new_buffer(&mut s, session, 0x1000 * (i + 1), i + 1);
    }
    let ask = DisplayRequest::AllocBuffer { session, width: 4, height: 2, format: 1 };
    assert_eq!(
        s.step(DisplayEvent::Request(Some(ask))),
        failure(DisplayError::AllocFailed)
    );
}

#[test]
fn a_client_hears_of_a_failed_call() {
    let c = DisplayClient::new(5, 6);
    assert_eq!(c.list_modes(), DisplayRequest::ListModes);
    assert_eq!(c.get_mode(1), DisplayRequest::GetMode { index: 1 });
    assert_eq!(c.create_session(), DisplayRequest::CreateSession);
    assert_eq!(
        c.alloc_buffer(1, 320, 240, 5),
        DisplayRequest::AllocBuffer { session: 1, width: 320, height: 240, format: 5 }
    );
    assert_eq!(
        c.set_mode(1, 0, 3),
        DisplayRequest::SetMode { session: 1, mode_index: 0, buffer: 3 }
    );
    assert_eq!(c.set_scanout(1, 3), DisplayRequest::SetScanout { session: 1, buffer: 3 });
    assert_eq!(c.release_session(1), DisplayRequest::ReleaseSession { session: 1 });
    let b = c.buffer(Ok((3, 1280, 307200))).unwrap();
    assert_eq!((b.handle, b.stride, b.size), (3, 1280, 307200));
    assert_eq!(c.buffer(Err(DisplayError::AllocFailed)), Err(DisplayError::AllocFailed));
    assert_eq!(
        c.call(Words(1, 2, 3, 4)),
        Request::Call { endpoint: 5, reply: 6, message: Words(1, 2, 3, 4) }
    );
    assert_eq!(c.answer(Ok(Words(9, 8, 7, 6))), Ok(Words(9, 8, 7, 6)));
    assert_eq!(c.answer(Err(SyscallError::Kernel(2))), Err(DisplayError::IpcFailed));
}
