use fdreactor::filectx::FileReadContext;
use fdreactor::files::{FileReadHandler, FileReadTask, FileWriterHandler, DEFAULT_CHUNK_SIZE};
use fdreactor::handler::{Action, Interest, IoOutcome};
use fdreactor::pipes::{PipeContext, PipeReadHandler, PipeTask, PipeWriteHadler};
use fdreactor::reactor::{dispatch, Registry};
use fdreactor::signals::{SignalHandler, SignalRead};
use fdreactor::timer::TimerHander;

#[test]
fn writer_default_limit() {
    let w = FileWriterHandler::new(vec![7u8; 1000], None);
    assert_eq!(w.pending().len(), DEFAULT_CHUNK_SIZE);
    assert_eq!(DEFAULT_CHUNK_SIZE, 512);
}

#[test]
fn writer_resumes_after_partial_write() {
    let mut w = FileWriterHandler::new(b"abcdefgh".to_vec(), Some(3));
    assert_eq!(w.pending(), b"abc");
    match w.handle(IoOutcome::Transferred(2)) {
        Action::Task(c) => {
            assert_eq!(c.chunk, b"ab".to_vec());
            assert_eq!(c.written, 2);
        },
        _ => panic!("expected a completion task"),
    }
    assert_eq!(w.pending(), b"cde");
    match w.handle(IoOutcome::Transferred(3)) {
        Action::Task(c) => assert_eq!(c.chunk, b"cde".to_vec()),
        _ => panic!("expected a completion task"),
    }
    assert_eq!(w.pending(), b"fgh");
    assert!(matches!(w.handle(IoOutcome::WouldBlock), Action::Continue));
    assert_eq!(w.pending(), b"fgh");
    assert!(matches!(w.handle(IoOutcome::Transferred(3)), Action::Task(_)));
    assert_eq!(w.pending(), b"");
    assert!(matches!(w.handle(IoOutcome::Transferred(0)), Action::Stop));
}

#[test]
fn writer_failure_stops() {
    let mut w = FileWriterHandler::new(b"abc".to_vec(), Some(8));
    assert!(matches!(w.handle(IoOutcome::Failed), Action::Stop));
    assert_eq!(w.pending(), b"abc");
}

#[test]
fn writer_zero_limit_offers_nothing() {
    let w = FileWriterHandler::new(b"abc".to_vec(), Some(0));
    assert_eq!(w.pending(), b"");
}

#[test]
fn reader_buffer_matches_chunk_size() {
    let ctx: FileReadContext<u8, u8> = FileReadContext::new(16);
    let h = FileReadHandler::for_context(&ctx);
    assert_eq!(h.buffer, vec![0u8; 16]);
}

#[test]
fn reader_queues_chunk_of_read_bytes() {
    let mut ctx: FileReadContext<u8, u8> = FileReadContext::new(8);
    let mut h = FileReadHandler::for_context(&ctx);
    h.buffer[..3].copy_from_slice(b"abc");
    match h.handle(&mut ctx, IoOutcome::Transferred(3)) {
        Action::Task(FileReadTask::Chunk(t)) => assert_eq!(t.chunk, b"abc".to_vec()),
        _ => panic!("expected a chunk task"),
    }
}

#[test]
fn reader_end_of_file_with_and_without_callback() {
    let mut ctx: FileReadContext<u8, &'static str> = FileReadContext::new(8);
    let h = FileReadHandler::for_context(&ctx);
    assert!(matches!(h.handle(&mut ctx, IoOutcome::Transferred(0)), Action::Stop));
    ctx.on_eof("eof");
    match h.handle(&mut ctx, IoOutcome::Transferred(0)) {
        Action::TaskAndStop(FileReadTask::Eof(t)) => assert_eq!(t.callback, "eof"),
        _ => panic!("expected the end-of-file task"),
    }
    assert!(matches!(h.handle(&mut ctx, IoOutcome::Transferred(0)), Action::Stop));
}

#[test]
fn reader_would_block_and_failure() {
    let mut ctx: FileReadContext<u8, u8> = FileReadContext::new(8);
    let h = FileReadHandler::for_context(&ctx);
    assert!(matches!(h.handle(&mut ctx, IoOutcome::WouldBlock), Action::Continue));
    assert!(matches!(h.handle(&mut ctx, IoOutcome::Failed), Action::Stop));
}

#[test]
fn pipe_reader_frames_lines() {
    let ctx: PipeContext<u8, u8> = PipeContext::new();
    let mut h = PipeReadHandler::new(16);
    h.temp[..4].copy_from_slice(b"hi\nt");
    match h.handle(&ctx, IoOutcome::Transferred(4)) {
        Action::Task(PipeTask::Chunk(t)) => assert_eq!(t.chunk, b"hi\n".to_vec()),
        _ => panic!("expected a line"),
    }
    h.temp[..1].copy_from_slice(b"x");
    assert!(matches!(h.handle(&ctx, IoOutcome::Transferred(1)), Action::Continue));
    h.temp[..1].copy_from_slice(b"\n");
    match h.handle(&ctx, IoOutcome::Transferred(1)) {
        Action::Task(PipeTask::Chunk(t)) => assert_eq!(t.chunk, b"tx\n".to_vec()),
        _ => panic!("expected a line"),
    }
}

#[test]
fn pipe_reader_close_and_failure() {
    let ctx: PipeContext<u8, u8> = PipeContext::new();
    let mut h = PipeReadHandler::new(8);
    assert!(matches!(h.handle(&ctx, IoOutcome::WouldBlock), Action::Continue));
    assert!(matches!(h.handle(&ctx, IoOutcome::Transferred(0)), Action::TaskAndStop(PipeTask::Close(_))));
    let mut g = PipeReadHandler::new(8);
    assert!(matches!(g.handle(&ctx, IoOutcome::Failed), Action::Stop));
}

#[test]
fn pipe_reader_overflow_stops() {
    let ctx: PipeContext<u8, u8> = PipeContext::new();
    let mut h = PipeReadHandler::new(600);
    assert!(matches!(h.handle(&ctx, IoOutcome::Transferred(600)), Action::Stop));
}

#[test]
fn pipe_writer_actions() {
    let ctx: PipeContext<u8, u8> = PipeContext::new();
    let w = PipeWriteHadler { temp: b"msg".to_vec() };
    match w.handle(&ctx, IoOutcome::Transferred(2)) {
        Action::Task(PipeTask::Chunk(t)) => assert_eq!(t.chunk, b"msg".to_vec()),
        _ => panic!("expected a chunk"),
    }
    assert!(matches!(w.handle(&ctx, IoOutcome::Transferred(0)), Action::TaskAndStop(PipeTask::Close(_))));
    assert!(matches!(w.handle(&ctx, IoOutcome::WouldBlock), Action::Continue));
    assert!(matches!(w.handle(&ctx, IoOutcome::Failed), Action::Stop));
}

#[test]
fn signal_callback_runs_once() {
    let mut h = SignalHandler::new("cb");
    match h.handle(SignalRead::Received(2)) {
        Action::Task(t) => {
            assert_eq!(t.callback, "cb");
            assert_eq!(t.signo, 2);
        },
        _ => panic!("expected the signal task"),
    }
    assert!(matches!(h.handle(SignalRead::Received(2)), Action::Stop));
}

#[test]
fn unknown_signal_number_becomes_sigterm() {
    let mut h = SignalHandler::new(1u8);
    match h.handle(SignalRead::Received(100_000)) {
        Action::Task(t) => assert_eq!(t.signo, 15),
        _ => panic!("expected the signal task"),
    }
}

#[test]
fn signal_empty_blocked_failed() {
    let mut h = SignalHandler::new(1u8);
    assert!(matches!(h.handle(SignalRead::Empty), Action::Continue));
    assert!(matches!(h.handle(SignalRead::WouldBlock), Action::Continue));
    assert!(matches!(h.handle(SignalRead::Failed), Action::Stop));
}

#[test]
fn timer_fires_and_stops() {
    let mut t = TimerHander::new(5u8);
    let (cb, action): (u8, Action<()>) = t.handle();
    assert_eq!(cb, 5);
    assert!(matches!(action, Action::Stop));
}

#[test]
fn dispatch_each_action() {
    assert_eq!(dispatch::<u8>(Action::Stop), (None, true));
    assert_eq!(dispatch::<u8>(Action::Continue), (None, false));
    assert_eq!(dispatch(Action::Task(4u8)), (Some(4), false));
    assert_eq!(dispatch(Action::TaskAndStop(5u8)), (Some(5), true));
}

#[test]
fn registry_settles_a_round() {
    let mut r: Registry<&'static str> = Registry::new();
    assert!(r.is_empty());
    r.register(3, "a", Interest::Read);
    r.register(4, "b", Interest::Write);
    r.register(5, "c", Interest::Read);
    let mut fds = r.fds();
    fds.sort();
    assert_eq!(fds, vec![3, 4, 5]);
    let tasks = r.settle(vec![
        (3, Action::Task(30u8)),
        (4, Action::Stop),
        (5, Action::TaskAndStop(50u8)),
    ]);
    assert_eq!(tasks, vec![30, 50]);
    assert_eq!(r.fds(), vec![3]);
    assert_eq!(r.get(3).map(|e| e.0), Some("a"));
    assert!(r.get(4).is_none());
    let tasks = r.settle(vec![(3, Action::<u8>::Stop)]);
    assert!(tasks.is_empty());
    assert!(r.is_empty());
}

#[test]
fn registering_again_replaces() {
    let mut r: Registry<u8> = Registry::new();
    r.register(7, 1, Interest::Read);
    r.register(7, 2, Interest::Write);
    assert_eq!(r.fds(), vec![7]);
    assert_eq!(r.get(7).map(|e| (e.0, e.1)), Some((2, Interest::Write)));
    assert_eq!(r.remove(7).0, 2);
    assert!(r.is_empty());
}

#[test]
fn ready_round_keeps_registered_once_in_order() {
    let mut r: Registry<u8> = Registry::new();
    r.register(3, 0, Interest::Read);
    r.register(5, 0, Interest::Read);
    assert_eq!(r.ready_round(&vec![5, 9, 3, 5, 3]), vec![5, 3]);
    assert_eq!(r.ready_round(&vec![]), Vec::<i32>::new());
    assert_eq!(r.ready_round(&vec![8]), Vec::<i32>::new());
}
