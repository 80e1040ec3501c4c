use fdreactor::filectx::{ChunkCallback, ChunkTask, FileReadContext};
use fdreactor::pipes::PipeContext;

type Ctx = FileReadContext<u32, &'static str>;

#[test]
fn new_context_reports_chunk_size() {
    let ctx: Ctx = FileReadContext::new(512);
    assert_eq!(ctx.chunk_size(), 512);
    assert_eq!(ctx.take(), Vec::<u8>::new());
}

#[test]
fn pushed_bytes_are_taken_in_order() {
    let mut ctx: Ctx = FileReadContext::new(4);
    ctx.push_bytes(b"abc");
    ctx.push_bytes(b"de");
    assert_eq!(ctx.take(), b"abcde".to_vec());
}

#[test]
fn with_bytes_lends_the_bytes() {
    let mut ctx: Ctx = FileReadContext::new(4);
    ctx.push_bytes(b"xyz");
    let n = ctx.with_bytes(|b| b.len());
    assert_eq!(n, 3);
    let first = ctx.with_bytes(|b| b[0]);
    assert_eq!(first, b'x');
    assert_eq!(ctx.take(), b"xyz".to_vec());
}

#[test]
fn chunk_task_is_always_made() {
    let ctx: Ctx = FileReadContext::new(4);
    let t = ctx.make_chunk_task(b"hi".to_vec());
    assert_eq!(t.map(|t| t.chunk), Some(b"hi".to_vec()));
}

#[test]
fn default_chunk_callback_accumulates() {
    let mut ctx: Ctx = FileReadContext::new(4);
    let a = ctx.make_chunk_task(b"ab".to_vec()).unwrap();
    assert_eq!(ctx.run_chunk_task(a), None);
    let b = ctx.make_chunk_task(b"cd".to_vec()).unwrap();
    assert_eq!(ctx.run_chunk_task(b), None);
    assert!(ctx.chunk_callback_ref().is_none());
    assert_eq!(ctx.take(), b"abcd".to_vec());
}

#[test]
fn custom_chunk_callback_gets_the_chunk() {
    let mut ctx: Ctx = FileReadContext::new(4);
    ctx.on_chunk(7);
    assert_eq!(ctx.chunk_callback_ref(), Some(&7));
    let handed = ctx.run_chunk_task(ChunkTask { chunk: b"zz".to_vec() });
    assert_eq!(handed, Some(b"zz".to_vec()));
    assert_eq!(ctx.take(), Vec::<u8>::new());
}

#[test]
fn eof_task_fires_once() {
    let mut ctx: Ctx = FileReadContext::new(4);
    assert!(ctx.make_eof_task().is_none());
    ctx.on_eof("done");
    let t = ctx.make_eof_task();
    assert_eq!(t.map(|t| t.callback), Some("done"));
    assert!(ctx.make_eof_task().is_none());
}

#[test]
fn later_eof_registration_replaces_earlier() {
    let mut ctx: Ctx = FileReadContext::new(4);
    ctx.on_eof("first");
    ctx.on_eof("second");
    assert_eq!(ctx.make_eof_task().map(|t| t.callback), Some("second"));
}

#[test]
fn chunk_callback_enum_variants() {
    let a: ChunkCallback<u8> = ChunkCallback::Accumulate;
    assert!(matches!(a, ChunkCallback::Accumulate));
}

#[test]
fn pipe_context_without_callbacks() {
    let mut ctx: PipeContext<u8, u8> = PipeContext::new();
    let t = ctx.make_chunk_task(b"x".to_vec()).unwrap();
    assert_eq!(ctx.run_chunk_task(t), None);
    let c = ctx.make_close_task().unwrap();
    assert_eq!(ctx.run_close_task(c), None);
}

#[test]
fn pipe_close_callback_runs_once() {
    let mut ctx: PipeContext<u8, &'static str> = PipeContext::new();
    ctx.on_close("bye");
    let c1 = ctx.make_close_task().unwrap();
    assert_eq!(ctx.run_close_task(c1), Some("bye"));
    let c2 = ctx.make_close_task().unwrap();
    assert_eq!(ctx.run_close_task(c2), None);
}

#[test]
fn pipe_chunk_callback_gets_chunk() {
    let mut ctx: PipeContext<u8, u8> = PipeContext::new();
    ctx.on_chunk(3);
    assert_eq!(ctx.chunk_callback_ref(), Some(&3));
    let t = ctx.make_chunk_task(b"data".to_vec()).unwrap();
    assert_eq!(ctx.run_chunk_task(t), Some(b"data".to_vec()));
}
