use vstd::prelude::*;

use crate::filectx::ChunkTask;
use crate::framer::{drained, first_line_len, has_newline, lemma_first_line_len_bounds, FrameBuffer};
use crate::handler::{Action, IoOutcome};

verus! {

/// How many bytes a pipe's frame buffer holds.
pub const PIPE_BUFFER_SIZE: usize = 512;

/// The work queued when a pipe closes: run the close callback, if one is
/// still registered when the task runs.
pub struct CloseTask;

/// The callbacks of one named pipe: one for each frame or chunk, and one for
/// the close, which runs once.
pub struct PipeContext<C, D> {
    on_chunk: Option<C>,
    on_close: Option<D>,
}

impl<C, D> PipeContext<C, D> {
    /// The callback for frames and chunks.
    pub closed spec fn chunk_callback(&self) -> Option<C> {
        self.on_chunk
    }

    /// The close callback, while it has not run.
    pub closed spec fn close_callback(&self) -> Option<D> {
        self.on_close
    }

    /// `after` is `before` once a close task has run, and `handed` is the
    /// callback it runs.
    pub open spec fn close_ran(before: Self, after: Self, handed: Option<D>) -> bool {
        &&& handed == before.close_callback()
        &&& after.close_callback() is None
        &&& after.chunk_callback() == before.chunk_callback()
    }

    /// A context with no callback registered.
    pub fn new() -> (ctx: Self)
        ensures
            ctx.chunk_callback() is None,
            ctx.close_callback() is None,
    {
        PipeContext { on_chunk: None, on_close: None }
    }

    /// Registers `cb` for every later frame or chunk.
    pub fn on_chunk(&mut self, cb: C)
        ensures
            final(self).chunk_callback() == Some(cb),
            final(self).close_callback() == old(self).close_callback(),
    {
        self.on_chunk = Some(cb);
    }

    /// Registers `cb` to run when the pipe closes.
    pub fn on_close(&mut self, cb: D)
        ensures
            final(self).close_callback() == Some(cb),
            final(self).chunk_callback() == old(self).chunk_callback(),
    {
        self.on_close = Some(cb);
    }

    /// The task that delivers `chunk`. There is always one; without a
    /// callback it does nothing when it runs.
    pub fn make_chunk_task(&self, chunk: Vec<u8>) -> (task: Option<ChunkTask>)
        ensures
            task == Some(ChunkTask { chunk }),
    {
        Some(ChunkTask { chunk })
    }

    /// The task that runs the close callback. There is always one; whether a
    /// callback is left is decided when it runs.
    pub fn make_close_task(&self) -> (task: Option<CloseTask>)
        ensures
            task is Some,
    {
        Some(CloseTask)
    }

    /// Runs a chunk task: answers the chunk for the registered callback, or
    /// `None` when there is none.
    pub fn run_chunk_task(&self, task: ChunkTask) -> (handed: Option<Vec<u8>>)
        ensures
            self.chunk_callback() is Some ==> handed == Some(task.chunk),
            self.chunk_callback() is None ==> handed is None,
    {
        if self.on_chunk.is_some() {
            Some(task.chunk)
        } else {
            None
        }
    }

    /// Runs a close task: the close callback leaves the context, to be
    /// called once.
    pub fn run_close_task(&mut self, task: CloseTask) -> (handed: Option<D>)
        ensures
            Self::close_ran(*old(self), *final(self), handed),
    {
        self.on_close.take()
    }

    /// The registered frame and chunk callback.
    pub fn chunk_callback_ref(&self) -> (cb: Option<&C>)
        ensures
            match self.chunk_callback() {
                Some(f) => cb == Some(&f),
                None => cb is None,
            },
    {
        match &self.on_chunk {
            Some(f) => Some(f),
            None => None,
        }
    }
}

/// A call that changes a pipe context, with what it was given or answered.
pub enum PipeCall<C, D> {
    /// `on_chunk` with this callback.
    OnChunk(C),
    /// `on_close` with this callback.
    OnClose(D),
    /// A call of `run_close_task`, and its result.
    RunCloseTask(Option<D>),
}

/// `after` is `before` once `call` was made on it.
pub open spec fn pipe_step<C, D>(
    before: PipeContext<C, D>,
    after: PipeContext<C, D>,
    call: PipeCall<C, D>,
) -> bool {
    match call {
        PipeCall::OnChunk(f) => after.chunk_callback() == Some(f) && after.close_callback()
            == before.close_callback(),
        PipeCall::OnClose(f) => after.close_callback() == Some(f) && after.chunk_callback()
            == before.chunk_callback(),
        PipeCall::RunCloseTask(handed) => PipeContext::close_ran(before, after, handed),
    }
}

/// `cs` are the states a pipe context goes through while `calls` are made on
/// it, one after the other.
pub open spec fn pipe_run<C, D>(cs: Seq<PipeContext<C, D>>, calls: Seq<PipeCall<C, D>>) -> bool {
    &&& cs.len() == calls.len() + 1
    &&& forall|i: int| 0 <= i < calls.len() ==> pipe_step(cs[i], cs[i + 1], #[trigger] calls[i])
}

/// A close task ran strictly between calls `k` and `j`.
pub open spec fn close_ran_between<C, D>(calls: Seq<PipeCall<C, D>>, k: int, j: int) -> bool {
    exists|m: int| k < m < j && #[trigger] calls[m] is RunCloseTask
}

/// After `on_close(f)` at call `k` and no later `on_close`, the context holds
/// `f` until the first close task runs, and nothing after.
proof fn lemma_close_slot<C, D>(
    cs: Seq<PipeContext<C, D>>,
    calls: Seq<PipeCall<C, D>>,
    k: int,
    f: D,
    j: int,
)
    requires
        pipe_run(cs, calls),
        0 <= k < j < cs.len(),
        calls[k] == PipeCall::<C, D>::OnClose(f),
        forall|m: int| k < m < calls.len() ==> !(#[trigger] calls[m] is OnClose),
    ensures
        cs[j].close_callback() == if close_ran_between(calls, k, j) {
            None
        } else {
            Some(f)
        },
    decreases j - k,
{
    assert(pipe_step(cs[j - 1], cs[j], calls[j - 1]));
    if j == k + 1 {
        assert(!close_ran_between(calls, k, j));
    } else {
        lemma_close_slot(cs, calls, k, f, j - 1);
        assert(!(calls[j - 1] is OnClose));
        if calls[j - 1] is RunCloseTask {
            assert(close_ran_between(calls, k, j));
        } else if close_ran_between(calls, k, j) {
            let m = choose|m: int| k < m < j && #[trigger] calls[m] is RunCloseTask;
            assert(close_ran_between(calls, k, j - 1));
        } else {
            assert(!close_ran_between(calls, k, j - 1));
        }
    }
}

/// After `on_close(f)`, and while no other `on_close` follows, however many
/// close tasks run, the first one hands out `f` and every later one hands
/// out nothing, so `f` runs once.
pub proof fn law_close_callback_runs_once<C, D>(
    cs: Seq<PipeContext<C, D>>,
    calls: Seq<PipeCall<C, D>>,
    k: int,
    f: D,
)
    requires
        pipe_run(cs, calls),
        0 <= k < calls.len(),
        calls[k] == PipeCall::<C, D>::OnClose(f),
        forall|j: int| k < j < calls.len() ==> !(#[trigger] calls[j] is OnClose),
    ensures
        forall|j: int|
            k < j < calls.len() && #[trigger] calls[j] is RunCloseTask && !close_ran_between(calls, k, j)
                ==> calls[j]->RunCloseTask_0 == Some(f),
        forall|i: int, j: int|
            k < i < j < calls.len() && #[trigger] calls[i] is RunCloseTask
                && #[trigger] calls[j] is RunCloseTask ==> calls[j]->RunCloseTask_0 is None,
{
    assert forall|j: int|
        k < j < calls.len() && #[trigger] calls[j] is RunCloseTask && !close_ran_between(calls, k, j)
        implies calls[j]->RunCloseTask_0 == Some(f) by {
        lemma_close_slot(cs, calls, k, f, j);
        assert(pipe_step(cs[j], cs[j + 1], calls[j]));
    }
    assert forall|i: int, j: int|
        k < i < j < calls.len() && #[trigger] calls[i] is RunCloseTask
            && #[trigger] calls[j] is RunCloseTask implies calls[j]->RunCloseTask_0 is None by {
        lemma_close_slot(cs, calls, k, f, j);
        assert(close_ran_between(calls, k, j));
        assert(pipe_step(cs[j], cs[j + 1], calls[j]));
    }
}

/// What a pipe handler hands to the executor.
pub enum PipeTask {
    Chunk(ChunkTask),
    Close(CloseTask),
}

/// Takes every complete line out of `frames`.
fn drain_frames(frames: &mut FrameBuffer)
    ensures
        final(frames).pending() == drained(old(frames).pending()),
        final(frames).limit() == old(frames).limit(),
{
    loop
        invariant
            drained(frames.pending()) == drained(old(frames).pending()),
            frames.limit() == old(frames).limit(),
        ensures
            frames.pending() == drained(old(frames).pending()),
            frames.limit() == old(frames).limit(),
        decreases frames.pending().len(),
    {
        let ghost before = frames.pending();
        match frames.next_frame() {
            Some(_) => {
                proof {
                    lemma_first_line_len_bounds(before);
                }
            },
            None => {
                break ;
            },
        }
    }
}

/// Reads a named pipe: collects what arrives in a bounded frame buffer and
/// hands out one line per read.
pub struct PipeReadHandler {
    pub buffer: FrameBuffer,
    pub temp: Vec<u8>,
}

impl PipeReadHandler {
    /// A reader whose read buffer holds `temp_len` zeros and whose frame
    /// buffer holds `PIPE_BUFFER_SIZE` bytes.
    pub fn new(temp_len: usize) -> (h: Self)
        ensures
            h.temp@ == Seq::new(temp_len as nat, |i: int| 0u8),
            h.buffer.pending() == Seq::<u8>::empty(),
            h.buffer.limit() == PIPE_BUFFER_SIZE,
    {
        let h = PipeReadHandler { buffer: FrameBuffer::new(PIPE_BUFFER_SIZE), temp: vec![0u8; temp_len] };
        assert(h.temp@ =~= Seq::new(temp_len as nat, |i: int| 0u8));
        h
    }

    /// Takes in how a read into `temp` went. At the end of the stream the
    /// complete lines still buffered are dropped and the close task is
    /// queued; after `n` bytes they join the frame buffer, or stop the pipe
    /// when they do not fit, and the first complete line, if any, is queued;
    /// a would-block keeps the pipe; a failure drops the buffered lines and
    /// stops it.
    pub fn handle<C, D>(&mut self, ctx: &PipeContext<C, D>, outcome: IoOutcome) -> (action:
        Action<PipeTask>)
        requires
            outcome matches IoOutcome::Transferred(n) ==> n <= old(self).temp@.len(),
        ensures
            final(self).temp == old(self).temp,
            final(self).buffer.limit() == old(self).buffer.limit(),
            match outcome {
                IoOutcome::Transferred(n) => if n == 0 {
                    &&& action matches Action::TaskAndStop(PipeTask::Close(_))
                    &&& final(self).buffer.pending() == drained(old(self).buffer.pending())
                } else {
                    let incoming = old(self).temp@.take(n as int);
                    let joined = old(self).buffer.pending() + incoming;
                    if old(self).buffer.pending().len() + n > old(self).buffer.limit() {
                        &&& action is Stop
                        &&& final(self).buffer.pending() == old(self).buffer.pending()
                    } else if has_newline(joined) {
                        &&& action matches Action::Task(PipeTask::Chunk(t)) && t.chunk@
                            == joined.take(first_line_len(joined))
                        &&& final(self).buffer.pending() == joined.skip(first_line_len(joined))
                    } else {
                        &&& action is Continue
                        &&& final(self).buffer.pending() == joined
                    }
                },
                IoOutcome::WouldBlock => {
                    &&& action is Continue
                    &&& final(self).buffer.pending() == old(self).buffer.pending()
                },
                IoOutcome::Failed => {
                    &&& action is Stop
                    &&& final(self).buffer.pending() == drained(old(self).buffer.pending())
                },
            },
    {
        match outcome {
            IoOutcome::Transferred(n) => {
                if n == 0 {
                    drain_frames(&mut self.buffer);
                    match ctx.make_close_task() {
                        Some(task) => Action::TaskAndStop(PipeTask::Close(task)),
                        None => Action::Stop,
                    }
                } else {
                    let incoming = vstd::slice::slice_subrange(self.temp.as_slice(), 0, n);
                    if self.buffer.push(incoming).is_err() {
                        return Action::Stop;
                    }
                    match self.buffer.next_frame() {
                        None => Action::Continue,
                        Some(chunk) => match ctx.make_chunk_task(chunk) {
                            Some(task) => Action::Task(PipeTask::Chunk(task)),
                            None => Action::Continue,
                        },
                    }
                }
            },
            IoOutcome::WouldBlock => Action::Continue,
            IoOutcome::Failed => {
                drain_frames(&mut self.buffer);
                Action::Stop
            },
        }
    }
}

/// Writes a whole buffer to a named pipe, again on every ready event.
pub struct PipeWriteHadler {
    pub temp: Vec<u8>,
}

impl PipeWriteHadler {
    /// Takes in how a write of all of `temp` went. Zero bytes written queues
    /// the close task and drops the pipe; any other count queues a chunk task
    /// with the whole of `temp`; a would-block keeps the pipe; a failure
    /// drops it.
    pub fn handle<C, D>(&self, ctx: &PipeContext<C, D>, outcome: IoOutcome) -> (action: Action<
        PipeTask,
    >)
        ensures
            match outcome {
                IoOutcome::Transferred(n) => if n == 0 {
                    action matches Action::TaskAndStop(PipeTask::Close(_))
                } else {
                    action matches Action::Task(PipeTask::Chunk(t)) && t.chunk@ == self.temp@
                },
                IoOutcome::WouldBlock => action is Continue,
                IoOutcome::Failed => action is Stop,
            },
    {
        match outcome {
            IoOutcome::Transferred(n) => {
                if n == 0 {
                    match ctx.make_close_task() {
                        Some(task) => Action::TaskAndStop(PipeTask::Close(task)),
                        None => Action::Stop,
                    }
                } else {
                    let chunk = self.temp.clone();
                    assert(chunk@ =~= self.temp@);
                    match ctx.make_chunk_task(chunk) {
                        Some(task) => Action::Task(PipeTask::Chunk(task)),
                        None => Action::Continue,
                    }
                }
            },
            IoOutcome::WouldBlock => Action::Continue,
            IoOutcome::Failed => Action::Stop,
        }
    }
}

} // verus!
