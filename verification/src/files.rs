use vstd::prelude::*;

use crate::filectx::{ChunkTask, EofTask, FileReadContext};
use crate::handler::{Action, IoOutcome};

verus! {

/// How many bytes a file read asks for, and the most a file write hands to
/// one call, when the caller does not say.
pub const DEFAULT_CHUNK_SIZE: usize = 512;

/// What a write handler reports after a successful write: the bytes that went
/// out and how many they were.
pub struct WriteCompletion {
    pub chunk: Vec<u8>,
    pub written: usize,
}

/// Writes a byte buffer to a descriptor, at most `max` bytes per call,
/// resuming where the previous write stopped.
pub struct FileWriterHandler {
    buffer: Vec<u8>,
    max: usize,
    offset: usize,
}

/// The smaller of `a` and `b`.
pub open spec fn min(a: int, b: int) -> int {
    if a <= b {
        a
    } else {
        b
    }
}

impl FileWriterHandler {
    #[verifier::type_invariant]
    spec fn offset_in_buffer(self) -> bool {
        self.offset <= self.buffer@.len()
    }

    /// The whole buffer to write.
    pub closed spec fn data(&self) -> Seq<u8> {
        self.buffer@
    }

    /// The most bytes handed to one write.
    pub closed spec fn limit(&self) -> usize {
        self.max
    }

    /// How many bytes have been written so far.
    pub closed spec fn written(&self) -> nat {
        self.offset as nat
    }

    /// Where the bytes offered to the next write end.
    pub open spec fn window_end(&self) -> int {
        self.written() + min(self.data().len() - self.written(), self.limit() as int)
    }

    /// `after` is `before` once the outcome of a write of its window is known,
    /// and `action` is what the reactor is told.
    pub open spec fn wrote(
        before: Self,
        after: Self,
        outcome: IoOutcome,
        action: Action<WriteCompletion>,
    ) -> bool {
        &&& after.data() == before.data()
        &&& after.limit() == before.limit()
        &&& match outcome {
            IoOutcome::Transferred(n) => if n == 0 {
                &&& action is Stop
                &&& after.written() == before.written()
            } else {
                &&& action matches Action::Task(c) && c.written == n && c.chunk@
                    == before.data().subrange(
                    before.written() as int,
                    before.written() + n,
                )
                &&& after.written() == before.written() + n
            },
            IoOutcome::WouldBlock => {
                &&& action is Continue
                &&& after.written() == before.written()
            },
            IoOutcome::Failed => {
                &&& action is Stop
                &&& after.written() == before.written()
            },
        }
    }

    /// A writer for `buffer` that has written nothing yet and hands at most
    /// `max` bytes to one call, or `DEFAULT_CHUNK_SIZE` when `max` is `None`.
    pub fn new(buffer: Vec<u8>, max: Option<usize>) -> (h: Self)
        ensures
            h.data() == buffer@,
            h.written() == 0,
            h.limit() == match max {
                Some(m) => m,
                None => DEFAULT_CHUNK_SIZE,
            },
    {
        let m = match max {
            Some(m) => m,
            None => DEFAULT_CHUNK_SIZE,
        };
        FileWriterHandler { buffer, max: m, offset: 0 }
    }

    /// The bytes to hand to the next write: what is left of the buffer, cut
    /// to the limit.
    pub fn pending(&self) -> (bytes: &[u8])
        ensures
            bytes@ == self.data().subrange(self.written() as int, self.window_end()),
    {
        proof {
            use_type_invariant(self);
        }
        let diff = self.buffer.len() - self.offset;
        let m = if diff <= self.max {
            self.offset + diff
        } else {
            self.offset + self.max
        };
        vstd::slice::slice_subrange(self.buffer.as_slice(), self.offset, m)
    }

    /// Takes in how the write of `pending()` went. Zero bytes written, or a
    /// failure, drops the descriptor; a would-block keeps it; otherwise the
    /// written bytes go to the completion task and the next write resumes
    /// after them.
    pub fn handle(&mut self, outcome: IoOutcome) -> (action: Action<WriteCompletion>)
        requires
            outcome matches IoOutcome::Transferred(n) ==> old(self).written() + n <= old(
                self,
            ).data().len(),
        ensures
            Self::wrote(*old(self), *final(self), outcome, action),
    {
        proof {
            use_type_invariant(&*self);
        }
        match outcome {
            IoOutcome::Transferred(n) => {
                if n == 0 {
                    Action::Stop
                } else {
                    let len = self.buffer.len();
                    assert(self.offset + n <= len);
                    let m = self.offset + n;
                    let chunk = vstd::slice::slice_to_vec(
                        vstd::slice::slice_subrange(self.buffer.as_slice(), self.offset, m),
                    );
                    self.offset = m;
                    Action::Task(WriteCompletion { chunk, written: n })
                }
            },
            IoOutcome::WouldBlock => Action::Continue,
            IoOutcome::Failed => Action::Stop,
        }
    }
}

/// Each completion reports the bytes of that one write: its count is the
/// number of bytes the write moved, and the chunk it carries is that long,
/// whatever was written before.
pub proof fn law_completion_counts_one_write(
    before: FileWriterHandler,
    after: FileWriterHandler,
    n: usize,
    action: Action<WriteCompletion>,
)
    requires
        FileWriterHandler::wrote(before, after, IoOutcome::Transferred(n), action),
        before.written() + n <= before.data().len(),
        n > 0,
    ensures
        action matches Action::Task(c) && c.written == n && c.chunk@.len() == n
            && c.written == c.chunk@.len(),
        after.written() - before.written() == n,
{
}

/// The bytes that the completion tasks among `actions` carry, in order.
pub open spec fn completed_bytes(actions: Seq<Action<WriteCompletion>>) -> Seq<u8>
    decreases actions.len(),
{
    if actions.len() == 0 {
        Seq::empty()
    } else {
        completed_bytes(actions.drop_last()) + match actions.last().task() {
            Some(c) => c.chunk@,
            None => Seq::empty(),
        }
    }
}

/// `hs` are the states a writer goes through while it takes in `outcomes`,
/// one after the other, and answers `actions`.
pub open spec fn write_run(
    hs: Seq<FileWriterHandler>,
    outcomes: Seq<IoOutcome>,
    actions: Seq<Action<WriteCompletion>>,
) -> bool {
    &&& hs.len() == outcomes.len() + 1
    &&& actions.len() == outcomes.len()
    &&& forall|i: int|
        0 <= i < outcomes.len() ==> FileWriterHandler::wrote(
            hs[i],
            hs[i + 1],
            outcomes[i],
            #[trigger] actions[i],
        )
}

/// However many writes a writer goes through, its buffer never changes, the
/// count of written bytes never goes down, and the completion tasks, in
/// order, carry exactly the bytes written meanwhile; from a new writer, that
/// is the front of the buffer up to the count written.
pub proof fn law_completions_cover_written(
    hs: Seq<FileWriterHandler>,
    outcomes: Seq<IoOutcome>,
    actions: Seq<Action<WriteCompletion>>,
)
    requires
        write_run(hs, outcomes, actions),
        forall|i: int| 0 <= i < hs.len() ==> #[trigger] hs[i].written() <= hs[i].data().len(),
    ensures
        forall|i: int| 0 <= i < hs.len() ==> #[trigger] hs[i].data() == hs[0].data(),
        forall|i: int, j: int|
            0 <= i <= j < hs.len() ==> #[trigger] hs[i].written() <= #[trigger] hs[j].written(),
        completed_bytes(actions) == hs[0].data().subrange(
            hs[0].written() as int,
            hs.last().written() as int,
        ),
        hs[0].written() == 0 ==> completed_bytes(actions) == hs[0].data().take(
            hs.last().written() as int,
        ),
    decreases outcomes.len(),
{
    let n = outcomes.len() as int;
    if n == 0 {
        assert(completed_bytes(actions) =~= hs[0].data().subrange(
            hs[0].written() as int,
            hs.last().written() as int,
        ));
    } else {
        let hp = hs.drop_last();
        let op = outcomes.drop_last();
        let ap = actions.drop_last();
        assert forall|i: int| 0 <= i < op.len() implies FileWriterHandler::wrote(
            hp[i],
            hp[i + 1],
            op[i],
            #[trigger] ap[i],
        ) by {
            assert(FileWriterHandler::wrote(hs[i], hs[i + 1], outcomes[i], actions[i]));
        }
        assert forall|i: int| 0 <= i < hp.len() implies #[trigger] hp[i].written()
            <= hp[i].data().len() by {
            assert(hs[i].written() <= hs[i].data().len());
        }
        law_completions_cover_written(hp, op, ap);
        assert(FileWriterHandler::wrote(hs[n - 1], hs[n], outcomes[n - 1], actions[n - 1]));
        assert(hp.last() == hs[n - 1]);
        assert(hs[n - 1].written() <= hs[n - 1].data().len());
        assert(hs[n].written() <= hs[n].data().len());
        assert forall|i: int| 0 <= i < hs.len() implies #[trigger] hs[i].data() == hs[0].data() by {
            if i < n {
                assert(hp[i] == hs[i]);
            }
        }
        assert forall|i: int, j: int|
            0 <= i <= j < hs.len() implies #[trigger] hs[i].written() <= #[trigger] hs[j].written() by {
            if j < n {
                assert(hp[i] == hs[i]);
                assert(hp[j] == hs[j]);
                assert(hp[i].written() <= hp[j].written());
            } else if i < n {
                assert(hp[i] == hs[i]);
                assert(hp[i].written() <= hp[n - 1].written());
            }
        }
        let d = hs[0].data();
        assert(completed_bytes(actions) =~= d.subrange(
            hs[0].written() as int,
            hs.last().written() as int,
        ));
    }
    if hs[0].written() == 0 {
        assert(hs[0].data().subrange(0, hs.last().written() as int) =~= hs[0].data().take(
            hs.last().written() as int,
        ));
    }
}

/// A writer offers no byte exactly when its whole buffer is written or its
/// limit is zero; the write of that empty window answers zero, which stops it.
pub proof fn law_window_empty_when_done(h: FileWriterHandler)
    requires
        h.written() <= h.data().len(),
    ensures
        (h.window_end() == h.written()) <==> (h.written() == h.data().len() || h.limit() == 0),
{
}

/// What a file read hands to the executor: a chunk, or the end-of-file call.
pub enum FileReadTask<E> {
    Chunk(ChunkTask),
    Eof(EofTask<E>),
}

/// Reads a file chunk by chunk into `buffer` and feeds the chunks to a
/// `FileReadContext`.
pub struct FileReadHandler {
    pub buffer: Vec<u8>,
}

impl FileReadHandler {
    /// A reader whose buffer holds one chunk of `ctx`, filled with zeros.
    pub fn for_context<C, E>(ctx: &FileReadContext<C, E>) -> (h: Self)
        ensures
            h.buffer@ == Seq::new(ctx.configured_chunk_size() as nat, |i: int| 0u8),
    {
        let h = FileReadHandler { buffer: vec![0u8; ctx.chunk_size()] };
        assert(h.buffer@ =~= Seq::new(ctx.configured_chunk_size() as nat, |i: int| 0u8));
        h
    }

    /// Takes in how a read into `buffer` went. The end of the file hands the
    /// end-of-file callback to the executor, if one is left, and drops the
    /// descriptor; a read of `n` bytes queues a chunk task for the first `n`
    /// bytes of the buffer; a would-block keeps the descriptor; a failure
    /// drops it.
    pub fn handle<C, E>(&self, ctx: &mut FileReadContext<C, E>, outcome: IoOutcome) -> (action:
        Action<FileReadTask<E>>)
        requires
            outcome matches IoOutcome::Transferred(n) ==> n <= self.buffer@.len(),
        ensures
            match outcome {
                IoOutcome::Transferred(n) => if n == 0 {
                    &&& match old(ctx).eof_callback() {
                        Some(cb) => action == Action::TaskAndStop(
                            FileReadTask::Eof(EofTask { callback: cb }),
                        ),
                        None => action is Stop,
                    }
                    &&& FileReadContext::eof_taken(
                        *old(ctx),
                        *final(ctx),
                        match action {
                            Action::TaskAndStop(FileReadTask::Eof(t)) => Some(t),
                            _ => None,
                        },
                    )
                } else {
                    &&& action matches Action::Task(FileReadTask::Chunk(t)) && t.chunk@
                        == self.buffer@.take(n as int)
                    &&& *final(ctx) == *old(ctx)
                },
                IoOutcome::WouldBlock => action is Continue && *final(ctx) == *old(ctx),
                IoOutcome::Failed => action is Stop && *final(ctx) == *old(ctx),
            },
    {
        match outcome {
            IoOutcome::Transferred(n) => {
                if n == 0 {
                    match ctx.make_eof_task() {
                        Some(task) => Action::TaskAndStop(FileReadTask::Eof(task)),
                        None => Action::Stop,
                    }
                } else {
                    let chunk = vstd::slice::slice_to_vec(
                        vstd::slice::slice_subrange(self.buffer.as_slice(), 0, n),
                    );
                    match ctx.make_chunk_task(chunk) {
                        Some(task) => Action::Task(FileReadTask::Chunk(task)),
                        None => Action::Continue,
                    }
                }
            },
            IoOutcome::WouldBlock => Action::Continue,
            IoOutcome::Failed => Action::Stop,
        }
    }
}

} // verus!
