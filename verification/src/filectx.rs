use vstd::prelude::*;

verus! {

/// What a context does with each chunk read from its file.
pub enum ChunkCallback<C> {
    /// Keep the chunk: append it to the bytes the context holds. Every new
    /// context starts with this.
    Accumulate,
    /// Hand the chunk to a callback registered by the user.
    Custom(C),
}

/// The work queued when a chunk was read: deliver `chunk` to the context.
pub struct ChunkTask {
    pub chunk: Vec<u8>,
}

/// The work queued at the end of the file: call `callback` with the context.
pub struct EofTask<E> {
    pub callback: E,
}

/// A call that changes a context, with what it was given and what it
/// answered.
pub enum ContextCall<C, E> {
    /// `push_bytes` with these bytes.
    PushBytes(Seq<u8>),
    /// `on_chunk` with this callback.
    OnChunk(C),
    /// `on_eof` with this callback.
    OnEof(E),
    /// A call of `make_eof_task`, and its result.
    MakeEofTask(Option<EofTask<E>>),
    /// A call of `run_chunk_task` on a chunk, and its result.
    RunChunkTask(Seq<u8>, Option<Vec<u8>>),
}

/// The bytes that `calls` leave in a context, in order: those pushed, and
/// the chunks that ran while no callback took them.
pub open spec fn kept_bytes<C, E>(calls: Seq<ContextCall<C, E>>) -> Seq<u8>
    decreases calls.len(),
{
    if calls.len() == 0 {
        Seq::empty()
    } else {
        kept_bytes(calls.drop_last()) + match calls.last() {
            ContextCall::PushBytes(bytes) => bytes,
            ContextCall::RunChunkTask(chunk, None) => chunk,
            _ => Seq::empty(),
        }
    }
}

/// The state of one streamed file read: its chunk size, the bytes
/// accumulated so far, what to do with each chunk, and the callback for the
/// end of the file, which runs once.
pub struct FileReadContext<C, E> {
    bytes: Vec<u8>,
    chunk_size: usize,
    on_chunk: ChunkCallback<C>,
    on_eof: Option<E>,
}

impl<C, E> FileReadContext<C, E> {
    /// The bytes accumulated so far, oldest first.
    pub closed spec fn stored(&self) -> Seq<u8> {
        self.bytes@
    }

    /// How many bytes one read asks for.
    pub closed spec fn configured_chunk_size(&self) -> usize {
        self.chunk_size
    }

    /// What happens to each chunk.
    pub closed spec fn chunk_callback(&self) -> ChunkCallback<C> {
        self.on_chunk
    }

    /// The end-of-file callback, while it has not been handed out.
    pub closed spec fn eof_callback(&self) -> Option<E> {
        self.on_eof
    }

    /// `ctx` is what `new(chunk_size)` builds.
    pub open spec fn is_fresh(ctx: Self, chunk_size: usize) -> bool {
        &&& ctx.stored() == Seq::<u8>::empty()
        &&& ctx.configured_chunk_size() == chunk_size
        &&& ctx.chunk_callback() is Accumulate
        &&& ctx.eof_callback() is None
    }

    /// `before` and `after` agree on everything but the stored bytes.
    pub open spec fn same_settings(before: Self, after: Self) -> bool {
        &&& after.configured_chunk_size() == before.configured_chunk_size()
        &&& after.chunk_callback() == before.chunk_callback()
        &&& after.eof_callback() == before.eof_callback()
    }

    /// `after` is `before` with `bytes` appended.
    pub open spec fn pushed(before: Self, after: Self, bytes: Seq<u8>) -> bool {
        &&& after.stored() == before.stored() + bytes
        &&& Self::same_settings(before, after)
    }

    /// `after` is `before` once the end-of-file task has been asked for:
    /// the callback, if any, leaves the context inside the task.
    pub open spec fn eof_taken(before: Self, after: Self, task: Option<EofTask<E>>) -> bool {
        &&& match before.eof_callback() {
            Some(cb) => task == Some(EofTask { callback: cb }),
            None => task is None,
        }
        &&& after.eof_callback() is None
        &&& after.stored() == before.stored()
        &&& after.configured_chunk_size() == before.configured_chunk_size()
        &&& after.chunk_callback() == before.chunk_callback()
    }

    /// `after` is `before` once a task for `chunk` has run: the context keeps
    /// the chunk itself, or hands it back for the registered callback.
    pub open spec fn chunk_ran(
        before: Self,
        after: Self,
        chunk: Seq<u8>,
        handed: Option<Vec<u8>>,
    ) -> bool {
        &&& match before.chunk_callback() {
            ChunkCallback::Accumulate => {
                &&& after.stored() == before.stored() + chunk
                &&& handed is None
            },
            ChunkCallback::Custom(_) => {
                &&& after.stored() == before.stored()
                &&& handed matches Some(v) && v@ == chunk
            },
        }
        &&& Self::same_settings(before, after)
    }

    /// `after` is `before` with `f` as its chunk callback.
    pub open spec fn chunk_set(before: Self, after: Self, f: C) -> bool {
        &&& after.chunk_callback() == ChunkCallback::Custom(f)
        &&& after.stored() == before.stored()
        &&& after.configured_chunk_size() == before.configured_chunk_size()
        &&& after.eof_callback() == before.eof_callback()
    }

    /// `after` is `before` with `f` as its end-of-file callback.
    pub open spec fn eof_set(before: Self, after: Self, f: E) -> bool {
        &&& after.eof_callback() == Some(f)
        &&& after.stored() == before.stored()
        &&& after.configured_chunk_size() == before.configured_chunk_size()
        &&& after.chunk_callback() == before.chunk_callback()
    }

    /// `after` is `before` once `call` was made on it.
    pub open spec fn step(before: Self, after: Self, call: ContextCall<C, E>) -> bool {
        match call {
            ContextCall::PushBytes(bytes) => Self::pushed(before, after, bytes),
            ContextCall::OnChunk(f) => Self::chunk_set(before, after, f),
            ContextCall::OnEof(f) => Self::eof_set(before, after, f),
            ContextCall::MakeEofTask(task) => Self::eof_taken(before, after, task),
            ContextCall::RunChunkTask(chunk, handed) => Self::chunk_ran(before, after, chunk, handed),
        }
    }

    /// `cs` are the states a context goes through while `calls` are made on
    /// it, one after the other.
    pub open spec fn run(cs: Seq<Self>, calls: Seq<ContextCall<C, E>>) -> bool {
        &&& cs.len() == calls.len() + 1
        &&& forall|i: int|
            0 <= i < calls.len() ==> Self::step(cs[i], cs[i + 1], #[trigger] calls[i])
    }

    /// A context that reads `chunk_size` bytes at a time, holds no byte yet,
    /// keeps every chunk it is given, and has no end-of-file callback.
    pub fn new(chunk_size: usize) -> (ctx: Self)
        ensures
            Self::is_fresh(ctx, chunk_size),
    {
        FileReadContext {
            bytes: Vec::new(),
            chunk_size,
            on_chunk: ChunkCallback::Accumulate,
            on_eof: None,
        }
    }

    /// How many bytes one read asks for.
    pub fn chunk_size(&self) -> (n: usize)
        ensures
            n == self.configured_chunk_size(),
    {
        self.chunk_size
    }

    /// Hands every later chunk to `f` in place of keeping it.
    pub fn on_chunk(&mut self, f: C)
        ensures
            Self::chunk_set(*old(self), *final(self), f),
    {
        self.on_chunk = ChunkCallback::Custom(f);
    }

    /// Registers `f` as the end-of-file callback, replacing any earlier one.
    pub fn on_eof(&mut self, f: E)
        ensures
            Self::eof_set(*old(self), *final(self), f),
    {
        self.on_eof = Some(f);
    }

    /// Appends `bytes` to the bytes held.
    pub fn push_bytes(&mut self, bytes: &[u8])
        requires
            old(self).stored().len() + bytes@.len() <= usize::MAX,
        ensures
            Self::pushed(*old(self), *final(self), bytes@),
    {
        self.bytes.extend_from_slice(bytes);
        assert(self.bytes@ =~= old(self).bytes@ + bytes@);
    }

    /// Lends the bytes held to `f` and answers what `f` answers; the context
    /// does not change.
    pub fn with_bytes<R, F: FnOnce(&[u8]) -> R>(&self, f: F) -> (r: R)
        requires
            forall|s: &[u8]| s@ == self.stored() ==> #[trigger] f.requires((s,)),
        ensures
            exists|s: &[u8]| s@ == self.stored() && #[trigger] f.ensures((s,), r),
    {
        let s = self.bytes.as_slice();
        f(s)
    }

    /// Gives up the context and answers the bytes it held.
    pub fn take(self) -> (bytes: Vec<u8>)
        ensures
            bytes@ == self.stored(),
    {
        self.bytes
    }

    /// The task that delivers `chunk` to this context. There is always one:
    /// whether the chunk is kept or handed to a callback is decided when the
    /// task runs.
    pub fn make_chunk_task(&self, chunk: Vec<u8>) -> (task: Option<ChunkTask>)
        ensures
            task == Some(ChunkTask { chunk }),
    {
        Some(ChunkTask { chunk })
    }

    /// The task that runs the end-of-file callback, which leaves the context
    /// with it; `None` when no callback is registered or it was handed out
    /// already.
    pub fn make_eof_task(&mut self) -> (task: Option<EofTask<E>>)
        ensures
            Self::eof_taken(*old(self), *final(self), task),
    {
        match self.on_eof.take() {
            Some(callback) => Some(EofTask { callback }),
            None => None,
        }
    }

    /// Runs a chunk task: keeps the chunk and answers `None`, or, when a
    /// callback is registered, leaves the bytes alone and answers the chunk
    /// for it.
    pub fn run_chunk_task(&mut self, task: ChunkTask) -> (handed: Option<Vec<u8>>)
        requires
            old(self).stored().len() + task.chunk@.len() <= usize::MAX,
        ensures
            Self::chunk_ran(*old(self), *final(self), task.chunk@, handed),
    {
        match &self.on_chunk {
            ChunkCallback::Accumulate => {
                self.push_bytes(task.chunk.as_slice());
                None
            },
            ChunkCallback::Custom(_) => Some(task.chunk),
        }
    }

    /// The registered chunk callback, if one replaced the default.
    pub fn chunk_callback_ref(&self) -> (cb: Option<&C>)
        ensures
            match self.chunk_callback() {
                ChunkCallback::Accumulate => cb is None,
                ChunkCallback::Custom(f) => cb == Some(&f),
            },
    {
        match &self.on_chunk {
            ChunkCallback::Accumulate => None,
            ChunkCallback::Custom(f) => Some(f),
        }
    }
}

/// The end-of-file callback runs at most once: once the end-of-file task has
/// been asked for, asking again gives nothing, and a registered callback is
/// handed out the first time.
pub proof fn law_eof_callback_fires_once<C, E>(
    c0: FileReadContext<C, E>,
    c1: FileReadContext<C, E>,
    c2: FileReadContext<C, E>,
    first: Option<EofTask<E>>,
    second: Option<EofTask<E>>,
)
    requires
        FileReadContext::eof_taken(c0, c1, first),
        FileReadContext::eof_taken(c1, c2, second),
    ensures
        c0.eof_callback() is Some ==> first is Some,
        second is None,
{
}

/// A context whose chunk callback was never replaced keeps every chunk, in
/// the order the tasks run, and hands none back.
pub proof fn law_default_chunks_accumulate<C, E>(
    chunk_size: usize,
    c0: FileReadContext<C, E>,
    c1: FileReadContext<C, E>,
    c2: FileReadContext<C, E>,
    a: Seq<u8>,
    b: Seq<u8>,
    ha: Option<Vec<u8>>,
    hb: Option<Vec<u8>>,
)
    requires
        FileReadContext::is_fresh(c0, chunk_size),
        FileReadContext::chunk_ran(c0, c1, a, ha),
        FileReadContext::chunk_ran(c1, c2, b, hb),
    ensures
        c2.stored() == a + b,
        ha is None,
        hb is None,
{
    assert(c1.stored() =~= a);
}

/// The prefix of a run is a run.
proof fn lemma_run_prefix<C, E>(cs: Seq<FileReadContext<C, E>>, calls: Seq<ContextCall<C, E>>)
    requires
        FileReadContext::run(cs, calls),
        calls.len() > 0,
    ensures
        FileReadContext::run(cs.drop_last(), calls.drop_last()),
        FileReadContext::step(cs[calls.len() - 1], cs[calls.len() as int], calls.last()),
{
    let cp = cs.drop_last();
    let kp = calls.drop_last();
    assert forall|i: int| 0 <= i < kp.len() implies FileReadContext::step(
        cp[i],
        cp[i + 1],
        #[trigger] kp[i],
    ) by {
        assert(FileReadContext::step(cs[i], cs[i + 1], calls[i]));
    }
    assert(FileReadContext::step(cs[calls.len() - 1], cs[calls.len() as int], calls[calls.len() - 1]));
}

/// After `on_eof(f)` at call `k`, the context holds `f` through every later
/// call up to `j` that neither registers another end-of-file callback nor
/// asks for the end-of-file task.
proof fn lemma_eof_slot_holds<C, E>(
    cs: Seq<FileReadContext<C, E>>,
    calls: Seq<ContextCall<C, E>>,
    k: int,
    f: E,
    j: int,
)
    requires
        FileReadContext::run(cs, calls),
        0 <= k < j < cs.len(),
        calls[k] == ContextCall::<C, E>::OnEof(f),
        forall|m: int|
            k < m < j ==> !(#[trigger] calls[m] is OnEof) && !(calls[m] is MakeEofTask),
    ensures
        cs[j].eof_callback() == Some(f),
    decreases j - k,
{
    assert(FileReadContext::step(cs[j - 1], cs[j], calls[j - 1]));
    if j > k + 1 {
        lemma_eof_slot_holds(cs, calls, k, f, j - 1);
    }
}

/// After `on_eof(f)`, the next end-of-file task asked for calls `f`, as long
/// as no other `on_eof` comes between; a callback registered before is
/// dropped without being called.
pub proof fn law_next_eof_task_calls_registered<C, E>(
    cs: Seq<FileReadContext<C, E>>,
    calls: Seq<ContextCall<C, E>>,
    k: int,
    f: E,
    m: int,
)
    requires
        FileReadContext::run(cs, calls),
        0 <= k < m < calls.len(),
        calls[k] == ContextCall::<C, E>::OnEof(f),
        calls[m] is MakeEofTask,
        forall|j: int|
            k < j < m ==> !(#[trigger] calls[j] is OnEof) && !(calls[j] is MakeEofTask),
    ensures
        calls[m]->MakeEofTask_0 == Some(EofTask { callback: f }),
        cs[m + 1].eof_callback() is None,
{
    lemma_eof_slot_holds(cs, calls, k, f, m);
    assert(FileReadContext::step(cs[m], cs[m + 1], calls[m]));
}

/// Whatever calls are made on a context, its chunk size stays the one it
/// was made with.
pub proof fn law_chunk_size_constant<C, E>(
    cs: Seq<FileReadContext<C, E>>,
    calls: Seq<ContextCall<C, E>>,
)
    requires
        FileReadContext::run(cs, calls),
    ensures
        forall|i: int|
            0 <= i < cs.len() ==> #[trigger] cs[i].configured_chunk_size()
                == cs[0].configured_chunk_size(),
    decreases calls.len(),
{
    if calls.len() > 0 {
        lemma_run_prefix(cs, calls);
        law_chunk_size_constant(cs.drop_last(), calls.drop_last());
        assert forall|i: int| 0 <= i < cs.len() implies #[trigger] cs[i].configured_chunk_size()
            == cs[0].configured_chunk_size() by {
            if i < calls.len() {
                assert(cs.drop_last()[i] == cs[i]);
            } else {
                assert(cs.drop_last()[i - 1] == cs[i - 1]);
            }
        }
    }
}

/// Whatever calls are made on a context, it holds what it held before, then
/// every byte pushed and every chunk kept by the default callback, in call
/// order; from a new context, that is what `take` answers.
pub proof fn law_take_returns_all_kept<C, E>(
    cs: Seq<FileReadContext<C, E>>,
    calls: Seq<ContextCall<C, E>>,
)
    requires
        FileReadContext::run(cs, calls),
    ensures
        cs.last().stored() == cs[0].stored() + kept_bytes(calls),
        FileReadContext::is_fresh(cs[0], cs[0].configured_chunk_size()) ==> cs.last().stored()
            == kept_bytes(calls),
    decreases calls.len(),
{
    if calls.len() == 0 {
        assert(cs[0].stored() + kept_bytes(calls) =~= cs[0].stored());
    } else {
        lemma_run_prefix(cs, calls);
        law_take_returns_all_kept(cs.drop_last(), calls.drop_last());
        assert(cs.drop_last().last() == cs[calls.len() - 1]);
        assert(cs.last().stored() =~= cs[0].stored() + kept_bytes(calls));
    }
    if FileReadContext::is_fresh(cs[0], cs[0].configured_chunk_size()) {
        assert(cs[0].stored() + kept_bytes(calls) =~= kept_bytes(calls));
    }
}

/// After `on_chunk(f)`, and while no other `on_chunk` follows, `f` stays the
/// chunk callback: every chunk task that runs hands its chunk to `f` and
/// leaves the bytes as they were.
pub proof fn law_custom_callback_gets_later_chunks<C, E>(
    cs: Seq<FileReadContext<C, E>>,
    calls: Seq<ContextCall<C, E>>,
    k: int,
    f: C,
)
    requires
        FileReadContext::run(cs, calls),
        0 <= k < calls.len(),
        calls[k] == ContextCall::<C, E>::OnChunk(f),
        forall|j: int| k < j < calls.len() ==> !(#[trigger] calls[j] is OnChunk),
    ensures
        forall|j: int| k < j < cs.len() ==> #[trigger] cs[j].chunk_callback() == ChunkCallback::<C>::Custom(f),
        forall|j: int|
            k < j < calls.len() ==> match #[trigger] calls[j] {
                ContextCall::RunChunkTask(chunk, handed) => {
                    &&& handed matches Some(v) && v@ == chunk
                    &&& cs[j + 1].stored() == cs[j].stored()
                },
                _ => true,
            },
    decreases calls.len(),
{
    let n = calls.len() as int;
    if k < n - 1 {
        lemma_run_prefix(cs, calls);
        let cp = cs.drop_last();
        let kp = calls.drop_last();
        assert forall|j: int| k < j < kp.len() implies !(#[trigger] kp[j] is OnChunk) by {
            assert(kp[j] == calls[j]);
        }
        law_custom_callback_gets_later_chunks(cp, kp, k, f);
        assert(cp[n - 1] == cs[n - 1]);
        assert(cs[n - 1].chunk_callback() == ChunkCallback::<C>::Custom(f));
        assert(!(calls[n - 1] is OnChunk));
        assert forall|j: int| k < j < cs.len() implies #[trigger] cs[j].chunk_callback()
            == ChunkCallback::<C>::Custom(f) by {
            if j < n {
                assert(cp[j] == cs[j]);
            }
        }
        assert forall|j: int| k < j < calls.len() implies match #[trigger] calls[j] {
            ContextCall::RunChunkTask(chunk, handed) => {
                &&& handed matches Some(v) && v@ == chunk
                &&& cs[j + 1].stored() == cs[j].stored()
            },
            _ => true,
        } by {
            if j < n - 1 {
                assert(kp[j] == calls[j]);
                assert(cp[j] == cs[j]);
                assert(cp[j + 1] == cs[j + 1]);
            }
        }
    } else {
        assert(FileReadContext::step(cs[k], cs[k + 1], calls[k]));
    }
}

} // verus!
