use vstd::prelude::*;

use std::collections::HashMap;

use crate::handler::{Action, Interest};

verus! {

broadcast use vstd::std_specs::hash::group_hash_axioms;

/// The tasks that `results` hand to the executor, in order.
pub open spec fn tasks_of<T>(results: Seq<(i32, Action<T>)>) -> Seq<T>
    decreases results.len(),
{
    if results.len() == 0 {
        Seq::empty()
    } else {
        let rest = tasks_of(results.drop_last());
        match results.last().1.task() {
            Some(t) => rest.push(t),
            None => rest,
        }
    }
}

/// The descriptors whose handlers asked, in `results`, to be dropped.
pub open spec fn stopped_fds<T>(results: Seq<(i32, Action<T>)>) -> Set<i32> {
    Set::new(|fd: i32| exists|i: int| 0 <= i < results.len() && #[trigger] results[i].0 == fd && results[i].1.stops())
}

/// `after` is the registry `before` once a round with `results` is settled:
/// the descriptors whose handlers stopped are gone, the others keep their
/// entries.
pub open spec fn settled<H, T>(
    before: Map<i32, (H, Interest)>,
    after: Map<i32, (H, Interest)>,
    results: Seq<(i32, Action<T>)>,
) -> bool {
    after == before.remove_keys(stopped_fds(results))
}

/// A change made to a registry between polls.
pub enum RegistryCall<H, T> {
    /// `register` of a descriptor with its handler and interest.
    Register(i32, H, Interest),
    /// `settle` of a round with these results.
    Settle(Seq<(i32, Action<T>)>),
}

/// `after` is the registry `before` once `call` was made.
pub open spec fn registry_step<H, T>(
    before: Map<i32, (H, Interest)>,
    after: Map<i32, (H, Interest)>,
    call: RegistryCall<H, T>,
) -> bool {
    match call {
        RegistryCall::Register(fd, handler, interest) => after == before.insert(fd, (handler, interest)),
        RegistryCall::Settle(results) => settled(before, after, results),
    }
}

/// `ms` are the registries a reactor goes through while `calls` are made,
/// one after the other.
pub open spec fn registry_run<H, T>(
    ms: Seq<Map<i32, (H, Interest)>>,
    calls: Seq<RegistryCall<H, T>>,
) -> bool {
    &&& ms.len() == calls.len() + 1
    &&& forall|i: int| 0 <= i < calls.len() ==> registry_step(ms[i], ms[i + 1], #[trigger] calls[i])
}

/// A descriptor whose handler stopped in some round is watched by no later
/// registry, so its handler is never run again, until the descriptor is
/// registered anew.
pub proof fn law_stopped_descriptor_stays_gone<H, T>(
    ms: Seq<Map<i32, (H, Interest)>>,
    calls: Seq<RegistryCall<H, T>>,
    k: int,
    fd: i32,
)
    requires
        registry_run(ms, calls),
        0 <= k < calls.len(),
        calls[k] matches RegistryCall::Settle(results) && stopped_fds(results).contains(fd),
        forall|j: int|
            k < j < calls.len() ==> !(#[trigger] calls[j] matches RegistryCall::Register(g, _, _)
                && g == fd),
    ensures
        forall|j: int| k < j < ms.len() ==> !(#[trigger] ms[j]).contains_key(fd),
    decreases calls.len(),
{
    let n = calls.len() as int;
    assert(registry_step(ms[n - 1], ms[n], calls[n - 1]));
    if k < n - 1 {
        let mp = ms.drop_last();
        let cp = calls.drop_last();
        assert forall|i: int| 0 <= i < cp.len() implies registry_step(
            mp[i],
            mp[i + 1],
            #[trigger] cp[i],
        ) by {
            assert(registry_step(ms[i], ms[i + 1], calls[i]));
        }
        assert forall|j: int| k < j < cp.len() implies !(#[trigger] cp[j] matches RegistryCall::Register(
            g,
            _,
            _,
        ) && g == fd) by {
            assert(cp[j] == calls[j]);
        }
        law_stopped_descriptor_stays_gone(mp, cp, k, fd);
        assert(mp[n - 1] == ms[n - 1]);
        assert(!ms[n - 1].contains_key(fd));
        assert forall|j: int| k < j < ms.len() implies !(#[trigger] ms[j]).contains_key(fd) by {
            if j < n {
                assert(mp[j] == ms[j]);
            }
        }
    } else {
        assert(registry_step(ms[k], ms[k + 1], calls[k]));
    }
}

/// A descriptor stays registered, with the same handler and interest, from
/// call `k` up to call `j`, through every round in which its handler did not
/// stop and as long as it is not registered anew.
pub proof fn law_running_descriptor_stays_registered<H, T>(
    ms: Seq<Map<i32, (H, Interest)>>,
    calls: Seq<RegistryCall<H, T>>,
    k: int,
    j: int,
    fd: i32,
)
    requires
        registry_run(ms, calls),
        0 <= k <= j < ms.len(),
        ms[k].contains_key(fd),
        forall|m: int|
            k <= m < j ==> !(#[trigger] calls[m] matches RegistryCall::Register(g, _, _) && g == fd)
                && !(calls[m] matches RegistryCall::Settle(results) && stopped_fds(results).contains(fd)),
    ensures
        ms[j].contains_key(fd),
        ms[j][fd] == ms[k][fd],
    decreases j - k,
{
    if j > k {
        law_running_descriptor_stays_registered(ms, calls, k, j - 1, fd);
        assert(registry_step(ms[j - 1], ms[j], calls[j - 1]));
        assert(!(calls[j - 1] matches RegistryCall::Register(g, _, _) && g == fd));
    }
}

/// The descriptors a poll round handles, out of the `ready` ones a poll
/// reported: each registered one, once, in the order first reported.
pub open spec fn round_of(registered: Set<i32>, ready: Seq<i32>) -> Seq<i32>
    decreases ready.len(),
{
    if ready.len() == 0 {
        Seq::empty()
    } else {
        let prev = round_of(registered, ready.drop_last());
        let fd = ready.last();
        if registered.contains(fd) && !prev.contains(fd) {
            prev.push(fd)
        } else {
            prev
        }
    }
}

/// A round holds registered descriptors only, each once.
pub proof fn lemma_round_of_distinct_registered(registered: Set<i32>, ready: Seq<i32>)
    ensures
        round_of(registered, ready).no_duplicates(),
        forall|i: int|
            0 <= i < round_of(registered, ready).len() ==> registered.contains(
                #[trigger] round_of(registered, ready)[i],
            ),
    decreases ready.len(),
{
    if ready.len() > 0 {
        lemma_round_of_distinct_registered(registered, ready.drop_last());
    }
}

/// The tasks of a round are the tasks the actions carry, in order, one for
/// each action that carries one; a result appended to a round appends its
/// task, if any, to the tasks.
pub proof fn law_tasks_one_per_carrying_action<T>(
    results: Seq<(i32, Action<T>)>,
    more: (i32, Action<T>),
)
    ensures
        tasks_of(results) == results.filter_map(|r: (i32, Action<T>)| r.1.task()),
        tasks_of(results.push(more)) == match more.1.task() {
            Some(t) => tasks_of(results).push(t),
            None => tasks_of(results),
        },
    decreases results.len(),
{
    if results.len() > 0 {
        law_tasks_one_per_carrying_action(results.drop_last(), more);
    }
    assert(results.push(more).drop_last() =~= results);
    let f = |r: (i32, Action<T>)| r.1.task();
    if results.len() > 0 {
        match results.last().1.task() {
            Some(t) => assert(tasks_of(results) =~= results.filter_map(f)),
            None => {},
        }
    }
}

/// A round handles every registered descriptor the poll reported ready and
/// nothing else: each descriptor of the round was reported ready and is
/// registered.
pub proof fn law_round_covers_ready(registered: Set<i32>, ready: Seq<i32>)
    ensures
        forall|i: int|
            0 <= i < ready.len() && registered.contains(#[trigger] ready[i]) ==> round_of(
                registered,
                ready,
            ).contains(ready[i]),
        forall|x: i32|
            #[trigger] round_of(registered, ready).contains(x) ==> ready.contains(x)
                && registered.contains(x),
    decreases ready.len(),
{
    if ready.len() > 0 {
        let rp = ready.drop_last();
        law_round_covers_ready(registered, rp);
        let prev = round_of(registered, rp);
        let round = round_of(registered, ready);
        assert forall|i: int|
            0 <= i < ready.len() && registered.contains(#[trigger] ready[i]) implies round.contains(
            ready[i],
        ) by {
            if i < ready.len() - 1 {
                assert(rp[i] == ready[i]);
                assert(prev.contains(rp[i]));
                let j = choose|j: int| 0 <= j < prev.len() && prev[j] == rp[i];
                if round != prev {
                    assert(round[j] == prev[j]);
                }
            } else {
                if !prev.contains(ready.last()) {
                    assert(round[round.len() - 1] == ready.last());
                }
            }
        }
        assert forall|x: i32| #[trigger] round.contains(x) implies ready.contains(x)
            && registered.contains(x) by {
            let j = choose|j: int| 0 <= j < round.len() && round[j] == x;
            if j < prev.len() {
                assert(prev[j] == x);
                assert(prev.contains(x));
                let m = choose|m: int| 0 <= m < rp.len() && rp[m] == x;
                assert(ready[m] == x);
            } else {
                assert(ready[ready.len() - 1] == x);
            }
        }
    }
}

/// What the reactor does with one action: the task to hand to the
/// executor, if any, and whether the descriptor is dropped.
pub fn dispatch<T>(action: Action<T>) -> (r: (Option<T>, bool))
    ensures
        r.0 == action.task(),
        r.1 == action.stops(),
{
    match action {
        Action::Stop => (None, true),
        Action::Continue => (None, false),
        Action::Task(task) => (Some(task), false),
        Action::TaskAndStop(task) => (Some(task), true),
    }
}

/// The descriptors a reactor watches, each with its handler and interest.
pub struct Registry<H> {
    fds: HashMap<i32, (H, Interest)>,
}

impl<H> View for Registry<H> {
    type V = Map<i32, (H, Interest)>;

    closed spec fn view(&self) -> Map<i32, (H, Interest)> {
        self.fds@
    }
}

impl<H> Registry<H> {
    /// A registry that watches nothing.
    pub fn new() -> (r: Self)
        ensures
            r@ == Map::<i32, (H, Interest)>::empty(),
    {
        Registry { fds: HashMap::new() }
    }

    /// Watches `fd` with `handler` for `interest`, in place of whatever
    /// watched `fd` before.
    pub fn register(&mut self, fd: i32, handler: H, interest: Interest)
        ensures
            final(self)@ == old(self)@.insert(fd, (handler, interest)),
    {
        self.fds.insert(fd, (handler, interest));
    }

    /// Whether no descriptor is watched: the reactor loop ends then.
    pub fn is_empty(&self) -> (empty: bool)
        ensures
            empty == (self@.dom() == Set::<i32>::empty()),
    {
        let r = self.fds.is_empty();
        proof {
            if !r {
                let k = self@.dom().choose();
                assert(self@.dom().contains(k));
            }
        }
        r
    }

    /// The handler and interest that watch `fd`.
    pub fn get(&self, fd: i32) -> (entry: Option<&(H, Interest)>)
        ensures
            match entry {
                Some(e) => self@.contains_key(fd) && *e == self@[fd],
                None => !self@.contains_key(fd),
            },
    {
        self.fds.get(&fd)
    }

    /// Stops watching `fd`, and answers what watched it.
    pub fn remove(&mut self, fd: i32) -> (entry: (H, Interest))
        requires
            old(self)@.contains_key(fd),
        ensures
            entry == old(self)@[fd],
            final(self)@ == old(self)@.remove(fd),
    {
        match self.fds.remove(&fd) {
            Some(e) => e,
            None => vstd::pervasive::unreached(),
        }
    }

    /// Every watched descriptor, each once.
    pub fn fds(&self) -> (fds: Vec<i32>)
        ensures
            fds@.to_set() == self@.dom(),
            fds@.no_duplicates(),
    {
        let mut fds: Vec<i32> = Vec::new();
        for fd in it: self.fds.keys()
            invariant
                fds@ == it.seq().take(it.index()).unref(),
                it.seq().unref().to_set() == self@.dom(),
                it.seq().no_duplicates(),
                it.index() == it.seq().len() ==> fds@.to_set() == self@.dom() && fds@.no_duplicates(),
        {
            fds.push(*fd);
            proof {
                assert(fds@ =~= it.seq().take(it.index() + 1).unref());
                assert(it.index() + 1 == it.seq().len() ==> fds@ =~= it.seq().unref());
            }
        }
        fds
    }

    /// The descriptors to handle in a round, out of those a poll reported
    /// ready: each registered one, once, in the order first reported. They
    /// are what `settle` takes.
    pub fn ready_round(&self, ready: &Vec<i32>) -> (round: Vec<i32>)
        ensures
            round@ == round_of(self@.dom(), ready@),
            forall|i: int|
                0 <= i < ready@.len() && self@.contains_key(#[trigger] ready@[i]) ==> round@.contains(
                    ready@[i],
                ),
            forall|x: i32| #[trigger] round@.contains(x) ==> ready@.contains(x),
            round@.no_duplicates(),
            forall|i: int| 0 <= i < round@.len() ==> self@.contains_key(#[trigger] round@[i]),
    {
        let mut round: Vec<i32> = Vec::new();
        let mut k: usize = 0;
        while k < ready.len()
            invariant
                k <= ready@.len(),
                round@ == round_of(self@.dom(), ready@.take(k as int)),
            decreases ready@.len() - k,
        {
            let fd = ready[k];
            let mut seen = false;
            let mut j: usize = 0;
            while j < round.len()
                invariant
                    j <= round@.len(),
                    seen == round@.take(j as int).contains(fd),
                decreases round@.len() - j,
            {
                if round[j] == fd {
                    seen = true;
                }
                proof {
                    let before = round@.take(j as int);
                    let after = round@.take(j + 1);
                    assert(after =~= before.push(round@[j as int]));
                    assert(after[j as int] == round@[j as int]);
                    if after.contains(fd) {
                        let m = choose|m: int| 0 <= m < after.len() && after[m] == fd;
                        if m < j {
                            assert(before[m] == fd);
                        }
                    }
                    if before.contains(fd) {
                        let m = choose|m: int| 0 <= m < before.len() && before[m] == fd;
                        assert(after[m] == fd);
                    }
                }
                j = j + 1;
            }
            proof {
                assert(round@.take(j as int) =~= round@);
                assert(ready@.take(k + 1).drop_last() =~= ready@.take(k as int));
            }
            if !seen && self.fds.contains_key(&fd) {
                round.push(fd);
            }
            k = k + 1;
        }
        proof {
            assert(ready@.take(ready@.len() as int) =~= ready@);
            lemma_round_of_distinct_registered(self@.dom(), ready@);
            law_round_covers_ready(self@.dom(), ready@);
        }
        round
    }

    /// Settles one round of the reactor: hands back, in order, the tasks the
    /// handlers asked to run, and drops every descriptor whose handler asked
    /// to stop.
    pub fn settle<T>(&mut self, results: Vec<(i32, Action<T>)>) -> (tasks: Vec<T>)
        requires
            forall|i: int| 0 <= i < results@.len() ==> old(self)@.contains_key(#[trigger] results@[i].0),
            forall|i: int, j: int|
                0 <= i < j < results@.len() ==> #[trigger] results@[i].0 != #[trigger] results@[j].0,
        ensures
            tasks@ == tasks_of(results@),
            tasks@ == results@.filter_map(|r: (i32, Action<T>)| r.1.task()),
            settled(old(self)@, final(self)@, results@),
    {
        let ghost all = results@;
        let mut tasks: Vec<T> = Vec::new();
        for item in it: results
            invariant
                it.seq() == all,
                tasks@ == tasks_of(all.take(it.index())),
                self@ == old(self)@.remove_keys(stopped_fds(all.take(it.index()))),
                forall|i: int| 0 <= i < all.len() ==> old(self)@.contains_key(#[trigger] all[i].0),
                forall|i: int, j: int|
                    0 <= i < j < all.len() ==> #[trigger] all[i].0 != #[trigger] all[j].0,
        {
            let ghost k = it.index();
            let ghost pre = all.take(k);
            let ghost post = all.take(k + 1);
            let ghost before = self@;
            assert(item == all[k]);
            let (fd, action) = item;
            proof {
                assert(!stopped_fds(pre).contains(fd)) by {
                    if stopped_fds(pre).contains(fd) {
                        let i = choose|i: int| 0 <= i < pre.len() && #[trigger] pre[i].0 == fd && pre[i].1.stops();
                        assert(all[i].0 == all[k].0);
                    }
                }
                assert(old(self)@.contains_key(all[k].0));
            }
            let (task, stop) = dispatch(action);
            match task {
                Some(t) => tasks.push(t),
                None => {},
            }
            if stop {
                self.remove(fd);
            }
            proof {
                assert(post.drop_last() =~= pre);
                assert(post.last() == all[k]);
                assert forall|f: i32| #[trigger] stopped_fds(post).contains(f) <==> (stopped_fds(pre).contains(f) || (stop && f == fd)) by {
                    if stopped_fds(post).contains(f) {
                        let i = choose|i: int| 0 <= i < post.len() && #[trigger] post[i].0 == f && post[i].1.stops();
                        if i < k {
                            assert(pre[i].0 == f);
                        }
                    }
                    if stopped_fds(pre).contains(f) {
                        let i = choose|i: int| 0 <= i < pre.len() && #[trigger] pre[i].0 == f && pre[i].1.stops();
                        assert(post[i].0 == f);
                    }
                    if stop && f == fd {
                        assert(post[k].0 == f);
                    }
                }
                assert(self@ =~= old(self)@.remove_keys(stopped_fds(post)));
            }
        }
        proof {
            assert(all.take(all.len() as int) =~= all);
            law_tasks_one_per_carrying_action(all, all[0]);
        }
        tasks
    }
}

} // verus!
