//! The decisions of the dispatcher: the life of one pooled connection while
//! a command (or a transaction) runs, the reassembly of a pipeline's results
//! in input order, and the check that a transaction may be sent at all.
use vstd::prelude::*;
use crate::command::Command;
use crate::error::{ApiError, StoreError};
use crate::reply::Reply;
use crate::response::{transaction_response_of, TransactionApiResponse, TransactionApiResponseType};
use vstd::pervasive::VecAdditionalExecFns;

verus! {

/// Where one execution stands.
#[derive(Debug, PartialEq)]
pub enum Execution {
    /// Nothing asked yet, nothing held.
    Start,
    /// A connection was asked of the pool.
    Waiting,
    /// A connection is held and the command went out on it.
    Sent,
    /// Finished, with the connection given back; the outcome.
    Done(Result<Reply, ApiError>),
}

/// What the outside world reports to an execution.
#[derive(Debug, PartialEq)]
pub enum Event {
    /// Start the execution.
    Begin,
    /// The pool handed over a connection.
    Acquired,
    /// The pool could not hand over a connection.
    AcquireFailed(StoreError),
    /// The store answered.
    Replied(Reply),
    /// The exchange with the store failed, or the store refused.
    Failed(StoreError),
}

/// What the execution asks the outside world to do next.
#[derive(Debug, PartialEq)]
pub enum Action {
    /// Ask the pool for a connection.
    Acquire,
    /// Send the command on the held connection and await one reply.
    Send,
    /// Give the held connection back to the pool.
    Release,
    /// Nothing.
    Idle,
}

/// One step of an execution: the next state, and the action to perform.
/// A connection that arrives when none is awaited is given back at once.
pub open spec fn next_step(s: Execution, e: Event) -> (Execution, Action) {
    match (s, e) {
        (Execution::Start, Event::Begin) => (Execution::Waiting, Action::Acquire),
        (Execution::Waiting, Event::Acquired) => (Execution::Sent, Action::Send),
        (Execution::Waiting, Event::AcquireFailed(err)) => (
            Execution::Done(Err(ApiError::RedisError(err))),
            Action::Idle,
        ),
        (Execution::Sent, Event::Replied(r)) => (Execution::Done(Ok(r)), Action::Release),
        (Execution::Sent, Event::Failed(err)) => (
            Execution::Done(Err(ApiError::RedisError(err))),
            Action::Release,
        ),
        (s, Event::Acquired) => (s, Action::Release),
        (s, _) => (s, Action::Idle),
    }
}

/// The number of pooled connections that the execution holds: one while
/// the command is out, none otherwise.
pub open spec fn held(s: Execution) -> int {
    if s is Sent {
        1
    } else {
        0
    }
}

/// How a step changes the pool's count of checked-out connections: a
/// connection handed over adds one, a release takes one away.
pub open spec fn checkout_change(e: Event, a: Action) -> int {
    (if e is Acquired {
        1int
    } else {
        0int
    }) - (if a is Release {
        1int
    } else {
        0int
    })
}

/// The state after the events `es`, from `s`.
pub open spec fn run(s: Execution, es: Seq<Event>) -> Execution
    decreases es.len(),
{
    if es.len() == 0 {
        s
    } else {
        next_step(run(s, es.drop_last()), es.last()).0
    }
}

/// The change of the pool's count of checked-out connections over the
/// events `es`, from `s`.
pub open spec fn net_checkouts(s: Execution, es: Seq<Event>) -> int
    decreases es.len(),
{
    if es.len() == 0 {
        0
    } else {
        let before = run(s, es.drop_last());
        net_checkouts(s, es.drop_last()) + checkout_change(es.last(), next_step(before, es.last()).1)
    }
}

impl Execution {
    /// A new execution.
    pub fn new() -> (r: Execution)
        ensures
            r is Start,
    {
        Execution::Start
    }

    /// Takes one event; see `next_step`.
    pub fn step(self, event: Event) -> (r: (Execution, Action))
        ensures
            r == next_step(self, event),
    {
        match (self, event) {
            (Execution::Start, Event::Begin) => (Execution::Waiting, Action::Acquire),
            (Execution::Waiting, Event::Acquired) => (Execution::Sent, Action::Send),
            (Execution::Waiting, Event::AcquireFailed(err)) => (
                Execution::Done(Err(ApiError::RedisError(err))),
                Action::Idle,
            ),
            (Execution::Sent, Event::Replied(r)) => (Execution::Done(Ok(r)), Action::Release),
            (Execution::Sent, Event::Failed(err)) => (
                Execution::Done(Err(ApiError::RedisError(err))),
                Action::Release,
            ),
            (s, Event::Acquired) => (s, Action::Release),
            (s, _) => (s, Action::Idle),
        }
    }

    /// Whether the execution has finished.
    pub fn is_done(&self) -> (b: bool)
        ensures
            b == (*self is Done),
    {
        matches!(self, Execution::Done(_))
    }

    /// The outcome of a finished execution.
    pub fn into_outcome(self) -> (r: Result<Reply, ApiError>)
        requires
            self is Done,
        ensures
            self == Execution::Done(r),
    {
        match self {
            Execution::Done(r) => r,
            _ => Err(ApiError::NoCommand),
        }
    }
}

/// Each step keeps the pool's count in line with what the execution holds.
pub proof fn lemma_step_checkouts(s: Execution, e: Event)
    ensures
        held(next_step(s, e).0) == held(s) + checkout_change(e, next_step(s, e).1),
{
}

/// Whatever the pool and the store report, and in whatever order, the
/// connections checked out for an execution are exactly the one it holds
/// while its command is out; once it is done, the pool is back where it
/// was, and the outcome is a reply or a store error.
pub proof fn lemma_execution_returns_connection(es: Seq<Event>)
    ensures
        net_checkouts(Execution::Start, es) == held(run(Execution::Start, es)),
        run(Execution::Start, es) is Done ==> net_checkouts(Execution::Start, es) == 0,
        run(Execution::Start, es) matches Execution::Done(out) ==> (out is Ok || out matches Err(
            ApiError::RedisError(_),
        )),
    decreases es.len(),
{
    if es.len() > 0 {
        lemma_execution_returns_connection(es.drop_last());
        lemma_step_checkouts(run(Execution::Start, es.drop_last()), es.last());
    }
}

/// The results of a pipeline as they come in, in any order, each in the
/// slot of its command; and how many commands may be out at once.
pub struct PipelineRun {
    slots: Vec<Option<Result<Reply, ApiError>>>,
    launched: usize,
    completed: usize,
    limit: usize,
}

/// The number of filled slots.
pub open spec fn filled(slots: Seq<Option<Result<Reply, ApiError>>>) -> nat
    decreases slots.len(),
{
    if slots.len() == 0 {
        0
    } else {
        filled(slots.drop_last()) + if slots.last() is Some {
            1nat
        } else {
            0nat
        }
    }
}

proof fn lemma_filled_update(
    slots: Seq<Option<Result<Reply, ApiError>>>,
    i: int,
    v: Result<Reply, ApiError>,
)
    requires
        0 <= i < slots.len(),
        slots[i] is None,
    ensures
        filled(slots.update(i, Some(v))) == filled(slots) + 1,
    decreases slots.len(),
{
    let u = slots.update(i, Some(v));
    if i == slots.len() - 1 {
        assert(u.drop_last() =~= slots.drop_last());
    } else {
        lemma_filled_update(slots.drop_last(), i, v);
        assert(u.drop_last() =~= slots.drop_last().update(i, Some(v)));
    }
}

proof fn lemma_filled_bound(slots: Seq<Option<Result<Reply, ApiError>>>)
    ensures
        filled(slots) <= slots.len(),
        filled(slots) == slots.len() ==> forall|i: int|
            0 <= i < slots.len() ==> (#[trigger] slots[i]) is Some,
    decreases slots.len(),
{
    if slots.len() > 0 {
        lemma_filled_bound(slots.drop_last());
        if filled(slots) == slots.len() {
            assert forall|i: int| 0 <= i < slots.len() implies (#[trigger] slots[i]) is Some by {
                if i < slots.len() - 1 {
                    assert(slots[i] == slots.drop_last()[i]);
                }
            }
        }
    }
}

proof fn lemma_filled_none_after(slots: Seq<Option<Result<Reply, ApiError>>>, k: int)
    requires
        0 <= k <= slots.len(),
        forall|i: int| k <= i < slots.len() ==> (#[trigger] slots[i]) is None,
    ensures
        filled(slots) <= k,
    decreases slots.len(),
{
    if slots.len() > k {
        lemma_filled_none_after(slots.drop_last(), k);
    } else {
        lemma_filled_bound(slots);
    }
}

impl PipelineRun {
    /// The slot of each command: its result once it came in.
    pub closed spec fn slots(&self) -> Seq<Option<Result<Reply, ApiError>>> {
        self.slots@
    }

    /// How many commands were launched: always the first ones.
    pub closed spec fn launched(&self) -> nat {
        self.launched as nat
    }

    /// How many results came in.
    pub closed spec fn completed(&self) -> nat {
        self.completed as nat
    }

    /// The most commands out at once.
    pub closed spec fn limit(&self) -> nat {
        self.limit as nat
    }

    pub closed spec fn wf(&self) -> bool {
        &&& self.launched <= self.slots@.len()
        &&& self.completed <= self.launched
        &&& self.launched - self.completed <= self.limit
        &&& self.limit > 0
        &&& self.completed == filled(self.slots@)
        &&& forall|i: int|
            self.launched <= i < self.slots@.len() ==> (#[trigger] self.slots@[i]) is None
    }

    /// A run of `n` commands with at most `limit` of them out at once.
    pub fn new(n: usize, limit: usize) -> (r: PipelineRun)
        requires
            limit > 0,
        ensures
            r.wf(),
            r.slots().len() == n,
            forall|i: int| 0 <= i < n ==> (#[trigger] r.slots()[i]) is None,
            r.launched() == 0,
            r.completed() == 0,
            r.limit() == limit,
    {
        let mut slots: Vec<Option<Result<Reply, ApiError>>> = Vec::new();
        let mut i: usize = 0;
        while i < n
            invariant
                i <= n,
                slots@.len() == i,
                forall|k: int| 0 <= k < i ==> (#[trigger] slots@[k]) is None,
                filled(slots@) == 0,
            decreases n - i,
        {
            let ghost before = slots@;
            slots.push(None);
            assert(slots@.drop_last() =~= before);
            i += 1;
        }
        PipelineRun { slots, launched: 0, completed: 0, limit }
    }

    /// The index of the next command to send, when there is one left and
    /// fewer than `limit` are out.
    pub fn next_launch(&mut self) -> (r: Option<usize>)
        requires
            old(self).wf(),
        ensures
            final(self).wf(),
            final(self).slots() == old(self).slots(),
            final(self).completed() == old(self).completed(),
            final(self).limit() == old(self).limit(),
            match r {
                Some(i) => i == old(self).launched() && final(self).launched() == i + 1,
                None => final(self).launched() == old(self).launched() && (old(self).launched()
                    == old(self).slots().len() || old(self).launched() - old(self).completed()
                    == old(self).limit()),
            },
    {
        if self.launched < self.slots.len() && self.launched - self.completed < self.limit {
            let i = self.launched;
            self.launched = self.launched + 1;
            Some(i)
        } else {
            None
        }
    }

    /// Records the result of command `index`, which was launched and had
    /// no result yet.
    pub fn complete(&mut self, index: usize, result: Result<Reply, ApiError>)
        requires
            old(self).wf(),
            index < old(self).launched(),
            old(self).slots()[index as int] is None,
        ensures
            final(self).wf(),
            final(self).slots() == old(self).slots().update(index as int, Some(result)),
            final(self).launched() == old(self).launched(),
            final(self).completed() == old(self).completed() + 1,
            final(self).limit() == old(self).limit(),
    {
        proof {
            lemma_filled_update(self.slots@, index as int, result);
            lemma_filled_none_after(
                self.slots@.update(index as int, Some(result)),
                self.launched as int,
            );
        }
        self.slots.set(index, Some(result));
        self.completed = self.completed + 1;
    }

    /// Whether every command's result came in.
    pub fn is_finished(&self) -> (b: bool)
        requires
            self.wf(),
        ensures
            b == (self.completed() == self.slots().len()),
            b ==> forall|i: int| 0 <= i < self.slots().len() ==> (#[trigger] self.slots()[i]) is Some,
    {
        proof {
            lemma_filled_bound(self.slots@);
        }
        self.completed == self.slots.len()
    }

    /// The results, in the order of the commands.
    pub fn into_results(self) -> (r: Vec<Result<Reply, ApiError>>)
        requires
            self.wf(),
            self.completed() == self.slots().len(),
        ensures
            r@.len() == self.slots().len(),
            forall|i: int| 0 <= i < r@.len() ==> Some(#[trigger] r@[i]) == self.slots()[i],
    {
        proof {
            lemma_filled_bound(self.slots@);
        }
        let ghost all = self.slots@;
        let mut slots = self.slots;
        let n = slots.len();
        let mut out: Vec<Result<Reply, ApiError>> = Vec::new();
        let mut i: usize = 0;
        while i < n
            invariant
                i <= n,
                n == all.len(),
                slots@.len() == n,
                out@.len() == i,
                forall|k: int| i <= k < n ==> slots@[k] == all[k],
                forall|k: int| 0 <= k < n ==> (#[trigger] all[k]) is Some,
                forall|k: int| 0 <= k < i ==> Some(#[trigger] out@[k]) == all[k],
            decreases n - i,
        {
            let mut taken: Option<Result<Reply, ApiError>> = None;
            slots.set_and_swap(i, &mut taken);
            assert(taken == all[i as int]);
            match taken {
                Some(x) => out.push(x),
                None => {
                    out.push(Err(ApiError::NoCommand));
                },
            }
            i += 1;
        }
        out
    }
}

/// The results that completions give, each `(index, result)` filling its
/// slot, from `slots`.
pub open spec fn fill(
    slots: Seq<Option<Result<Reply, ApiError>>>,
    done: Seq<(int, Result<Reply, ApiError>)>,
) -> Seq<Option<Result<Reply, ApiError>>>
    decreases done.len(),
{
    if done.len() == 0 {
        slots
    } else {
        let (i, r) = done.last();
        let prev = fill(slots, done.drop_last());
        if 0 <= i < prev.len() {
            prev.update(i, Some(r))
        } else {
            prev
        }
    }
}

/// Some completion fills slot `i`.
pub open spec fn has_completion(done: Seq<(int, Result<Reply, ApiError>)>, i: int) -> bool {
    exists|k: int| 0 <= k < done.len() && (#[trigger] done[k]).0 == i
}

/// The completions name distinct slots.
pub open spec fn distinct_indices(done: Seq<(int, Result<Reply, ApiError>)>) -> bool {
    forall|a: int, b: int| 0 <= a < b < done.len() ==> (#[trigger] done[a]).0 != (#[trigger] done[b]).0
}

proof fn lemma_fill_slot(
    slots: Seq<Option<Result<Reply, ApiError>>>,
    done: Seq<(int, Result<Reply, ApiError>)>,
    k: int,
)
    requires
        distinct_indices(done),
        0 <= k < done.len(),
        0 <= done[k].0 < slots.len(),
    ensures
        fill(slots, done)[done[k].0] == Some(done[k].1),
        fill(slots, done).len() == slots.len(),
    decreases done.len(),
{
    lemma_fill_len(slots, done);
    if k < done.len() - 1 {
        let prev = done.drop_last();
        assert(distinct_indices(prev)) by {
            assert forall|a: int, b: int| 0 <= a < b < prev.len() implies (#[trigger] prev[a]).0
                != (#[trigger] prev[b]).0 by {
                assert(prev[a] == done[a] && prev[b] == done[b]);
            }
        }
        assert(prev[k] == done[k]);
        lemma_fill_slot(slots, prev, k);
        assert(done[k].0 != done[done.len() - 1].0);
    }
}

proof fn lemma_fill_len(
    slots: Seq<Option<Result<Reply, ApiError>>>,
    done: Seq<(int, Result<Reply, ApiError>)>,
)
    ensures
        fill(slots, done).len() == slots.len(),
    decreases done.len(),
{
    if done.len() > 0 {
        lemma_fill_len(slots, done.drop_last());
    }
}

/// The order in which a pipeline's results come in does not matter: when
/// completions name distinct commands, each command's slot ends up with
/// its own result, and so two orders of the same completions give the same
/// results.
pub proof fn lemma_pipeline_order_independent(
    slots: Seq<Option<Result<Reply, ApiError>>>,
    first: Seq<(int, Result<Reply, ApiError>)>,
    second: Seq<(int, Result<Reply, ApiError>)>,
)
    requires
        distinct_indices(first),
        first.to_multiset() == second.to_multiset(),
        forall|k: int| 0 <= k < first.len() ==> 0 <= (#[trigger] first[k]).0 < slots.len(),
        forall|i: int| 0 <= i < slots.len() ==> #[trigger] has_completion(first, i),
    ensures
        fill(slots, first) == fill(slots, second),
        forall|k: int| 0 <= k < first.len() ==> fill(slots, first)[(#[trigger] first[k]).0] == Some(first[k].1),
{
    broadcast use vstd::seq_lib::group_to_multiset_ensures;

    lemma_fill_len(slots, first);
    lemma_fill_len(slots, second);
    assert(second.len() == first.len()) by {
        assert(first.to_multiset().len() == first.len());
        assert(second.to_multiset().len() == second.len());
    }
    assert(distinct_indices(second)) by {
        assert forall|a: int, b: int| 0 <= a < b < second.len() implies (#[trigger] second[a]).0
            != (#[trigger] second[b]).0 by {
            assert(second.to_multiset().count(second[a]) > 0);
            assert(first.contains(second[a]));
            assert(second.to_multiset().count(second[b]) > 0);
            assert(first.contains(second[b]));
            let ka = choose|k: int| 0 <= k < first.len() && first[k] == second[a];
            let kb = choose|k: int| 0 <= k < first.len() && first[k] == second[b];
            if second[a].0 == second[b].0 {
                assert(ka == kb);
                assert(second[a] == second[b]);
                assert(second.to_multiset().count(second[a]) >= 2) by {
                    lemma_count_two(second, a, b);
                }
                assert(first.to_multiset().count(second[a]) <= 1) by {
                    lemma_count_distinct(first, ka);
                }
            }
        }
    }
    assert forall|k: int| 0 <= k < first.len() implies fill(slots, first)[(#[trigger] first[k]).0]
        == Some(first[k].1) by {
        lemma_fill_slot(slots, first, k);
    }
    assert forall|i: int| 0 <= i < slots.len() implies fill(slots, first)[i] == fill(
        slots,
        second,
    )[i] by {
        assert(has_completion(first, i));
        let k = choose|k: int| 0 <= k < first.len() && (#[trigger] first[k]).0 == i;
        lemma_fill_slot(slots, first, k);
        assert(second.contains(first[k])) by {
            assert(first.to_multiset().count(first[k]) > 0);
        }
        let j = choose|j: int| 0 <= j < second.len() && second[j] == first[k];
        lemma_fill_slot(slots, second, j);
    }
    assert(fill(slots, first) =~= fill(slots, second));
}

proof fn lemma_count_two(s: Seq<(int, Result<Reply, ApiError>)>, a: int, b: int)
    requires
        0 <= a < b < s.len(),
        s[a] == s[b],
    ensures
        s.to_multiset().count(s[a]) >= 2,
    decreases s.len(),
{
    broadcast use vstd::seq_lib::group_to_multiset_ensures;

    let x = s[a];
    if b < s.len() - 1 {
        lemma_count_two(s.drop_last(), a, b);
        assert(s.drop_last().push(s.last()) =~= s);
        s.drop_last().to_multiset_ensures();
    } else {
        assert(s.drop_last().push(s.last()) =~= s);
        assert(s.drop_last().contains(x)) by {
            assert(s.drop_last()[a] == x);
        }
        assert(s.drop_last().to_multiset().count(x) >= 1);
    }
}

proof fn lemma_count_distinct(s: Seq<(int, Result<Reply, ApiError>)>, k: int)
    requires
        distinct_indices(s),
        0 <= k < s.len(),
    ensures
        s.to_multiset().count(s[k]) <= 1,
    decreases s.len(),
{
    broadcast use vstd::seq_lib::group_to_multiset_ensures;

    let x = s[k];
    let p = s.drop_last();
    assert(p.push(s.last()) =~= s);
    assert(distinct_indices(p)) by {
        assert forall|a: int, b: int| 0 <= a < b < p.len() implies (#[trigger] p[a]).0
            != (#[trigger] p[b]).0 by {
            assert(p[a] == s[a] && p[b] == s[b]);
        }
    }
    if k < s.len() - 1 {
        lemma_count_distinct(p, k);
        assert(s.last() != x) by {
            assert(s[s.len() - 1].0 != s[k].0);
        }
    } else {
        assert(!p.contains(x)) by {
            if p.contains(x) {
                let j = choose|j: int| 0 <= j < p.len() && p[j] == x;
                assert(s[j].0 != s[k].0);
            }
        }
    }
}

/// Whether every entry of a batch is a command.
pub open spec fn all_commands(entries: Seq<Result<Command, ApiError>>) -> bool {
    forall|i: int| 0 <= i < entries.len() ==> (#[trigger] entries[i]) is Ok
}

/// A transaction in which one entry is no command is refused as a whole:
/// not every entry is a command, so `plan_transaction` gives an error and
/// nothing of the transaction is sent (none of its valid commands takes
/// effect); and the response of a failed transaction is the single error
/// envelope, never a list.
pub proof fn lemma_invalid_entry_refuses_transaction(
    entries: Seq<Result<Command, ApiError>>,
    i: int,
    e: ApiError,
    resp: TransactionApiResponse,
    base64: bool,
)
    requires
        0 <= i < entries.len(),
        entries[i] is Err,
        transaction_response_of(Err(e), resp, base64),
    ensures
        !all_commands(entries),
        resp.0 matches TransactionApiResponseType::TransactionError(one) && one.wf(),
{
}

/// The commands of a transaction, in order, when every entry of the batch
/// is one; otherwise the first entry's error: the transaction is then
/// refused before anything is sent, so none of its commands takes effect.
pub fn plan_transaction(entries: Vec<Result<Command, ApiError>>) -> (r: Result<
    Vec<Command>,
    ApiError,
>)
    ensures
        r is Ok <==> all_commands(entries@),
        r matches Ok(cs) ==> cs@.len() == entries@.len() && forall|i: int|
            0 <= i < cs@.len() ==> entries@[i] == Ok::<Command, ApiError>(#[trigger] cs@[i]),
        r matches Err(e) ==> exists|i: int|
            0 <= i < entries@.len() && entries@[i] == Err::<Command, ApiError>(e),
{
    let ghost all = entries@;
    let mut pending = entries;
    let n = pending.len();
    let mut out: Vec<Command> = Vec::new();
    let mut i: usize = 0;
    while i < n
        invariant
            i <= n,
            n == all.len(),
            all == entries@,
            pending@.len() == n,
            out@.len() == i,
            forall|k: int| i <= k < n ==> pending@[k] == all[k],
            forall|k: int| 0 <= k < i ==> all[k] == Ok::<Command, ApiError>(#[trigger] out@[k]),
        decreases n - i,
    {
        let mut taken: Result<Command, ApiError> = Err(ApiError::NoCommand);
        pending.set_and_swap(i, &mut taken);
        assert(taken == all[i as int]);
        match taken {
            Ok(c) => out.push(c),
            Err(e) => {
                assert(all[i as int] == Err::<Command, ApiError>(e));
                assert(!all_commands(all)) by {
                    assert(all[i as int] is Err);
                }
                return Err(e);
            },
        }
        i += 1;
    }
    assert(all_commands(all)) by {
        assert forall|k: int| 0 <= k < n implies (#[trigger] all[k]) is Ok by {
            assert(all[k] == Ok::<Command, ApiError>(out@[k]));
        }
    }
    Ok(out)
}

} // verus!
