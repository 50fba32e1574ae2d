//! The download manager's state machine: a FIFO queue of pending tasks, a
//! bounded set of active downloads, and one cancel signal per active
//! download.  The surrounding runtime spawns a worker for each task this
//! machine hands out and reports back completions and cancellations; every
//! decision about the three collections is made here.
use vstd::prelude::*;

verus! {

use crate::text::chars_of;
use crate::text::eq_chars;

/// One user download request.  The id is caller-supplied and unique within
/// the manager for the lifetime of the task.
pub struct DownloadTask {
    pub id: String,
    pub url: String,
    pub directory: String,
    pub file_name: String,
    pub token: Option<String>,
}

/// The spec-level value of a task.
pub struct TaskModel {
    pub id: Seq<char>,
    pub url: Seq<char>,
    pub directory: Seq<char>,
    pub file_name: Seq<char>,
    pub token: Option<Seq<char>>,
}

pub open spec fn task_model(t: DownloadTask) -> TaskModel {
    TaskModel {
        id: t.id@,
        url: t.url@,
        directory: t.directory@,
        file_name: t.file_name@,
        token: match t.token {
            Some(s) => Some(s@),
            None => None,
        },
    }
}

/// The most downloads allowed to run at once.
pub const MAX_CONCURRENT: usize = 3;

/// The download manager's state: the pending queue, the ids of the active
/// workers, and the ids holding a cancel signal.  The active ids and the
/// signal ids coincide by construction.
pub struct DownloadManager {
    queue: Vec<DownloadTask>,
    active: Vec<String>,
    cancel_signals: Vec<String>,
}

impl DownloadManager {
    /// The pending tasks, oldest first.
    pub closed spec fn queue_models(self) -> Seq<TaskModel> {
        Seq::new(self.queue@.len(), |i: int| task_model(self.queue@[i]))
    }

    /// The ids of the pending tasks, oldest first.
    pub open spec fn queue_ids(self) -> Seq<Seq<char>> {
        Seq::new(self.queue_models().len(), |i: int| self.queue_models()[i].id)
    }

    /// The ids of the running workers, in spawn order.
    pub closed spec fn active_ids(self) -> Seq<Seq<char>> {
        Seq::new(self.active@.len(), |i: int| self.active@[i]@)
    }

    /// The ids holding a cancel signal.
    pub closed spec fn cancel_ids(self) -> Seq<Seq<char>> {
        Seq::new(self.cancel_signals@.len(), |i: int| self.cancel_signals@[i]@)
    }

    /// Is some id in a sequence of ids?
    pub open spec fn id_in(ids: Seq<Seq<char>>, id: Seq<char>) -> bool {
        exists|k: int| 0 <= k < ids.len() && ids[k] == id
    }

    /// Is this id anywhere in the manager — queued or active?
    pub open spec fn has_id(self, id: Seq<char>) -> bool {
        Self::id_in(self.queue_ids(), id) || Self::id_in(self.active_ids(), id)
    }

    /// The manager's invariant: never more than [`MAX_CONCURRENT`] active
    /// workers; the cancel signals belong exactly to the active workers;
    /// and every id occurs at most once across the queue and the workers.
    pub open spec fn wf(self) -> bool {
        &&& self.active_ids().len() <= MAX_CONCURRENT as int
        &&& self.cancel_ids() == self.active_ids()
        &&& (forall|i: int, j: int|
            0 <= i < j < self.queue_ids().len() ==> self.queue_ids()[i] != self.queue_ids()[j])
        &&& (forall|i: int, j: int|
            0 <= i < j < self.active_ids().len() ==> self.active_ids()[i]
                != self.active_ids()[j])
        &&& (forall|i: int, j: int|
            0 <= i < self.queue_ids().len() && 0 <= j < self.active_ids().len()
                ==> self.queue_ids()[i] != self.active_ids()[j])
    }

    /// An empty manager.
    pub fn new() -> (m: DownloadManager)
        ensures
            m.wf(),
            m.queue_models() == Seq::<TaskModel>::empty(),
            m.active_ids() == Seq::<Seq<char>>::empty(),
    {
        let m = DownloadManager { queue: Vec::new(), active: Vec::new(), cancel_signals: Vec::new() };
        proof {
            assert(m.queue_models() =~= Seq::<TaskModel>::empty());
            assert(m.active_ids() =~= Seq::<Seq<char>>::empty());
            assert(m.cancel_ids() =~= Seq::<Seq<char>>::empty());
            assert(m.queue_ids() =~= Seq::<Seq<char>>::empty());
        }
        m
    }

    /// Appends a task to the queue.  The caller then drives [`Self::schedule_next`]
    /// until it returns nothing.
    pub fn add_task(&mut self, task: DownloadTask)
        requires
            old(self).wf(),
            !old(self).has_id(task.id@),
        ensures
            final(self).wf(),
            final(self).queue_models() == old(self).queue_models().push(task_model(task)),
            final(self).active_ids() == old(self).active_ids(),
    {
        let ghost t_m = task_model(task);
        self.queue.push(task);
        proof {
            assert(self.queue_models() =~= old(self).queue_models().push(t_m));
            assert(self.active_ids() =~= old(self).active_ids());
            assert(self.cancel_ids() =~= old(self).cancel_ids());
            assert(self.queue_ids() =~= old(self).queue_ids().push(t_m.id));
        }
    }

    /// Starts the oldest pending task when a slot is free: it leaves the
    /// queue, its id joins the active workers and receives a cancel signal,
    /// and the task is handed to the caller to spawn.  Returns nothing — and
    /// changes nothing — when the queue is empty or all slots are busy.
    pub fn schedule_next(&mut self) -> (r: Option<DownloadTask>)
        requires
            old(self).wf(),
        ensures
            final(self).wf(),
            match r {
                Some(t) => {
                    &&& old(self).queue_models().len() > 0
                    &&& old(self).active_ids().len() < MAX_CONCURRENT as int
                    &&& task_model(t) == old(self).queue_models()[0]
                    &&& final(self).queue_models() == old(self).queue_models().drop_first()
                    &&& final(self).active_ids() == old(self).active_ids().push(t.id@)
                },
                None => {
                    &&& (old(self).queue_models().len() == 0 || old(self).active_ids().len()
                        >= MAX_CONCURRENT as int)
                    &&& final(self).queue_models() == old(self).queue_models()
                    &&& final(self).active_ids() == old(self).active_ids()
                },
            },
    {
        if self.queue.len() == 0 {
            proof {
                assert(self.queue_models() =~= old(self).queue_models());
                assert(self.queue_models().len() == 0);
            }
            return None;
        }
        if self.active.len() >= MAX_CONCURRENT {
            return None;
        }
        let task = self.queue.remove(0);
        let id_copy = clone_string(&task.id);
        let id_copy2 = clone_string(&task.id);
        self.active.push(id_copy);
        self.cancel_signals.push(id_copy2);
        proof {
            assert(task_model(task) == old(self).queue_models()[0]);
            assert(self.queue_models() =~= old(self).queue_models().drop_first());
            assert(self.queue_ids() =~= old(self).queue_ids().drop_first());
            assert(self.active_ids() =~= old(self).active_ids().push(task.id@));
            assert(self.cancel_ids() =~= old(self).cancel_ids().push(task.id@));
            assert(final(self).wf()) by {
                let oq = old(self).queue_ids();
                let oa = old(self).active_ids();
                let na = self.active_ids();
                let al = oa.len();
                assert(forall|k: int| 0 <= k < self.queue_ids().len() ==> self.queue_ids()[k] == oq[k + 1]);
                assert(forall|k: int| 0 <= k < al ==> na[k] == oa[k]);
                assert(na[al as int] == task.id@);
                assert(oq[0] == task.id@);
                assert forall|a: int, b: int| 0 <= a < b < na.len() implies na[a] != na[b] by {
                    if b == al {
                        assert(oq[0] != oa[a]);
                    }
                }
                assert forall|a: int, b: int|
                    0 <= a < self.queue_ids().len() && 0 <= b < na.len() implies self.queue_ids()[a]
                    != na[b] by {
                    if b == al {
                        assert(oq[0] != oq[a + 1]);
                    } else {
                        assert(oq[a + 1] != oa[b]);
                    }
                }
            }
        }
        Some(task)
    }

    /// Cancels a running download.  When the id holds a cancel signal, the
    /// signal fires, the id leaves both the signal map and the active
    /// workers, and `true` tells the caller to abort the worker, emit the
    /// `aborted` terminal event, and schedule again.  Otherwise — also for
    /// a task still sitting in the queue — nothing changes and `false` is
    /// returned.
    pub fn cancel_task(&mut self, task_id: &str) -> (r: bool)
        requires
            old(self).wf(),
        ensures
            final(self).wf(),
            r == Self::id_in(old(self).active_ids(), task_id@),
            final(self).queue_models() == old(self).queue_models(),
            r ==> exists|i: int|
                0 <= i < old(self).active_ids().len() && old(self).active_ids()[i] == task_id@
                    && final(self).active_ids() == old(self).active_ids().remove(i),
            !r ==> final(self).active_ids() == old(self).active_ids(),
    {
        let idc = chars_of(task_id);
        let n = self.active.len();
        let mut i: usize = 0;
        while i < n
            invariant
                old(self).wf(),
                *self == *old(self),
                idc@ == task_id@,
                n == self.active@.len(),
                i <= n,
                forall|k: int| 0 <= k < i ==> self.active_ids()[k] != task_id@,
            decreases n - i,
        {
            let ac = chars_of(self.active[i].as_str());
            if eq_chars(&ac, &idc) {
                self.active.remove(i);
                self.cancel_signals.remove(i);
                proof {
                    lemma_remove_index(old(self).active@, i as int);
                    lemma_remove_index(old(self).cancel_signals@, i as int);
                    lemma_remove_index(old(self).active_ids(), i as int);
                    lemma_remove_index(old(self).cancel_ids(), i as int);
                    assert(self.queue_models() =~= old(self).queue_models());
                    assert(self.queue_ids() =~= old(self).queue_ids());
                    assert(self.active_ids() =~= old(self).active_ids().remove(i as int));
                    assert(self.cancel_ids() =~= old(self).cancel_ids().remove(i as int));
                    assert(old(self).active_ids()[i as int] == task_id@);
                    assert forall|a: int, b: int|
                        0 <= a < b < self.active_ids().len() implies self.active_ids()[a]
                        != self.active_ids()[b] by {
                        assert(self.active_ids()[a] == (if a < i {
                            old(self).active_ids()[a]
                        } else {
                            old(self).active_ids()[a + 1]
                        }));
                        assert(self.active_ids()[b] == (if b < i {
                            old(self).active_ids()[b]
                        } else {
                            old(self).active_ids()[b + 1]
                        }));
                    }
                    assert forall|a: int, b: int|
                        0 <= a < self.queue_ids().len() && 0 <= b < self.active_ids().len()
                        implies self.queue_ids()[a] != self.active_ids()[b] by {
                        assert(self.active_ids()[b] == (if b < i {
                            old(self).active_ids()[b]
                        } else {
                            old(self).active_ids()[b + 1]
                        }));
                    }
                }
                return true;
            }
            i = i + 1;
        }
        proof {
            assert(self.active_ids() =~= old(self).active_ids());
            assert(self.queue_models() =~= old(self).queue_models());
        }
        false
    }

    /// Clears everything: the queue is dropped, and every active worker's
    /// signal fires.  Returns how many tasks were dropped or aborted; the
    /// caller aborts each previously active worker and emits its `aborted`
    /// event (the ids are read with [`Self::snapshot_active`] first).
    pub fn clear_queue(&mut self) -> (r: usize)
        requires
            old(self).wf(),
            old(self).queue_models().len() + old(self).active_ids().len() <= usize::MAX,
        ensures
            final(self).wf(),
            r == old(self).queue_models().len() + old(self).active_ids().len(),
            final(self).queue_models() == Seq::<TaskModel>::empty(),
            final(self).active_ids() == Seq::<Seq<char>>::empty(),
    {
        let queued = self.queue.len();
        let running = self.active.len();
        self.queue.clear();
        self.active.clear();
        self.cancel_signals.clear();
        proof {
            assert(self.queue_models() =~= Seq::<TaskModel>::empty());
            assert(self.active_ids() =~= Seq::<Seq<char>>::empty());
            assert(self.cancel_ids() =~= Seq::<Seq<char>>::empty());
            assert(self.queue_ids() =~= Seq::<Seq<char>>::empty());
        }
        queued + running
    }

    /// A worker finished on its own.  When its id is still active, the id
    /// leaves both maps and `true` tells the caller to emit the worker's
    /// terminal event and schedule again; after a cancellation or a clear
    /// the id is gone and `false` prevents a second terminal event.
    pub fn worker_done(&mut self, task_id: &str) -> (r: bool)
        requires
            old(self).wf(),
        ensures
            final(self).wf(),
            r == Self::id_in(old(self).active_ids(), task_id@),
            final(self).queue_models() == old(self).queue_models(),
            r ==> exists|i: int|
                0 <= i < old(self).active_ids().len() && old(self).active_ids()[i] == task_id@
                    && final(self).active_ids() == old(self).active_ids().remove(i),
            !r ==> final(self).active_ids() == old(self).active_ids(),
    {
        self.cancel_task(task_id)
    }

    /// The ids of the running workers, for event emission.
    pub fn snapshot_active(&self) -> (r: Vec<String>)
        ensures
            Seq::new(r@.len(), |i: int| r@[i]@) == self.active_ids(),
    {
        let n = self.active.len();
        let mut out: Vec<String> = Vec::new();
        let mut i: usize = 0;
        while i < n
            invariant
                n == self.active@.len(),
                i <= n,
                out@.len() == i,
                forall|k: int| 0 <= k < i ==> out@[k]@ == self.active_ids()[k],
            decreases n - i,
        {
            out.push(clone_string(&self.active[i]));
            i = i + 1;
        }
        proof {
            assert(Seq::new(out@.len(), |i: int| out@[i]@) =~= self.active_ids());
        }
        out
    }

    /// How many tasks are pending.
    pub fn queue_len(&self) -> (r: usize)
        ensures
            r == self.queue_models().len(),
    {
        self.queue.len()
    }

    /// How many downloads are running.
    pub fn active_len(&self) -> (r: usize)
        ensures
            r == self.active_ids().len(),
    {
        self.active.len()
    }
}

/// Bounded concurrency, stated on its own: a well-formed manager never has
/// more than [`MAX_CONCURRENT`] active downloads, at any observable moment.
pub proof fn lemma_active_bounded(m: DownloadManager)
    requires
        m.wf(),
    ensures
        m.active_ids().len() <= MAX_CONCURRENT as int,
{
}

// ---------------------------------------------------------------------------
// Terminal events, counted over whole runs
// ---------------------------------------------------------------------------
/// One manager operation, as the host drives it: enqueue, fill a slot,
/// cancel a download, clear everything, or report a worker's own end.
pub enum MgrOp {
    Add(Seq<char>),
    Schedule,
    Cancel(Seq<char>),
    Clear,
    Done(Seq<char>),
}

/// The abstract manager state: the queued ids and the active ids.
pub struct MgrState {
    pub queue: Seq<Seq<char>>,
    pub active: Seq<Seq<char>>,
}

pub open spec fn mgr_init() -> MgrState {
    MgrState { queue: Seq::empty(), active: Seq::empty() }
}

/// A sequence with the first occurrence of `id` removed.
pub open spec fn remove_id(s: Seq<Seq<char>>, id: Seq<char>) -> Seq<Seq<char>>
    decreases s.len(),
{
    if s.len() == 0 {
        s
    } else if s[0] == id {
        s.drop_first()
    } else {
        seq![s[0]] + remove_id(s.drop_first(), id)
    }
}

/// One step of the manager, with the terminal events it emits and the
/// queued ids it drops silently.  A cancel or a completion emits one
/// terminal event exactly when the id is still active; a clear emits one
/// for every active download and drops the queued ids without an event —
/// the one known gap in the terminal-event guarantee.
pub open spec fn mgr_step(st: MgrState, op: MgrOp) -> (MgrState, Seq<Seq<char>>, Seq<Seq<char>>) {
    match op {
        MgrOp::Add(id) => if DownloadManager::id_in(st.queue, id) || DownloadManager::id_in(
            st.active,
            id,
        ) {
            (st, Seq::empty(), Seq::empty())
        } else {
            (MgrState { queue: st.queue.push(id), active: st.active }, Seq::empty(), Seq::empty())
        },
        MgrOp::Schedule => if st.queue.len() > 0 && st.active.len() < MAX_CONCURRENT as int {
            (
                MgrState { queue: st.queue.drop_first(), active: st.active.push(st.queue[0]) },
                Seq::empty(),
                Seq::empty(),
            )
        } else {
            (st, Seq::empty(), Seq::empty())
        },
        MgrOp::Cancel(id) => if DownloadManager::id_in(st.active, id) {
            (
                MgrState { queue: st.queue, active: remove_id(st.active, id) },
                seq![id],
                Seq::empty(),
            )
        } else {
            (st, Seq::empty(), Seq::empty())
        },
        MgrOp::Clear => (mgr_init(), st.active, st.queue),
        MgrOp::Done(id) => if DownloadManager::id_in(st.active, id) {
            (
                MgrState { queue: st.queue, active: remove_id(st.active, id) },
                seq![id],
                Seq::empty(),
            )
        } else {
            (st, Seq::empty(), Seq::empty())
        },
    }
}

/// A whole run from the empty manager: the final state, every terminal
/// event, and every silently dropped queued id.
pub open spec fn mgr_run(ops: Seq<MgrOp>) -> (MgrState, Seq<Seq<char>>, Seq<Seq<char>>)
    decreases ops.len(),
{
    if ops.len() == 0 {
        (mgr_init(), Seq::empty(), Seq::empty())
    } else {
        let prior = mgr_run(ops.drop_last());
        let stepped = mgr_step(prior.0, ops.last());
        (stepped.0, prior.1 + stepped.1, prior.2 + stepped.2)
    }
}

/// How often `id` occurs in a sequence of ids.
pub open spec fn occ(s: Seq<Seq<char>>, id: Seq<char>) -> nat
    decreases s.len(),
{
    if s.len() == 0 {
        0
    } else {
        occ(s.drop_last(), id) + (if s.last() == id {
            1nat
        } else {
            0nat
        })
    }
}

/// The number of times `id` was accepted into the queue over a run.
pub open spec fn effective_adds(ops: Seq<MgrOp>, id: Seq<char>) -> nat
    decreases ops.len(),
{
    if ops.len() == 0 {
        0
    } else {
        let rec = effective_adds(ops.drop_last(), id);
        let prior = mgr_run(ops.drop_last()).0;
        match ops.last() {
            MgrOp::Add(x) => if x == id && !DownloadManager::id_in(prior.queue, x)
                && !DownloadManager::id_in(prior.active, x) {
                rec + 1
            } else {
                rec
            },
            _ => rec,
        }
    }
}

proof fn lemma_occ_singleton(x: Seq<char>, id: Seq<char>)
    ensures
        occ(seq![x], id) == (if x == id {
            1nat
        } else {
            0nat
        }),
{
    let s = seq![x];
    assert(s.len() == 1);
    assert(s.last() == x);
    assert(s.drop_last() =~= Seq::<Seq<char>>::empty());
    assert(s.drop_last().len() == 0);
    assert(occ(s.drop_last(), id) == 0);
    assert(occ(s, id) == occ(s.drop_last(), id) + (if s.last() == id {
        1nat
    } else {
        0nat
    }));
}

proof fn lemma_occ_concat(a: Seq<Seq<char>>, b: Seq<Seq<char>>, id: Seq<char>)
    ensures
        occ(a + b, id) == occ(a, id) + occ(b, id),
    decreases b.len(),
{
    if b.len() == 0 {
        assert(a + b =~= a);
    } else {
        lemma_occ_concat(a, b.drop_last(), id);
        assert((a + b).drop_last() =~= a + b.drop_last());
        assert((a + b).last() == b.last());
    }
}

proof fn lemma_occ_push(s: Seq<Seq<char>>, x: Seq<char>, id: Seq<char>)
    ensures
        occ(s.push(x), id) == occ(s, id) + (if x == id {
            1nat
        } else {
            0nat
        }),
{
    assert(s.push(x).drop_last() =~= s);
    assert(s.push(x).last() == x);
}

proof fn lemma_occ_drop_first(s: Seq<Seq<char>>, id: Seq<char>)
    requires
        s.len() > 0,
    ensures
        occ(s, id) == occ(s.drop_first(), id) + (if s[0] == id {
            1nat
        } else {
            0nat
        }),
{
    assert(s =~= seq![s[0]] + s.drop_first());
    lemma_occ_concat(seq![s[0]], s.drop_first(), id);
    lemma_occ_singleton(s[0], id);
}

proof fn lemma_occ_zero_absent(s: Seq<Seq<char>>, id: Seq<char>)
    requires
        !DownloadManager::id_in(s, id),
    ensures
        occ(s, id) == 0,
    decreases s.len(),
{
    if s.len() > 0 {
        assert(!DownloadManager::id_in(s.drop_last(), id)) by {
            if DownloadManager::id_in(s.drop_last(), id) {
                let k = choose|k: int|
                    0 <= k < s.drop_last().len() && s.drop_last()[k] == id;
                assert(s[k] == id);
            }
        }
        lemma_occ_zero_absent(s.drop_last(), id);
        assert(s.last() == s[s.len() - 1]);
    }
}

proof fn lemma_occ_remove(s: Seq<Seq<char>>, id0: Seq<char>, id: Seq<char>)
    requires
        DownloadManager::id_in(s, id0),
    ensures
        occ(remove_id(s, id0), id) == occ(s, id) - (if id0 == id {
            1nat
        } else {
            0nat
        }),
    decreases s.len(),
{
    if s.len() > 0 {
        lemma_occ_drop_first(s, id);
        if s[0] == id0 {
            assert(remove_id(s, id0) == s.drop_first());
        } else {
            assert(DownloadManager::id_in(s.drop_first(), id0)) by {
                let k = choose|k: int| 0 <= k < s.len() && s[k] == id0;
                assert(s.drop_first()[k - 1] == id0);
            }
            lemma_occ_remove(s.drop_first(), id0, id);
            lemma_occ_concat(seq![s[0]], remove_id(s.drop_first(), id0), id);
            lemma_occ_singleton(s[0], id);
        }
    }
}

proof fn lemma_remove_id_len(s: Seq<Seq<char>>, id0: Seq<char>)
    requires
        DownloadManager::id_in(s, id0),
    ensures
        remove_id(s, id0).len() == s.len() - 1,
    decreases s.len(),
{
    if s.len() > 0 {
        if s[0] == id0 {
        } else {
            assert(DownloadManager::id_in(s.drop_first(), id0)) by {
                let k = choose|k: int| 0 <= k < s.len() && s[k] == id0;
                assert(s.drop_first()[k - 1] == id0);
            }
            lemma_remove_id_len(s.drop_first(), id0);
        }
    }
}

proof fn lemma_occ_positive(s: Seq<Seq<char>>, id: Seq<char>)
    requires
        DownloadManager::id_in(s, id),
    ensures
        occ(s, id) >= 1,
    decreases s.len(),
{
    if s.len() > 0 {
        if s.last() == id {
        } else {
            assert(DownloadManager::id_in(s.drop_last(), id)) by {
                let k = choose|k: int| 0 <= k < s.len() && s[k] == id;
                assert(s.drop_last()[k] == id);
            }
            lemma_occ_positive(s.drop_last(), id);
        }
    }
}

/// Terminal events, accounted for over any run from the empty manager: for
/// every id, the terminal events it received, the times it was dropped from
/// the queue by a clear, and its presence in the final state together equal
/// the times it was accepted into the queue.  In particular a task enqueued
/// once, never cleared while queued, and no longer in the manager has
/// received exactly one terminal event; and no id is ever in the manager
/// twice.
pub proof fn lemma_terminal_accounting(ops: Seq<MgrOp>, id: Seq<char>)
    ensures
        ({
            let r = mgr_run(ops);
            occ(r.1, id) + occ(r.2, id) + occ(r.0.queue, id) + occ(r.0.active, id)
                == effective_adds(ops, id)
        }),
        ({
            let r = mgr_run(ops);
            occ(r.0.queue, id) + occ(r.0.active, id) <= 1
        }),
        mgr_run(ops).0.active.len() <= MAX_CONCURRENT as int,
    decreases ops.len(),
{
    if ops.len() == 0 {
    } else {
        lemma_terminal_accounting(ops.drop_last(), id);
        let prior = mgr_run(ops.drop_last());
        let st = prior.0;
        let stepped = mgr_step(st, ops.last());
        lemma_occ_concat(prior.1, stepped.1, id);
        lemma_occ_concat(prior.2, stepped.2, id);
        match ops.last() {
            MgrOp::Add(x) => {
                if !DownloadManager::id_in(st.queue, x) && !DownloadManager::id_in(st.active, x) {
                    lemma_occ_push(st.queue, x, id);
                    if x == id {
                        lemma_occ_zero_absent(st.queue, id);
                        lemma_occ_zero_absent(st.active, id);
                    }
                }
            },
            MgrOp::Schedule => {
                if st.queue.len() > 0 && st.active.len() < MAX_CONCURRENT as int {
                    lemma_occ_drop_first(st.queue, id);
                    lemma_occ_push(st.active, st.queue[0], id);
                }
            },
            MgrOp::Cancel(x) => {
                if DownloadManager::id_in(st.active, x) {
                    lemma_occ_remove(st.active, x, id);
                    lemma_occ_positive(st.active, x);
                    lemma_remove_id_len(st.active, x);
                    lemma_occ_singleton(x, id);
                }
            },
            MgrOp::Clear => {
            },
            MgrOp::Done(x) => {
                if DownloadManager::id_in(st.active, x) {
                    lemma_occ_remove(st.active, x, id);
                    lemma_occ_positive(st.active, x);
                    lemma_remove_id_len(st.active, x);
                    lemma_occ_singleton(x, id);
                }
            },
        }
    }
}

// ---------------------------------------------------------------------------
// The executable manager refines the abstract machine
// ---------------------------------------------------------------------------
/// The abstract state of an executable manager.
pub open spec fn abs(m: DownloadManager) -> MgrState {
    MgrState { queue: m.queue_ids(), active: m.active_ids() }
}

/// In a duplicate-free sequence, removing the member at its one index is
/// removing the first occurrence.
proof fn lemma_remove_id_at(s: Seq<Seq<char>>, i: int, id: Seq<char>)
    requires
        0 <= i < s.len(),
        s[i] == id,
        forall|a: int, b: int| 0 <= a < b < s.len() ==> s[a] != s[b],
    ensures
        remove_id(s, id) == s.remove(i),
    decreases s.len(),
{
    if i == 0 {
        assert(s.remove(0) =~= s.drop_first());
    } else {
        assert(s[0] != id);
        assert(forall|a: int, b: int|
            0 <= a < b < s.drop_first().len() ==> s.drop_first()[a] == s[a + 1]
                && s.drop_first()[b] == s[b + 1]);
        assert(s.drop_first()[i - 1] == id);
        lemma_remove_id_at(s.drop_first(), i - 1, id);
        assert(seq![s[0]] + s.drop_first().remove(i - 1) =~= s.remove(i));
    }
}

/// Refinement of [`DownloadManager::add_task`]: an accepted enqueue is one
/// `Add` step of the abstract machine, with no event.
pub proof fn lemma_add_task_refines(pre: DownloadManager, post: DownloadManager, t: TaskModel)
    requires
        pre.wf(),
        !pre.has_id(t.id),
        post.queue_models() == pre.queue_models().push(t),
        post.active_ids() == pre.active_ids(),
    ensures
        mgr_step(abs(pre), MgrOp::Add(t.id)).0 == abs(post),
        mgr_step(abs(pre), MgrOp::Add(t.id)).1 == Seq::<Seq<char>>::empty(),
{
    assert(post.queue_ids() =~= pre.queue_ids().push(t.id));
    assert(mgr_step(abs(pre), MgrOp::Add(t.id)).0.queue =~= post.queue_ids());
}

/// Refinement of [`DownloadManager::schedule_next`]: both outcomes are one
/// `Schedule` step of the abstract machine, with no event.
pub proof fn lemma_schedule_next_refines(
    pre: DownloadManager,
    post: DownloadManager,
    r: Option<TaskModel>,
)
    requires
        pre.wf(),
        (match r {
            Some(t) => pre.queue_models().len() > 0 && pre.active_ids().len()
                < MAX_CONCURRENT as int && t == pre.queue_models()[0] && post.queue_models()
                == pre.queue_models().drop_first() && post.active_ids() == pre.active_ids().push(
                t.id,
            ),
            None => (pre.queue_models().len() == 0 || pre.active_ids().len()
                >= MAX_CONCURRENT as int) && post.queue_models() == pre.queue_models()
                && post.active_ids() == pre.active_ids(),
        }),
    ensures
        mgr_step(abs(pre), MgrOp::Schedule).0 == abs(post),
        mgr_step(abs(pre), MgrOp::Schedule).1 == Seq::<Seq<char>>::empty(),
{
    match r {
        Some(t) => {
            assert(pre.queue_ids()[0] == t.id);
            assert(post.queue_ids() =~= pre.queue_ids().drop_first());
            assert(mgr_step(abs(pre), MgrOp::Schedule).0.queue =~= post.queue_ids());
        },
        None => {
            assert(post.queue_ids() =~= pre.queue_ids());
        },
    }
}

/// Refinement of [`DownloadManager::cancel_task`] and
/// [`DownloadManager::worker_done`]: a successful hand-off is one `Cancel`
/// or `Done` step emitting exactly one terminal event for that id, and a
/// failed one changes nothing and emits nothing.  Together with
/// [`lemma_terminal_accounting`] this pins the terminal-event count of every
/// task the executable manager handles.
pub proof fn lemma_cancel_refines(
    pre: DownloadManager,
    post: DownloadManager,
    id: Seq<char>,
    r: bool,
)
    requires
        pre.wf(),
        r == DownloadManager::id_in(pre.active_ids(), id),
        post.queue_models() == pre.queue_models(),
        r ==> exists|i: int|
            0 <= i < pre.active_ids().len() && pre.active_ids()[i] == id && post.active_ids()
                == pre.active_ids().remove(i),
        !r ==> post.active_ids() == pre.active_ids(),
    ensures
        mgr_step(abs(pre), MgrOp::Cancel(id)).0 == abs(post),
        mgr_step(abs(pre), MgrOp::Cancel(id)).1 == (if r {
            seq![id]
        } else {
            Seq::<Seq<char>>::empty()
        }),
{
    assert(post.queue_ids() =~= pre.queue_ids());
    if r {
        let i = choose|i: int|
            0 <= i < pre.active_ids().len() && pre.active_ids()[i] == id && post.active_ids()
                == pre.active_ids().remove(i);
        lemma_remove_id_at(pre.active_ids(), i, id);
    }
}

/// Refinement of [`DownloadManager::clear_queue`]: one `Clear` step, whose
/// terminal events are exactly the previously active ids and whose silent
/// drops are exactly the previously queued ids.
pub proof fn lemma_clear_queue_refines(pre: DownloadManager, post: DownloadManager)
    requires
        pre.wf(),
        post.queue_models() == Seq::<TaskModel>::empty(),
        post.active_ids() == Seq::<Seq<char>>::empty(),
    ensures
        mgr_step(abs(pre), MgrOp::Clear).0 == abs(post),
        mgr_step(abs(pre), MgrOp::Clear).1 == pre.active_ids(),
        mgr_step(abs(pre), MgrOp::Clear).2 == pre.queue_ids(),
{
    assert(post.queue_ids() =~= Seq::<Seq<char>>::empty());
    assert(abs(post) == mgr_init());
}

/// Where each member of a sequence lands after one removal.
proof fn lemma_remove_index<T>(s: Seq<T>, i: int)
    requires
        0 <= i < s.len(),
    ensures
        s.remove(i).len() == s.len() - 1,
        forall|k: int|
            0 <= k < s.len() - 1 ==> s.remove(i)[k] == (if k < i {
                s[k]
            } else {
                s[k + 1]
            }),
{
    assert forall|k: int|
        0 <= k < s.len() - 1 implies s.remove(i)[k] == (if k < i {
        s[k]
    } else {
        s[k + 1]
    }) by {
        if k < i {
            assert(s.remove(i)[k] == s[k]);
        } else {
            assert(s.remove(i)[k] == s[k + 1]);
        }
    }
}

/// A copy of a string (String::clone keeps the characters).
fn clone_string(s: &String) -> (r: String)
    ensures
        r@ == s@,
{
    s.clone()
}

} // verus!
