//! The queue of scheduled deletions. A path is scheduled at most once:
//! scheduling it again changes nothing, so the first `delete_after` stays.

use vstd::prelude::*;
use crate::config::texts;
use crate::models::{Schedule, ScheduledDeletion};
use crate::text::same_text;

verus! {

/// Whether some schedule of the list is for this path.
pub open spec fn has_path(q: Seq<Schedule>, path: Seq<char>) -> bool {
    exists|i: int| 0 <= i < q.len() && #[trigger] q[i].file_path == path
}

/// No two schedules of the list share a path.
pub open spec fn distinct_paths(q: Seq<Schedule>) -> bool {
    forall|i: int, j: int| 0 <= i < j < q.len() ==> q[i].file_path != q[j].file_path
}

/// The list after a schedule was put to it: unchanged if the path is there
/// already, else with the schedule at its end.
pub open spec fn upserted(q: Seq<Schedule>, e: Schedule) -> Seq<Schedule> {
    if has_path(q, e.file_path) {
        q
    } else {
        q.push(e)
    }
}

/// A deletion is due once its time has come: at `delete_after` itself, not
/// a second before.
pub open spec fn is_due(e: Schedule, now: i64) -> bool {
    e.delete_after <= now
}

/// The schedules among the first `n` that are due, in their order.
pub open spec fn due_upto(q: Seq<Schedule>, now: i64, n: nat) -> Seq<Schedule>
    decreases n,
{
    if n == 0 || n > q.len() {
        Seq::empty()
    } else if is_due(q[n - 1], now) {
        due_upto(q, now, (n - 1) as nat).push(q[n - 1])
    } else {
        due_upto(q, now, (n - 1) as nat)
    }
}

/// The schedules of a list as mathematical values.
pub open spec fn schedules_of(v: Seq<ScheduledDeletion>) -> Seq<Schedule> {
    Seq::new(v.len(), |i: int| v[i]@)
}

/// Whether a list goes by time: no schedule comes before one that is due
/// earlier. The order of schedules that are due at the same time is open.
pub open spec fn by_time(r: Seq<Schedule>) -> bool {
    forall|i: int, j: int| 0 <= i < j < r.len() ==> r[i].delete_after <= r[j].delete_after
}

/// Whether `e` is among the first `n` schedules of `q`.
pub open spec fn holds(q: Seq<Schedule>, e: Schedule, n: int) -> bool {
    exists|m: int| 0 <= m < n && m < q.len() && q[m] == e
}

/// Whether every schedule of `a` is one of `b`.
pub open spec fn each_from(a: Seq<Schedule>, b: Seq<Schedule>) -> bool {
    forall|k: int| 0 <= k < a.len() ==> #[trigger] holds(b, a[k], b.len() as int)
}

/// Whether `r` lists the schedules of `q` by time: every schedule of `q`,
/// each once, and nothing else.
pub open spec fn is_listing(r: Seq<Schedule>, q: Seq<Schedule>) -> bool {
    &&& by_time(r)
    &&& distinct_paths(r)
    &&& r.len() == q.len()
    &&& each_from(r, q)
    &&& each_from(q, r)
}

/// Whether `r` lists by time the schedules of `q` that are due at `now`:
/// every schedule with `delete_after <= now`, each once, and no other.
pub open spec fn is_due_list(r: Seq<Schedule>, q: Seq<Schedule>, now: i64) -> bool {
    &&& by_time(r)
    &&& distinct_paths(r)
    &&& forall|k: int| 0 <= k < r.len() ==> is_due(#[trigger] r[k], now)
    &&& each_from(r, q)
    &&& forall|m: int|
        0 <= m < q.len() && is_due(q[m], now) ==> #[trigger] holds(r, q[m], r.len() as int)
}

/// Putting a schedule with a new path at its place by time keeps a list by
/// time and its paths distinct.
proof fn lemma_insert_by_time(r: Seq<Schedule>, p: int, x: Schedule)
    requires
        by_time(r),
        distinct_paths(r),
        0 <= p <= r.len(),
        forall|k: int| 0 <= k < p ==> (#[trigger] r[k]).delete_after <= x.delete_after,
        p < r.len() ==> r[p].delete_after > x.delete_after,
        forall|k: int| 0 <= k < r.len() ==> (#[trigger] r[k]).file_path != x.file_path,
    ensures
        by_time(r.insert(p, x)),
        distinct_paths(r.insert(p, x)),
{
    let after = r.insert(p, x);
    assert forall|i: int, j: int| 0 <= i < j < after.len() implies after[i].delete_after
        <= after[j].delete_after by {
        if j < p {
            assert(after[i] == r[i] && after[j] == r[j]);
        } else if j == p {
            assert(after[i] == r[i]);
        } else if i < p {
            assert(after[i] == r[i] && after[j] == r[j - 1]);
        } else if i == p {
            assert(after[j] == r[j - 1]);
            assert(r[p].delete_after <= r[j - 1].delete_after);
        } else {
            assert(after[i] == r[i - 1] && after[j] == r[j - 1]);
        }
    }
    assert forall|i: int, j: int| 0 <= i < j < after.len() implies after[i].file_path
        != after[j].file_path by {
        if j < p {
            assert(after[i] == r[i] && after[j] == r[j]);
        } else if j == p {
            assert(after[i] == r[i]);
        } else if i < p {
            assert(after[i] == r[i] && after[j] == r[j - 1]);
        } else if i == p {
            assert(after[j] == r[j - 1]);
        } else {
            assert(after[i] == r[i - 1] && after[j] == r[j - 1]);
        }
    }
}

/// Whether `out` holds the first `i` schedules of `all`, each once, by time.
pub open spec fn sorted_prefix(out: Seq<Schedule>, all: Seq<Schedule>, i: int) -> bool {
    &&& out.len() == i
    &&& by_time(out)
    &&& distinct_paths(out)
    &&& forall|k: int| 0 <= k < out.len() ==> #[trigger] holds(all, out[k], i)
    &&& forall|m: int| 0 <= m < i ==> #[trigger] holds(out, all[m], out.len() as int)
}

/// One step of sorting by insertion: the next schedule goes behind those
/// that are due no later and before the first that is due later.
proof fn lemma_sort_step(out: Seq<Schedule>, all: Seq<Schedule>, i: int, p: int)
    requires
        0 <= i < all.len(),
        distinct_paths(all),
        sorted_prefix(out, all, i),
        0 <= p <= out.len(),
        forall|k: int| 0 <= k < p ==> (#[trigger] out[k]).delete_after <= all[i].delete_after,
        p < out.len() ==> out[p].delete_after > all[i].delete_after,
    ensures
        sorted_prefix(out.insert(p, all[i]), all, i + 1),
{
    let x = all[i];
    let after = out.insert(p, x);
    assert forall|k: int| 0 <= k < out.len() implies (#[trigger] out[k]).file_path
        != x.file_path by {
        assert(holds(all, out[k], i));
        let m = choose|m: int| 0 <= m < i && m < all.len() && all[m] == out[k];
        assert(all[m].file_path != all[i].file_path);
    }
    lemma_insert_by_time(out, p, x);
    assert forall|k: int| 0 <= k < after.len() implies #[trigger] holds(all, after[k], i + 1) by {
        if k == p {
            assert(all[i] == after[k]);
        } else {
            let from = if k < p {
                k
            } else {
                k - 1
            };
            assert(after[k] == out[from]);
            assert(holds(all, out[from], i));
            let m = choose|m: int| 0 <= m < i && m < all.len() && all[m] == out[from];
            assert(all[m] == after[k]);
        }
    }
    assert forall|m: int| 0 <= m < i + 1 implies #[trigger] holds(
        after,
        all[m],
        after.len() as int,
    ) by {
        if m < i {
            assert(holds(out, all[m], out.len() as int));
            let k = choose|k: int| 0 <= k < out.len() && out[k] == all[m];
            if k < p {
                assert(after[k] == all[m]);
            } else {
                assert(after[k + 1] == all[m]);
            }
        } else {
            assert(after[p] == all[m]);
        }
    }
}

/// A copy of a list of schedules, put in order by time.
fn sorted_by_time(list: &Vec<ScheduledDeletion>) -> (r: Vec<ScheduledDeletion>)
    requires
        distinct_paths(schedules_of(list@)),
    ensures
        is_listing(schedules_of(r@), schedules_of(list@)),
{
    let ghost all = schedules_of(list@);
    let mut out: Vec<ScheduledDeletion> = Vec::new();
    let mut i: usize = 0;
    while i < list.len()
        invariant
            i <= list@.len(),
            all == schedules_of(list@),
            distinct_paths(all),
            sorted_prefix(schedules_of(out@), all, i as int),
        decreases list.len() - i,
    {
        let e = list[i].duplicate();
        let ghost before = schedules_of(out@);
        let mut p: usize = 0;
        while p < out.len() && out[p].delete_after <= e.delete_after
            invariant
                p <= out@.len(),
                before == schedules_of(out@),
                forall|k: int| 0 <= k < p ==> (#[trigger] before[k]).delete_after <= e.delete_after,
            decreases out.len() - p,
        {
            p = p + 1;
        }
        proof {
            assert(e@ == all[i as int]);
            if p < out@.len() {
                assert(before[p as int].delete_after > e@.delete_after);
            }
            lemma_sort_step(before, all, i as int, p as int);
        }
        out.insert(p, e);
        proof {
            assert(schedules_of(out@) =~= before.insert(p as int, all[i as int]));
        }
        i = i + 1;
    }
    out
}

/// The due schedules of a list, put by time, are its due list.
proof fn lemma_due_list(listed: Seq<Schedule>, q: Seq<Schedule>, now: i64)
    requires
        distinct_paths(q),
        is_listing(listed, due_upto(q, now, q.len())),
    ensures
        is_due_list(listed, q, now),
{
    let due = due_upto(q, now, q.len());
    lemma_due_upto(q, now, q.len());
    assert forall|k: int| 0 <= k < listed.len() implies is_due(#[trigger] listed[k], now) by {
        assert(holds(due, listed[k], due.len() as int));
        let d = choose|d: int| 0 <= d < due.len() && due[d] == listed[k];
        assert(is_due(due[d], now));
    }
    assert forall|k: int| 0 <= k < listed.len() implies #[trigger] holds(
        q,
        listed[k],
        q.len() as int,
    ) by {
        assert(holds(due, listed[k], due.len() as int));
        let d = choose|d: int| 0 <= d < due.len() && due[d] == listed[k];
        assert(holds(q, due[d], q.len() as int));
    }
    assert forall|m: int| 0 <= m < q.len() && is_due(q[m], now) implies #[trigger] holds(
        listed,
        q[m],
        listed.len() as int,
    ) by {
        assert(holds(due, q[m], due.len() as int));
        let d = choose|d: int| 0 <= d < due.len() && due[d] == q[m];
        assert(holds(listed, due[d], listed.len() as int));
    }
}

/// A time `days` days after `from`, or the last time there is.
pub open spec fn term_end(from: i64, days: u32) -> i64 {
    if from + days as int * 86400 <= i64::MAX {
        (from + days as int * 86400) as i64
    } else {
        i64::MAX
    }
}

/// The list with a new term for the schedules that a rule made.
pub open spec fn rescheduled(
    q: Seq<Schedule>,
    folder_id: Seq<char>,
    rule_name: Seq<char>,
    days: u32,
) -> Seq<Schedule> {
    Seq::new(
        q.len(),
        |i: int|
            if q[i].folder_id == folder_id && q[i].rule_name == rule_name {
                Schedule { delete_after: term_end(q[i].scheduled_at, days), ..q[i] }
            } else {
                q[i]
            },
    )
}

/// Which schedules an operation is about.
#[derive(Debug, Clone)]
pub enum Selector {
    /// The schedule for this path.
    Path(String),
    /// The schedule with this id.
    Id(String),
    /// The schedules that this rule of this folder made.
    Rule { folder_id: String, rule_name: String },
}

/// A selector as a mathematical value.
pub enum Pick {
    Path(Seq<char>),
    Id(Seq<char>),
    Rule { folder_id: Seq<char>, rule_name: Seq<char> },
}

impl View for Selector {
    type V = Pick;

    open spec fn view(&self) -> Pick {
        match self {
            Selector::Path(p) => Pick::Path(p@),
            Selector::Id(id) => Pick::Id(id@),
            Selector::Rule { folder_id, rule_name } => Pick::Rule {
                folder_id: folder_id@,
                rule_name: rule_name@,
            },
        }
    }
}

/// Whether the selector picks the schedule.
pub open spec fn selects(sel: Pick, e: Schedule) -> bool {
    match sel {
        Pick::Path(p) => e.file_path == p,
        Pick::Id(id) => e.id == id,
        Pick::Rule { folder_id, rule_name } => e.folder_id == folder_id && e.rule_name
            == rule_name,
    }
}

/// The schedules among the first `n` that the selector does not pick, in
/// their order.
pub open spec fn kept(q: Seq<Schedule>, sel: Pick, n: nat) -> Seq<Schedule>
    decreases n,
{
    if n == 0 || n > q.len() {
        Seq::empty()
    } else if selects(sel, q[n - 1]) {
        kept(q, sel, (n - 1) as nat)
    } else {
        kept(q, sel, (n - 1) as nat).push(q[n - 1])
    }
}

/// The schedules among the first `n` whose file is still there:
/// `present[k]` says so of schedule `k`.
pub open spec fn present_only(q: Seq<Schedule>, present: Seq<bool>, n: nat) -> Seq<Schedule>
    decreases n,
{
    if n == 0 || n > q.len() || n > present.len() {
        Seq::empty()
    } else if present[n - 1] {
        present_only(q, present, (n - 1) as nat).push(q[n - 1])
    } else {
        present_only(q, present, (n - 1) as nat)
    }
}

/// The paths of the schedules among the first `n` whose file is gone.
pub open spec fn absent_paths(q: Seq<Schedule>, present: Seq<bool>, n: nat) -> Seq<Seq<char>>
    decreases n,
{
    if n == 0 || n > q.len() || n > present.len() {
        Seq::empty()
    } else if present[n - 1] {
        absent_paths(q, present, (n - 1) as nat)
    } else {
        absent_paths(q, present, (n - 1) as nat).push(q[n - 1].file_path)
    }
}

proof fn lemma_present_only(q: Seq<Schedule>, present: Seq<bool>, n: nat)
    requires
        n <= q.len(),
        n <= present.len(),
        distinct_paths(q),
    ensures
        distinct_paths(present_only(q, present, n)),
        forall|k: int|
            0 <= k < present_only(q, present, n).len() ==> exists|m: int|
                0 <= m < n && q[m] == #[trigger] present_only(q, present, n)[k],
    decreases n,
{
    if n > 0 {
        let prev = present_only(q, present, (n - 1) as nat);
        lemma_present_only(q, present, (n - 1) as nat);
        let cur = present_only(q, present, n);
        if present[n - 1] {
            assert forall|k: int| 0 <= k < cur.len() implies exists|m: int|
                0 <= m < n && q[m] == #[trigger] cur[k] by {
                if k < prev.len() {
                    let m = choose|m: int| 0 <= m < n - 1 && q[m] == prev[k];
                    assert(q[m] == cur[k]);
                } else {
                    assert(q[n - 1] == cur[k]);
                }
            }
            assert forall|i: int, j: int| 0 <= i < j < cur.len() implies cur[i].file_path
                != cur[j].file_path by {
                let mi = choose|m: int| 0 <= m < n - 1 && q[m] == prev[i];
                if j >= prev.len() {
                    assert(cur[j] == q[n - 1]);
                    assert(q[mi].file_path != q[n - 1].file_path);
                }
            }
        } else {
            assert forall|k: int| 0 <= k < cur.len() implies exists|m: int|
                0 <= m < n && q[m] == #[trigger] cur[k] by {
                let m = choose|m: int| 0 <= m < n - 1 && q[m] == prev[k];
                assert(q[m] == cur[k]);
            }
        }
    }
}

/// What is kept comes from the list, and keeps its paths distinct.
pub proof fn lemma_kept(q: Seq<Schedule>, sel: Pick, n: nat)
    requires
        n <= q.len(),
        distinct_paths(q),
    ensures
        distinct_paths(kept(q, sel, n)),
        kept(q, sel, n).len() <= n,
        forall|k: int|
            0 <= k < kept(q, sel, n).len() ==> exists|m: int|
                0 <= m < n && q[m] == #[trigger] kept(q, sel, n)[k],
        forall|m: int|
            0 <= m < n && !selects(sel, q[m]) ==> exists|k: int|
                0 <= k < kept(q, sel, n).len() && kept(q, sel, n)[k] == #[trigger] q[m],
        forall|k: int| 0 <= k < kept(q, sel, n).len() ==> !selects(sel, #[trigger] kept(q, sel, n)[k]),
    decreases n,
{
    if n > 0 {
        let prev = kept(q, sel, (n - 1) as nat);
        lemma_kept(q, sel, (n - 1) as nat);
        let cur = kept(q, sel, n);
        if !selects(sel, q[n - 1]) {
            assert(cur == prev.push(q[n - 1]));
            assert forall|k: int| 0 <= k < cur.len() implies exists|m: int|
                0 <= m < n && q[m] == #[trigger] cur[k] by {
                if k < prev.len() {
                    let m = choose|m: int| 0 <= m < n - 1 && q[m] == prev[k];
                    assert(q[m] == cur[k]);
                } else {
                    assert(q[n - 1] == cur[k]);
                }
            }
            assert forall|i: int, j: int| 0 <= i < j < cur.len() implies cur[i].file_path
                != cur[j].file_path by {
                let mi = choose|m: int| 0 <= m < n - 1 && q[m] == prev[i];
                if j < prev.len() {
                } else {
                    assert(cur[j] == q[n - 1]);
                    assert(q[mi].file_path != q[n - 1].file_path);
                }
            }
            assert forall|m: int| 0 <= m < n && !selects(sel, q[m]) implies exists|k: int|
                0 <= k < cur.len() && cur[k] == #[trigger] q[m] by {
                if m < n - 1 {
                    let k = choose|k: int| 0 <= k < prev.len() && prev[k] == q[m];
                    assert(cur[k] == q[m]);
                } else {
                    assert(cur[prev.len() as int] == q[m]);
                }
            }
        } else {
            assert forall|k: int| 0 <= k < cur.len() implies exists|m: int|
                0 <= m < n && q[m] == #[trigger] cur[k] by {
                let m = choose|m: int| 0 <= m < n - 1 && q[m] == prev[k];
                assert(q[m] == cur[k]);
            }
        }
    }
}

/// The scheduled deletions, in the order in which they were made.
pub struct DeletionQueue {
    entries: Vec<ScheduledDeletion>,
}

impl View for DeletionQueue {
    type V = Seq<Schedule>;

    closed spec fn view(&self) -> Seq<Schedule> {
        Seq::new(self.entries@.len(), |i: int| self.entries@[i]@)
    }
}

fn picks(sel: &Selector, e: &ScheduledDeletion) -> (r: bool)
    ensures
        r == selects(sel@, e@),
{
    match sel {
        Selector::Path(p) => e.file_path == *p,
        Selector::Id(id) => e.id == *id,
        Selector::Rule { folder_id, rule_name } => e.folder_id == *folder_id && e.rule_name
            == *rule_name,
    }
}

impl DeletionQueue {
    /// A queue is well formed when no two of its schedules share a path.
    pub open spec fn wf(&self) -> bool {
        distinct_paths(self@)
    }

    /// The empty queue.
    pub fn new() -> (q: DeletionQueue)
        ensures
            q.wf(),
            q@ == Seq::<Schedule>::empty(),
    {
        let q = DeletionQueue { entries: Vec::new() };
        proof {
            assert(q@ =~= Seq::<Schedule>::empty());
        }
        q
    }

    /// The number of schedules.
    pub fn len(&self) -> (n: usize)
        ensures
            n == self@.len(),
    {
        self.entries.len()
    }

    /// The schedule at a position.
    pub fn get(&self, i: usize) -> (e: &ScheduledDeletion)
        requires
            i < self@.len(),
        ensures
            e@ == self@[i as int],
    {
        &self.entries[i]
    }

    /// Check whether a file is already scheduled for deletion.
    pub fn is_file_scheduled(&self, file_path: &str) -> (r: bool)
        ensures
            r == has_path(self@, file_path@),
    {
        let mut i: usize = 0;
        while i < self.entries.len()
            invariant
                i <= self.entries@.len(),
                forall|k: int| 0 <= k < i ==> (#[trigger] self@[k]).file_path != file_path@,
            decreases self.entries.len() - i,
        {
            if same_text(self.entries[i].file_path.as_str(), file_path) {
                assert(self@[i as int].file_path == file_path@);
                return true;
            }
            i = i + 1;
        }
        false
    }

    /// Schedule a deletion, unless its path is scheduled already: then
    /// nothing changes. Says whether the schedule is new.
    pub fn upsert(&mut self, entry: ScheduledDeletion) -> (inserted: bool)
        requires
            old(self).wf(),
        ensures
            final(self).wf(),
            inserted == !has_path(old(self)@, entry.file_path@),
            final(self)@ == upserted(old(self)@, entry@),
    {
        if self.is_file_scheduled(entry.file_path.as_str()) {
            return false;
        }
        let ghost before = self@;
        self.entries.push(entry);
        proof {
            assert(self@ =~= before.push(entry@));
            assert forall|i: int, j: int| 0 <= i < j < self@.len() implies self@[i].file_path
                != self@[j].file_path by {
                if j == before.len() {
                    assert(before[i].file_path != entry@.file_path);
                }
            }
        }
        true
    }

    /// All schedules, ordered by the time at which they are due, the
    /// earliest first.
    pub fn get_scheduled_deletions(&self) -> (r: Vec<ScheduledDeletion>)
        requires
            self.wf(),
        ensures
            is_listing(schedules_of(r@), self@),
    {
        let mut out: Vec<ScheduledDeletion> = Vec::new();
        let mut i: usize = 0;
        while i < self.entries.len()
            invariant
                i <= self.entries@.len(),
                out@.len() == i,
                forall|k: int| 0 <= k < i ==> (#[trigger] out@[k])@ == self@[k],
            decreases self.entries.len() - i,
        {
            out.push(self.entries[i].duplicate());
            i = i + 1;
        }
        proof {
            assert(schedules_of(out@) =~= self@);
        }
        sorted_by_time(&out)
    }

    /// The schedules whose time has come by `now`: those with
    /// `delete_after <= now`, ordered by that time, the earliest first.
    pub fn get_due_deletions(&self, now: i64) -> (r: Vec<ScheduledDeletion>)
        requires
            self.wf(),
        ensures
            is_due_list(schedules_of(r@), self@, now),
            r@.len() == due_upto(self@, now, self@.len()).len(),
    {
        let mut out: Vec<ScheduledDeletion> = Vec::new();
        let mut i: usize = 0;
        while i < self.entries.len()
            invariant
                i <= self.entries@.len(),
                self@.len() == self.entries@.len(),
                out@.len() == due_upto(self@, now, i as nat).len(),
                forall|k: int|
                    0 <= k < out@.len() ==> (#[trigger] out@[k])@ == due_upto(self@, now, i as nat)[k],
            decreases self.entries.len() - i,
        {
            if self.entries[i].delete_after <= now {
                out.push(self.entries[i].duplicate());
            }
            i = i + 1;
        }
        let ghost due = due_upto(self@, now, self@.len());
        proof {
            assert(schedules_of(out@) =~= due);
            lemma_due_upto(self@, now, self@.len());
        }
        let r = sorted_by_time(&out);
        proof {
            lemma_due_list(schedules_of(r@), self@, now);
        }
        r
    }

    /// Take out the schedules that the selector picks. Says how many left.
    pub fn remove(&mut self, sel: &Selector) -> (removed: usize)
        requires
            old(self).wf(),
        ensures
            final(self).wf(),
            final(self)@ == kept(old(self)@, sel@, old(self)@.len()),
            removed == old(self)@.len() - final(self)@.len(),
    {
        let ghost before = self@;
        let mut out: Vec<ScheduledDeletion> = Vec::new();
        let mut i: usize = 0;
        while i < self.entries.len()
            invariant
                i <= self.entries@.len(),
                before == self@,
                before.len() == self.entries@.len(),
                distinct_paths(before),
                out@.len() == kept(before, sel@, i as nat).len(),
                out@.len() <= i,
                forall|k: int|
                    0 <= k < out@.len() ==> (#[trigger] out@[k])@ == kept(before, sel@, i as nat)[k],
            decreases self.entries.len() - i,
        {
            if !picks(sel, &self.entries[i]) {
                out.push(self.entries[i].duplicate());
            }
            i = i + 1;
        }
        let total = self.entries.len();
        let left = out.len();
        proof {
            lemma_kept(before, sel@, before.len());
        }
        self.entries = out;
        proof {
            assert(self@ =~= kept(before, sel@, before.len()));
        }
        total - left
    }

    /// Remove a scheduled deletion by file path.
    pub fn remove_scheduled_deletion_by_path(&mut self, file_path: &str) -> (removed: bool)
        requires
            old(self).wf(),
        ensures
            final(self).wf(),
            removed == has_path(old(self)@, file_path@),
            !has_path(final(self)@, file_path@),
            final(self)@ == kept(old(self)@, Pick::Path(file_path@), old(self)@.len()),
    {
        let sel = Selector::Path(String::from_str(file_path));
        let ghost before = self@;
        proof {
            lemma_kept(before, sel@, before.len());
        }
        let n = self.remove(&sel);
        proof {
            let after = kept(before, sel@, before.len());
            if has_path(after, file_path@) {
                let k = choose|k: int| 0 <= k < after.len() && #[trigger] after[k].file_path == file_path@;
                assert(!selects(sel@, after[k]));
            }
            if has_path(before, file_path@) {
                let m = choose|m: int| 0 <= m < before.len() && #[trigger] before[m].file_path == file_path@;
                lemma_kept_shrinks(before, sel@, before.len(), m);
            } else {
                lemma_kept_all(before, sel@, before.len());
                assert(before.subrange(0, before.len() as int) =~= before);
            }
        }
        n > 0
    }

    /// Give the schedules that a rule made a new term: each is due `days`
    /// days after it was made.
    pub fn reschedule(&mut self, folder_id: &str, rule_name: &str, days: u32)
        requires
            old(self).wf(),
        ensures
            final(self).wf(),
            final(self)@ == rescheduled(old(self)@, folder_id@, rule_name@, days),
    {
        let ghost before = self@;
        let mut out: Vec<ScheduledDeletion> = Vec::new();
        let mut i: usize = 0;
        while i < self.entries.len()
            invariant
                i <= self.entries@.len(),
                before == self@,
                before.len() == self.entries@.len(),
                out@.len() == i,
                forall|k: int|
                    0 <= k < i ==> (#[trigger] out@[k])@ == rescheduled(
                        before,
                        folder_id@,
                        rule_name@,
                        days,
                    )[k],
            decreases self.entries.len() - i,
        {
            let mut e = self.entries[i].duplicate();
            if same_text(e.folder_id.as_str(), folder_id) && same_text(e.rule_name.as_str(), rule_name) {
                let term: i64 = (days as i64) * 86400;
                e.delete_after = if e.scheduled_at <= i64::MAX - term {
                    e.scheduled_at + term
                } else {
                    i64::MAX
                };
            }
            out.push(e);
            i = i + 1;
        }
        self.entries = out;
        proof {
            let after = rescheduled(before, folder_id@, rule_name@, days);
            assert(self@ =~= after);
            assert forall|a: int, b: int| 0 <= a < b < after.len() implies after[a].file_path
                != after[b].file_path by {
                assert(after[a].file_path == before[a].file_path);
                assert(after[b].file_path == before[b].file_path);
            }
        }
    }

    /// Drop the schedules of files that are gone: `present[k]` says whether
    /// the file of schedule `k` is still there. Gives the paths dropped.
    pub fn forget_missing(&mut self, present: &Vec<bool>) -> (dropped: Vec<String>)
        requires
            old(self).wf(),
            present@.len() == old(self)@.len(),
        ensures
            final(self).wf(),
            final(self)@ == present_only(old(self)@, present@, old(self)@.len()),
            texts(dropped@) == absent_paths(
                old(self)@,
                present@,
                old(self)@.len(),
            ),
    {
        let ghost before = self@;
        let mut out: Vec<ScheduledDeletion> = Vec::new();
        let mut dropped: Vec<String> = Vec::new();
        let mut i: usize = 0;
        while i < self.entries.len()
            invariant
                i <= self.entries@.len(),
                before == self@,
                before.len() == self.entries@.len(),
                present@.len() == before.len(),
                out@.len() == present_only(before, present@, i as nat).len(),
                forall|k: int|
                    0 <= k < out@.len() ==> (#[trigger] out@[k])@ == present_only(
                        before,
                        present@,
                        i as nat,
                    )[k],
                dropped@.len() == absent_paths(before, present@, i as nat).len(),
                forall|k: int|
                    0 <= k < dropped@.len() ==> (#[trigger] dropped@[k])@ == absent_paths(
                        before,
                        present@,
                        i as nat,
                    )[k],
            decreases self.entries.len() - i,
        {
            if present[i] {
                out.push(self.entries[i].duplicate());
            } else {
                dropped.push(self.entries[i].file_path.clone());
            }
            i = i + 1;
        }
        proof {
            lemma_present_only(before, present@, before.len());
        }
        self.entries = out;
        proof {
            assert(self@ =~= present_only(before, present@, before.len()));
            assert(texts(dropped@) =~= absent_paths(before, present@, before.len()));
        }
        dropped
    }

    /// Remove a scheduled deletion by id (cancel it).
    pub fn cancel_scheduled_deletion(&mut self, id: &str) -> (removed: usize)
        requires
            old(self).wf(),
        ensures
            final(self).wf(),
            final(self)@ == kept(old(self)@, Pick::Id(id@), old(self)@.len()),
            removed == old(self)@.len() - final(self)@.len(),
    {
        let sel = Selector::Id(String::from_str(id));
        self.remove(&sel)
    }
}

/// Scheduling is idempotent: once a path is scheduled, scheduling it again,
/// with whatever times, leaves the queue as it is. So there is one schedule
/// for the path, and it keeps the `delete_after` that it was first given.
pub proof fn lemma_schedule_once(q: Seq<Schedule>, first: Schedule, again: Schedule)
    requires
        first.file_path == again.file_path,
    ensures
        upserted(upserted(q, first), again) == upserted(q, first),
        has_path(upserted(q, first), first.file_path),
{
    let once = upserted(q, first);
    if has_path(q, first.file_path) {
    } else {
        assert(once[q.len() as int].file_path == first.file_path);
    }
}

/// How many of the first `n` schedules are for this path.
pub open spec fn count_path(q: Seq<Schedule>, path: Seq<char>, n: nat) -> nat
    decreases n,
{
    if n == 0 || n > q.len() {
        0
    } else if q[n - 1].file_path == path {
        count_path(q, path, (n - 1) as nat) + 1
    } else {
        count_path(q, path, (n - 1) as nat)
    }
}

proof fn lemma_count_absent(q: Seq<Schedule>, e: Schedule, n: nat)
    requires
        n <= q.len(),
        !has_path(q, e.file_path),
    ensures
        count_path(q.push(e), e.file_path, n) == 0,
    decreases n,
{
    if n > 0 {
        lemma_count_absent(q, e, (n - 1) as nat);
        assert(q.push(e)[n - 1] == q[n - 1]);
        assert(q[n - 1].file_path != e.file_path);
    }
}

/// A file that is scheduled twice has one schedule, and that is the first:
/// the second scheduling, whenever it comes and whatever times it brings,
/// neither adds a schedule nor changes `scheduled_at` or `delete_after`.
pub proof fn lemma_scheduled_twice(q: Seq<Schedule>, first: Schedule, again: Schedule)
    requires
        !has_path(q, first.file_path),
        first.file_path == again.file_path,
    ensures
        upserted(upserted(q, first), again) == q.push(first),
        count_path(q.push(first), first.file_path, q.len() + 1) == 1,
        forall|k: int|
            0 <= k <= q.len() && (#[trigger] q.push(first)[k]).file_path == first.file_path
                ==> q.push(first)[k] == first,
{
    let once = q.push(first);
    assert(once[q.len() as int].file_path == first.file_path);
    lemma_count_absent(q, first, q.len());
    assert forall|k: int|
        0 <= k <= q.len() && (#[trigger] once[k]).file_path == first.file_path implies once[k]
        == first by {
        if k < q.len() {
            assert(q[k].file_path == first.file_path);
        }
    }
}

/// A schedule is due at the very second of its `delete_after`, and is not
/// due one second before.
pub proof fn lemma_due_boundary(e: Schedule, now: i64)
    ensures
        e.delete_after == now ==> is_due(e, now),
        e.delete_after == now + 1 ==> !is_due(e, now),
{
}

/// What `due_upto` gives are the due schedules of the list, and all of
/// them; where the paths of the list are distinct, so are theirs.
pub proof fn lemma_due_upto(q: Seq<Schedule>, now: i64, n: nat)
    requires
        n <= q.len(),
    ensures
        forall|k: int|
            0 <= k < due_upto(q, now, n).len() ==> is_due(#[trigger] due_upto(q, now, n)[k], now),
        forall|k: int|
            0 <= k < due_upto(q, now, n).len() ==> #[trigger] holds(
                q,
                due_upto(q, now, n)[k],
                n as int,
            ),
        forall|m: int|
            0 <= m < n && is_due(q[m], now) ==> #[trigger] holds(
                due_upto(q, now, n),
                q[m],
                due_upto(q, now, n).len() as int,
            ),
        distinct_paths(q) ==> distinct_paths(due_upto(q, now, n)),
    decreases n,
{
    if n > 0 {
        let prev = due_upto(q, now, (n - 1) as nat);
        let cur = due_upto(q, now, n);
        lemma_due_upto(q, now, (n - 1) as nat);
        assert forall|k: int| 0 <= k < cur.len() implies is_due(#[trigger] cur[k], now) by {
            if k < prev.len() {
                assert(cur[k] == prev[k]);
            }
        }
        assert forall|k: int| 0 <= k < cur.len() implies #[trigger] holds(q, cur[k], n as int) by {
            if k < prev.len() {
                assert(holds(q, prev[k], n - 1));
                let m = choose|m: int| 0 <= m < n - 1 && m < q.len() && q[m] == prev[k];
                assert(q[m] == cur[k]);
            } else {
                assert(q[n - 1] == cur[k]);
            }
        }
        assert forall|m: int| 0 <= m < n && is_due(q[m], now) implies #[trigger] holds(
            cur,
            q[m],
            cur.len() as int,
        ) by {
            if m < n - 1 {
                assert(holds(prev, q[m], prev.len() as int));
                let k = choose|k: int| 0 <= k < prev.len() && prev[k] == q[m];
                assert(cur[k] == q[m]);
            } else {
                assert(cur[prev.len() as int] == q[m]);
            }
        }
        if distinct_paths(q) {
            assert forall|i: int, j: int| 0 <= i < j < cur.len() implies cur[i].file_path
                != cur[j].file_path by {
                if j >= prev.len() {
                    assert(cur[j] == q[n - 1]);
                    assert(cur[i] == prev[i]);
                    assert(holds(q, prev[i], n - 1));
                    let mi = choose|m: int| 0 <= m < n - 1 && m < q.len() && q[m] == prev[i];
                    assert(q[mi].file_path != q[n - 1].file_path);
                } else {
                    assert(cur[i] == prev[i] && cur[j] == prev[j]);
                }
            }
        }
    }
}

/// Where the selector picks something, less is kept than there was.
proof fn lemma_kept_shrinks(q: Seq<Schedule>, sel: Pick, n: nat, m: int)
    requires
        n <= q.len(),
        0 <= m < n,
        selects(sel, q[m]),
    ensures
        kept(q, sel, n).len() < n,
    decreases n,
{
    lemma_kept_len(q, sel, (n - 1) as nat);
    if m < n - 1 {
        lemma_kept_shrinks(q, sel, (n - 1) as nat, m);
    }
}

/// No more is kept than there was.
proof fn lemma_kept_len(q: Seq<Schedule>, sel: Pick, n: nat)
    requires
        n <= q.len(),
    ensures
        kept(q, sel, n).len() <= n,
    decreases n,
{
    if n > 0 {
        lemma_kept_len(q, sel, (n - 1) as nat);
    }
}

/// Where the selector picks nothing, everything is kept.
proof fn lemma_kept_all(q: Seq<Schedule>, sel: Pick, n: nat)
    requires
        n <= q.len(),
        forall|m: int| 0 <= m < n ==> !selects(sel, #[trigger] q[m]),
    ensures
        kept(q, sel, n) == q.subrange(0, n as int),
    decreases n,
{
    if n > 0 {
        lemma_kept_all(q, sel, (n - 1) as nat);
        assert(q.subrange(0, n - 1).push(q[n - 1]) =~= q.subrange(0, n as int));
    } else {
        assert(q.subrange(0, 0) =~= Seq::<Schedule>::empty());
    }
}

} // verus!
