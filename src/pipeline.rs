//! The background task pipeline: an intake queue of derivation jobs, an
//! admission gate that lets at most a fixed number run at once, and the
//! counters it reports. The jobs themselves run elsewhere; this state
//! decides which job starts and records how each one ended.
use vstd::prelude::*;
use crate::catalog::{CatalogStore, VideoMetadata, with_metadata};

verus! {

/// A derivation job.
#[derive(Debug)]
pub enum TaskType {
    /// Render a still frame of a video.
    GenerateThumbnail { video_path: String, thumbnail_path: String },
    /// Probe a video's duration and dimensions and render its thumbnail.
    ExtractMetadata { video_path: String, thumbnail_path: String },
}

/// How urgent a job is; higher runs first among waiting jobs.
#[derive(Clone, Copy, Debug, PartialEq, Eq, Structural)]
pub enum TaskPriority {
    Low,
    Normal,
    High,
}

/// Where a job stands.
#[derive(Debug)]
pub enum TaskStatus {
    Pending,
    Running,
    Completed,
    Failed(String),
}

/// A job with its identity and state.
#[derive(Debug)]
pub struct BackgroundTask {
    pub id: u64,
    pub task_type: TaskType,
    pub priority: TaskPriority,
    pub status: TaskStatus,
    /// When the job was enqueued, in the caller's clock.
    pub created_at: u64,
}

/// How a job ended.
#[derive(Debug)]
pub enum TaskResult {
    ThumbnailGenerated(String),
    MetadataExtracted(VideoMetadata),
    Failed(String),
}

/// The counters that the pipeline exposes.
#[derive(Clone, Copy, Debug, PartialEq, Eq, Structural)]
pub struct QueueStats {
    pub pending_count: usize,
    pub running_count: usize,
    pub completed_count: u64,
    pub failed_count: u64,
}

/// The rank of a priority: higher runs first.
pub open spec fn rank(p: TaskPriority) -> nat {
    match p {
        TaskPriority::Low => 0,
        TaskPriority::Normal => 1,
        TaskPriority::High => 2,
    }
}

fn rank_of(p: TaskPriority) -> (r: u8)
    ensures
        r as nat == rank(p),
{
    match p {
        TaskPriority::Low => 0,
        TaskPriority::Normal => 1,
        TaskPriority::High => 2,
    }
}

/// The position of the job that starts next among waiting jobs: the first
/// of those with the highest priority, so that equal priorities run in the
/// order they were enqueued.
pub open spec fn next_index(s: Seq<BackgroundTask>) -> int
    decreases s.len(),
{
    if s.len() <= 1 {
        0
    } else {
        let b = next_index(s.drop_last());
        if rank(s.last().priority) > rank(s[b].priority) { s.len() - 1 } else { b }
    }
}

proof fn lemma_next_index(s: Seq<BackgroundTask>)
    requires
        s.len() > 0,
    ensures
        0 <= next_index(s) < s.len(),
        forall|j: int| 0 <= j < s.len() ==> rank(#[trigger] s[j].priority) <= rank(s[next_index(s)].priority),
        forall|j: int| 0 <= j < next_index(s) ==> rank(#[trigger] s[j].priority) < rank(s[next_index(s)].priority),
    decreases s.len(),
{
    if s.len() > 1 {
        let t = s.drop_last();
        lemma_next_index(t);
        assert forall|j: int| 0 <= j < t.len() implies t[j] == s[j] by {}
    }
}

/// The pipeline's state.
pub struct TaskQueue {
    max_concurrent: usize,
    next_id: u64,
    pending: Vec<BackgroundTask>,
    running: Vec<u64>,
    completed: u64,
    failed: u64,
    shut_down: bool,
}

impl TaskQueue {
    /// The most jobs that may run at once.
    pub closed spec fn limit(&self) -> nat { self.max_concurrent as nat }
    /// The identity that the next job gets.
    pub closed spec fn next_task_id(&self) -> u64 { self.next_id }
    /// The waiting jobs, in the order they were enqueued.
    pub closed spec fn waiting(&self) -> Seq<BackgroundTask> { self.pending@ }
    /// The identities of the running jobs.
    pub closed spec fn running_ids(&self) -> Seq<u64> { self.running@ }
    pub closed spec fn completed_total(&self) -> u64 { self.completed }
    pub closed spec fn failed_total(&self) -> u64 { self.failed }
    /// Whether the pipeline has been told to stop starting jobs.
    pub closed spec fn is_shut_down(&self) -> bool { self.shut_down }

    /// The pipeline's invariant: never more running jobs than the limit,
    /// each running job once.
    pub open spec fn wf(&self) -> bool {
        &&& self.running_ids().len() <= self.limit()
        &&& self.running_ids().no_duplicates()
        &&& forall|k: int| 0 <= k < self.running_ids().len() ==> #[trigger] self.running_ids()[k] < self.next_task_id()
        &&& forall|k: int| 0 <= k < self.waiting().len() ==> (#[trigger] self.waiting()[k]).id < self.next_task_id()
        &&& forall|a: int, b: int| 0 <= a < self.waiting().len() && 0 <= b < self.waiting().len() && a != b
            ==> (#[trigger] self.waiting()[a]).id != (#[trigger] self.waiting()[b]).id
        &&& forall|k: int| 0 <= k < self.waiting().len() ==> !self.running_ids().contains(#[trigger] self.waiting()[k].id)
    }

    /// An empty pipeline that runs at most `max_concurrent` jobs at once.
    pub fn new(max_concurrent: usize) -> (r: TaskQueue)
        ensures
            r.wf(),
            r.limit() == max_concurrent,
            r.next_task_id() == 0,
            r.waiting().len() == 0,
            r.running_ids().len() == 0,
            r.completed_total() == 0,
            r.failed_total() == 0,
            !r.is_shut_down(),
    {
        TaskQueue {
            max_concurrent,
            next_id: 0,
            pending: Vec::new(),
            running: Vec::new(),
            completed: 0,
            failed: 0,
            shut_down: false,
        }
    }

    /// Whether another job can be given an identity.
    pub fn can_enqueue(&self) -> (r: bool)
        ensures
            r == (self.next_task_id() < u64::MAX),
    {
        self.next_id < u64::MAX
    }

    /// Adds a job to the intake queue and returns its identity.
    pub fn enqueue(&mut self, task_type: TaskType, priority: TaskPriority, now: u64) -> (id: u64)
        requires
            old(self).wf(),
            old(self).next_task_id() < u64::MAX,
        ensures
            final(self).wf(),
            id == old(self).next_task_id(),
            final(self).next_task_id() == id + 1,
            final(self).waiting().len() == old(self).waiting().len() + 1,
            final(self).waiting().drop_last() == old(self).waiting(),
            final(self).waiting().last().id == id,
            final(self).waiting().last().task_type == task_type,
            final(self).waiting().last().priority == priority,
            final(self).waiting().last().created_at == now,
            final(self).waiting().last().status is Pending,
            final(self).running_ids() == old(self).running_ids(),
            final(self).limit() == old(self).limit(),
            final(self).completed_total() == old(self).completed_total(),
            final(self).failed_total() == old(self).failed_total(),
            final(self).is_shut_down() == old(self).is_shut_down(),
    {
        let id = self.next_id;
        self.next_id = self.next_id + 1;
        let task = BackgroundTask { id, task_type, priority, status: TaskStatus::Pending, created_at: now };
        self.pending.push(task);
        assert(self.pending@.drop_last() =~= old(self).pending@);
        proof {
            assert forall|k: int| 0 <= k < self.pending@.len() implies !self.running@.contains(#[trigger] self.pending@[k].id) by {
                if k == self.pending@.len() - 1 {
                    if self.running@.contains(id) {
                        let j = choose|j: int| 0 <= j < self.running@.len() && self.running@[j] == id;
                    }
                } else {
                    assert(self.pending@[k] == old(self).pending@[k]);
                }
            }
        }
        id
    }

    /// Enqueues one thumbnail job per (video, thumbnail) pair at normal
    /// priority; returns their identities in order.
    pub fn enqueue_thumbnail_batch(&mut self, tasks: Vec<(String, String)>, now: u64) -> (ids: Vec<u64>)
        requires
            old(self).wf(),
            old(self).next_task_id() + tasks@.len() <= u64::MAX,
        ensures
            final(self).wf(),
            ids@.len() == tasks@.len(),
            forall|k: int| 0 <= k < ids@.len() ==> #[trigger] ids@[k] == old(self).next_task_id() + k,
            final(self).next_task_id() == old(self).next_task_id() + tasks@.len(),
            final(self).waiting().len() == old(self).waiting().len() + tasks@.len(),
            final(self).waiting().subrange(0, old(self).waiting().len() as int) == old(self).waiting(),
            forall|k: int| 0 <= k < tasks@.len() ==> {
                let t = #[trigger] final(self).waiting()[old(self).waiting().len() + k];
                &&& t.id == old(self).next_task_id() + k
                &&& t.priority == TaskPriority::Normal
                &&& t.created_at == now
                &&& t.task_type == (TaskType::GenerateThumbnail { video_path: tasks@[k].0, thumbnail_path: tasks@[k].1 })
            },
            final(self).running_ids() == old(self).running_ids(),
            final(self).limit() == old(self).limit(),
            final(self).completed_total() == old(self).completed_total(),
            final(self).failed_total() == old(self).failed_total(),
            final(self).is_shut_down() == old(self).is_shut_down(),
    {
        let mut ids: Vec<u64> = Vec::new();
        let mut tasks = tasks;
        let ghost total = tasks@.len();
        let ghost all = tasks@;
        let ghost start = self.next_id;
        let ghost old_pending = self.pending@;
        assert(all.subrange(0, total as int) =~= all);
        while tasks.len() > 0
            invariant
                self.wf(),
                ids@.len() + tasks@.len() == total,
                total == all.len(),
                tasks@ == all.subrange(ids@.len() as int, total as int),
                self.next_id == start + ids@.len(),
                start + total <= u64::MAX,
                forall|k: int| 0 <= k < ids@.len() ==> #[trigger] ids@[k] == start + k,
                self.pending@.len() == old_pending.len() + ids@.len(),
                self.pending@.subrange(0, old_pending.len() as int) == old_pending,
                forall|k: int| 0 <= k < ids@.len() ==> {
                    let t = #[trigger] self.pending@[old_pending.len() + k];
                    &&& t.id == start + k
                    &&& t.priority == TaskPriority::Normal
                    &&& t.created_at == now
                    &&& t.task_type == (TaskType::GenerateThumbnail { video_path: all[k].0, thumbnail_path: all[k].1 })
                },
                self.running@ == old(self).running@,
                self.max_concurrent == old(self).max_concurrent,
                self.completed == old(self).completed,
                self.failed == old(self).failed,
                self.shut_down == old(self).shut_down,
            decreases tasks@.len(),
        {
            let ghost done = ids@.len();
            assert(tasks@[0] == all[done as int]);
            let (video_path, thumbnail_path) = tasks.remove(0);
            let ghost before = self.pending@;
            let id = self.enqueue(TaskType::GenerateThumbnail { video_path, thumbnail_path }, TaskPriority::Normal, now);
            assert(self.pending@.subrange(0, old_pending.len() as int) =~= before.subrange(0, old_pending.len() as int));
            proof {
                assert forall|k: int| 0 <= k < done + 1 implies {
                    let t = #[trigger] self.pending@[old_pending.len() + k];
                    &&& t.id == start + k
                    &&& t.priority == TaskPriority::Normal
                    &&& t.created_at == now
                    &&& t.task_type == (TaskType::GenerateThumbnail { video_path: all[k].0, thumbnail_path: all[k].1 })
                } by {
                    if k < done {
                        assert(self.pending@[old_pending.len() + k] == before[old_pending.len() + k]);
                    }
                }
            }
            ids.push(id);
            assert(tasks@ =~= all.subrange(ids@.len() as int, total as int));
        }
        ids
    }

    /// Admits the next waiting job when fewer than the limit are running
    /// and the pipeline has not been shut down; the job leaves the intake
    /// queue and is returned marked running.
    pub fn start_next(&mut self) -> (r: Option<BackgroundTask>)
        requires
            old(self).wf(),
        ensures
            final(self).wf(),
            final(self).limit() == old(self).limit(),
            final(self).next_task_id() == old(self).next_task_id(),
            final(self).completed_total() == old(self).completed_total(),
            final(self).failed_total() == old(self).failed_total(),
            final(self).is_shut_down() == old(self).is_shut_down(),
            r is None <==> (old(self).is_shut_down() || old(self).waiting().len() == 0
                || old(self).running_ids().len() >= old(self).limit()),
            r is None ==> final(self).waiting() == old(self).waiting() && final(self).running_ids() == old(self).running_ids(),
            r matches Some(t) ==> {
                let k = next_index(old(self).waiting());
                &&& t.id == old(self).waiting()[k].id
                &&& t.task_type == old(self).waiting()[k].task_type
                &&& t.priority == old(self).waiting()[k].priority
                &&& t.created_at == old(self).waiting()[k].created_at
                &&& t.status is Running
                &&& final(self).waiting() == old(self).waiting().remove(k)
                &&& final(self).running_ids() == old(self).running_ids().push(t.id)
            },
    {
        if self.shut_down || self.pending.len() == 0 || self.running.len() >= self.max_concurrent {
            return None;
        }
        let mut best: usize = 0;
        let mut i: usize = 1;
        proof { lemma_next_index(self.pending@); }
        while i < self.pending.len()
            invariant
                1 <= i <= self.pending@.len(),
                best as int == next_index(self.pending@.subrange(0, i as int)),
                best < i,
            decreases self.pending@.len() - i,
        {
            proof {
                let s = self.pending@.subrange(0, i + 1);
                assert(s.drop_last() =~= self.pending@.subrange(0, i as int));
            }
            if rank_of(self.pending[i].priority) > rank_of(self.pending[best].priority) {
                best = i;
            }
            i = i + 1;
        }
        assert(self.pending@.subrange(0, self.pending@.len() as int) =~= self.pending@);
        let task = self.pending.remove(best);
        let ghost old_pending = old(self).pending@;
        proof {
            assert(old_pending[best as int] == task);
            assert(!self.running@.contains(task.id));
        }
        self.running.push(task.id);
        proof {
            assert(self.pending@ =~= old_pending.remove(best as int));
            assert forall|k: int| 0 <= k < self.pending@.len() implies !self.running@.contains(#[trigger] self.pending@[k].id) by {
                let ok = if k < best { k } else { k + 1 };
                assert(self.pending@[k] == old_pending[ok]);
                assert(old_pending[ok].id != old_pending[best as int].id);
                assert(!old(self).running@.contains(old_pending[ok].id));
                if self.running@.contains(self.pending@[k].id) {
                    let j = choose|j: int| 0 <= j < self.running@.len() && self.running@[j] == self.pending@[k].id;
                    if j < old(self).running@.len() {
                        assert(old(self).running@[j] == self.running@[j]);
                    }
                }
            }
            assert forall|a: int, b: int| 0 <= a < self.pending@.len() && 0 <= b < self.pending@.len() && a != b
                implies (#[trigger] self.pending@[a]).id != (#[trigger] self.pending@[b]).id by {
                let oa = if a < best { a } else { a + 1 };
                let ob = if b < best { b } else { b + 1 };
                assert(self.pending@[a] == old_pending[oa]);
                assert(self.pending@[b] == old_pending[ob]);
            }
            assert forall|k: int| 0 <= k < self.pending@.len() implies (#[trigger] self.pending@[k]).id < self.next_id by {
                let ok = if k < best { k } else { k + 1 };
                assert(self.pending@[k] == old_pending[ok]);
            }
            assert forall|a: int, b: int| 0 <= a < self.running@.len() && 0 <= b < self.running@.len() && a != b
                implies self.running@[a] != self.running@[b] by {
                if a < old(self).running@.len() && b < old(self).running@.len() {
                    assert(old(self).running@[a] == self.running@[a]);
                    assert(old(self).running@[b] == self.running@[b]);
                } else if a < old(self).running@.len() {
                    assert(old(self).running@[a] == self.running@[a]);
                } else if b < old(self).running@.len() {
                    assert(old(self).running@[b] == self.running@[b]);
                }
            }
        }
        Some(BackgroundTask {
            id: task.id,
            task_type: task.task_type,
            priority: task.priority,
            status: TaskStatus::Running,
            created_at: task.created_at,
        })
    }

    /// Records that the running job `id` ended, successfully or not; its
    /// slot is freed. Reports whether `id` was running. The counters stop
    /// at their largest value.
    pub fn finish(&mut self, id: u64, success: bool) -> (r: bool)
        requires
            old(self).wf(),
        ensures
            final(self).wf(),
            r == old(self).running_ids().contains(id),
            final(self).limit() == old(self).limit(),
            final(self).waiting() == old(self).waiting(),
            final(self).next_task_id() == old(self).next_task_id(),
            final(self).is_shut_down() == old(self).is_shut_down(),
            !r ==> final(self).running_ids() == old(self).running_ids()
                && final(self).completed_total() == old(self).completed_total()
                && final(self).failed_total() == old(self).failed_total(),
            r ==> final(self).running_ids().len() + 1 == old(self).running_ids().len()
                && !final(self).running_ids().contains(id)
                && (forall|x: u64| x != id ==> (final(self).running_ids().contains(x) <==> old(self).running_ids().contains(x))),
            r && success ==> final(self).completed_total() == sat_inc(old(self).completed_total())
                && final(self).failed_total() == old(self).failed_total(),
            r && !success ==> final(self).failed_total() == sat_inc(old(self).failed_total())
                && final(self).completed_total() == old(self).completed_total(),
    {
        let k = match position_of(&self.running, id) {
            Some(k) => k,
            None => return false,
        };
        let ghost before = self.running@;
        self.running.remove(k);
        proof {
            assert(self.running@ =~= before.remove(k as int));
            assert forall|a: int, b: int| 0 <= a < self.running@.len() && 0 <= b < self.running@.len() && a != b
                implies self.running@[a] != self.running@[b] by {
                let oa = if a < k { a } else { a + 1 };
                let ob = if b < k { b } else { b + 1 };
                assert(before[oa] != before[ob]);
            }
            assert forall|x: u64| x != id implies (self.running@.contains(x) <==> before.contains(x)) by {
                if before.contains(x) {
                    let j = choose|j: int| 0 <= j < before.len() && before[j] == x;
                    let nj = if j < k { j } else { j - 1 };
                    assert(self.running@[nj] == x);
                }
                if self.running@.contains(x) {
                    let j = choose|j: int| 0 <= j < self.running@.len() && self.running@[j] == x;
                    let oj = if j < k { j } else { j + 1 };
                    assert(before[oj] == x);
                }
            }
            assert forall|i: int| 0 <= i < self.running@.len() implies #[trigger] self.running@[i] < self.next_id by {
                let oi = if i < k { i } else { i + 1 };
                assert(self.running@[i] == before[oi]);
            }
            assert forall|i: int| 0 <= i < self.pending@.len() implies !self.running@.contains(#[trigger] self.pending@[i].id) by {
                assert(!before.contains(self.pending@[i].id));
                if self.running@.contains(self.pending@[i].id) {
                    let j = choose|j: int| 0 <= j < self.running@.len() && self.running@[j] == self.pending@[i].id;
                    let oj = if j < k { j } else { j + 1 };
                    assert(before[oj] == self.running@[j]);
                }
            }
            if self.running@.contains(id) {
                let j = choose|j: int| 0 <= j < self.running@.len() && self.running@[j] == id;
                let oj = if j < k { j } else { j + 1 };
                assert(before[oj] == id);
                assert(before[k as int] == id);
            }
        }
        if success {
            if self.completed < u64::MAX {
                self.completed = self.completed + 1;
            }
        } else {
            if self.failed < u64::MAX {
                self.failed = self.failed + 1;
            }
        }
        true
    }

    /// The current counters.
    pub fn get_stats(&self) -> (r: QueueStats)
        ensures
            r.pending_count == self.waiting().len(),
            r.running_count == self.running_ids().len(),
            r.completed_count == self.completed_total(),
            r.failed_count == self.failed_total(),
    {
        QueueStats {
            pending_count: self.pending.len(),
            running_count: self.running.len(),
            completed_count: self.completed,
            failed_count: self.failed,
        }
    }

    /// Stops the pipeline from starting further jobs; running jobs finish.
    pub fn shutdown(&mut self)
        requires
            old(self).wf(),
        ensures
            final(self).wf(),
            final(self).is_shut_down(),
            final(self).limit() == old(self).limit(),
            final(self).waiting() == old(self).waiting(),
            final(self).running_ids() == old(self).running_ids(),
            final(self).next_task_id() == old(self).next_task_id(),
            final(self).completed_total() == old(self).completed_total(),
            final(self).failed_total() == old(self).failed_total(),
    {
        self.shut_down = true;
    }
}

/// The file that a job works on.
pub open spec fn source_of(t: TaskType) -> Seq<char> {
    match t {
        TaskType::GenerateThumbnail { video_path, .. } => video_path@,
        TaskType::ExtractMetadata { video_path, .. } => video_path@,
    }
}

/// What a job's result adds to the catalog, or none for a failure.
pub open spec fn result_metadata(r: TaskResult) -> Option<VideoMetadata> {
    match r {
        TaskResult::ThumbnailGenerated(t) =>
            Some(VideoMetadata { duration: None, width: None, height: None, thumbnail_path: Some(t) }),
        TaskResult::MetadataExtracted(m) => Some(m),
        TaskResult::Failed(_) => None,
    }
}

/// Writes a finished job's result back into the catalog; returns whether
/// the job succeeded. A failure leaves the catalog as it is; so does a
/// result for a file whose entry has since been deleted.
pub fn apply_task_result(store: &mut CatalogStore, task: &TaskType, result: TaskResult) -> (r: bool)
    requires
        old(store).wf(),
    ensures
        final(store).wf(),
        r == (result_metadata(result) is Some),
        match result_metadata(result) {
            Some(m) => if old(store)@.contains_key(source_of(*task)) {
                final(store)@ == old(store)@.insert(source_of(*task), with_metadata(old(store)@[source_of(*task)], m))
            } else {
                final(store)@ == old(store)@
            },
            None => final(store)@ == old(store)@,
        },
{
    let path = match task {
        TaskType::GenerateThumbnail { video_path, .. } => video_path.as_str(),
        TaskType::ExtractMetadata { video_path, .. } => video_path.as_str(),
    };
    match result {
        TaskResult::ThumbnailGenerated(t) => {
            let meta = VideoMetadata { duration: None, width: None, height: None, thumbnail_path: Some(t) };
            store.update_derived(path, meta);
            true
        },
        TaskResult::MetadataExtracted(m) => {
            store.update_derived(path, m);
            true
        },
        TaskResult::Failed(_) => false,
    }
}

/// The first position of `id` in `v`.
fn position_of(v: &Vec<u64>, id: u64) -> (r: Option<usize>)
    ensures
        match r {
            Some(k) => k < v@.len() && v@[k as int] == id,
            None => !v@.contains(id),
        },
{
    let mut k: usize = 0;
    while k < v.len()
        invariant
            k <= v@.len(),
            forall|j: int| 0 <= j < k ==> v@[j] != id,
        decreases v@.len() - k,
    {
        if v[k] == id {
            return Some(k);
        }
        k = k + 1;
    }
    None
}

/// `n + 1`, stopping at the largest `u64`.
pub open spec fn sat_inc(n: u64) -> u64 {
    if n < u64::MAX { (n + 1) as u64 } else { n }
}

/// A pipeline that runs at most `max_concurrent` jobs at once.
pub fn init_task_queue(max_concurrent: usize) -> (r: TaskQueue)
    ensures
        r.wf(),
        r.limit() == max_concurrent,
        r.waiting().len() == 0,
        r.running_ids().len() == 0,
        r.next_task_id() == 0,
        r.completed_total() == 0,
        r.failed_total() == 0,
        !r.is_shut_down(),
{
    TaskQueue::new(max_concurrent)
}

/// However many jobs are waiting, the pipeline never reports more running
/// jobs than its limit.
pub proof fn lemma_running_bounded(q: &TaskQueue)
    requires
        q.wf(),
    ensures
        q.running_ids().len() <= q.limit(),
{
}

} // verus!
