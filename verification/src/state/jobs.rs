use vstd::prelude::*;
use crate::utils::text::{push_char, usize_to_decimal};

verus! {

/// Where a background job stands.
#[derive(Debug, PartialEq, Eq, Clone, Copy, Structural)]
pub enum JobStatus {
    Running,
    Done,
    Failed(i32),
}

/// How a status is shown in job listings.
pub open spec fn status_text(s: JobStatus) -> Seq<char> {
    match s {
        JobStatus::Running => "running"@,
        JobStatus::Done => "done"@,
        JobStatus::Failed(_) => "failed"@,
    }
}

impl JobStatus {
    /// How the status is shown in job listings; a failure does not show its
    /// exit code.
    pub fn to_string(&self) -> (s: String)
        ensures
            s@ == status_text(*self),
    {
        match self {
            JobStatus::Running => String::from_str("running"),
            JobStatus::Done => String::from_str("done"),
            JobStatus::Failed(_) => String::from_str("failed"),
        }
    }

    /// The status of a job whose process has ended: done when it succeeded,
    /// otherwise failed with its exit code (1 when it has none, as when a
    /// signal ended it).
    pub fn from_exit(success: bool, code: Option<i32>) -> (s: JobStatus)
        ensures
            s == (if success {
                JobStatus::Done
            } else {
                JobStatus::Failed(
                    match code {
                        Some(c) => c,
                        None => 1,
                    },
                )
            }),
    {
        if success {
            JobStatus::Done
        } else {
            match code {
                Some(c) => JobStatus::Failed(c),
                None => JobStatus::Failed(1),
            }
        }
    }
}

/// The line announcing a new background job: its id and its process id.
pub open spec fn announcement_text(job_id: u32, pid: u32) -> Seq<char> {
    "["@ + crate::utils::text::decimal(job_id as nat) + "] "@ + crate::utils::text::decimal(pid as nat)
        + "\n"@
}

/// The line announcing job `job_id`, running as process `pid`.
pub fn job_announcement(job_id: u32, pid: u32) -> (s: String)
    ensures
        s@ == announcement_text(job_id, pid),
{
    let mut s = String::from_str("[");
    s.append(usize_to_decimal(job_id as usize).as_str());
    s.append("] ");
    s.append(usize_to_decimal(pid as usize).as_str());
    s.append("\n");
    s
}

impl Default for JobStatus {
    fn default() -> (s: Self)
        ensures
            s == JobStatus::Running,
    {
        JobStatus::Running
    }
}

/// A command started in the background. The process itself is held by the
/// caller; the job records what the listings show.
#[derive(Debug)]
pub struct Job {
    status: JobStatus,
    pid: u32,
    id: u32,
    cmd: String,
}

/// A job as a mathematical value.
pub struct SpecJob {
    pub status: JobStatus,
    pub pid: u32,
    pub id: u32,
    pub cmd: Seq<char>,
}

impl DeepView for Job {
    type V = SpecJob;

    closed spec fn deep_view(&self) -> SpecJob {
        SpecJob { status: self.status, pid: self.pid, id: self.id, cmd: self.cmd@ }
    }
}

/// The jobs started in the background and not yet reported finished.
#[derive(Debug)]
pub struct JobState {
    jobs: Vec<Job>,
}

/// Job ids are positive and no two jobs share one.
pub open spec fn jobs_well_formed(js: Seq<SpecJob>) -> bool {
    &&& forall|i: int| 0 <= i < js.len() ==> #[trigger] js[i].id >= 1
    &&& forall|i: int, j: int| 0 <= i < j < js.len() ==> #[trigger] js[i].id != #[trigger] js[j].id
}

/// Some job has id `id`.
pub open spec fn id_in_use(js: Seq<SpecJob>, id: int) -> bool {
    exists|i: int| 0 <= i < js.len() && #[trigger] js[i].id == id
}

/// `id` is the smallest positive id no job has.
pub open spec fn is_lowest_free_id(js: Seq<SpecJob>, id: int) -> bool {
    &&& id >= 1
    &&& !id_in_use(js, id)
    &&& forall|k: int| 1 <= k < id ==> #[trigger] id_in_use(js, k)
}

/// Whether a job keeps its place when job `id` is removed.
pub open spec fn not_job(id: u32) -> spec_fn(SpecJob) -> bool {
    |j: SpecJob| j.id != id
}

/// Whether a job is still running.
pub open spec fn still_running() -> spec_fn(SpecJob) -> bool {
    |j: SpecJob| j.status == JobStatus::Running
}

/// Whether a job has finished.
pub open spec fn finished() -> spec_fn(SpecJob) -> bool {
    |j: SpecJob| j.status != JobStatus::Running
}

/// One line of a job listing.
pub open spec fn job_line(j: SpecJob) -> Seq<char> {
    "["@ + crate::utils::text::decimal(j.id as nat) + "]  +/- "@ + status_text(j.status) + "    "@
        + j.cmd + "\n"@
}

/// The lines of the given jobs, in order.
pub open spec fn job_lines(js: Seq<SpecJob>) -> Seq<char>
    decreases js.len(),
{
    if js.len() == 0 {
        seq![]
    } else {
        job_lines(js.drop_last()) + job_line(js.last())
    }
}

/// A job listing: one line per job and a blank line after them, or nothing
/// at all when there are no jobs.
pub open spec fn job_listing(js: Seq<SpecJob>) -> Seq<char> {
    if js.len() == 0 {
        seq![]
    } else {
        job_lines(js) + "\n"@
    }
}

/// Filtering with a predicate that holds of everything keeps everything.
proof fn lemma_filter_all(s: Seq<SpecJob>, n: int, pred: spec_fn(SpecJob) -> bool)
    requires
        0 <= n <= s.len(),
        forall|j: SpecJob| #[trigger] pred(j),
    ensures
        s.take(n).filter(pred) == s.take(n),
    decreases n,
{
    if n > 0 {
        lemma_filter_step(s, n - 1, pred);
        lemma_filter_all(s, n - 1, pred);
        assert(s.take(n - 1) + seq![s[n - 1]] =~= s.take(n));
    } else {
        reveal(Seq::filter);
        assert(s.take(0) =~= Seq::<SpecJob>::empty());
    }
}

/// Filtering the first `k + 1` items adds item `k` when it is kept.
pub proof fn lemma_filter_step<A>(s: Seq<A>, k: int, pred: spec_fn(A) -> bool)
    requires
        0 <= k < s.len(),
    ensures
        s.take(k + 1).filter(pred) == s.take(k).filter(pred) + (if pred(s[k]) {
            seq![s[k]]
        } else {
            Seq::<A>::empty()
        }),
{
    reveal(Seq::filter);
    assert(s.take(k + 1).drop_last() =~= s.take(k));
    assert(s.take(k + 1).last() == s[k]);
    if pred(s[k]) {
        assert(s.take(k).filter(pred).push(s[k]) =~= s.take(k).filter(pred) + seq![s[k]]);
    } else {
        assert(s.take(k).filter(pred) + Seq::<A>::empty() =~= s.take(k).filter(pred));
    }
}

/// Removing job `id` frees its id: when every smaller id is still taken,
/// `id` is the id the next pushed job gets, and no other job loses its id.
pub proof fn lemma_removed_id_is_reused(js: Seq<SpecJob>, id: u32)
    requires
        jobs_well_formed(js),
        id_in_use(js, id as int),
        forall|k: int| 1 <= k < id ==> #[trigger] id_in_use(js, k),
    ensures
        is_lowest_free_id(js.filter(not_job(id)), id as int),
        forall|k: int| k != id ==> (#[trigger] id_in_use(js.filter(not_job(id)), k) <==> id_in_use(js, k)),
{
    let rest = js.filter(not_job(id));
    let w = choose|w: int| 0 <= w < js.len() && #[trigger] js[w].id == id;
    assert(js[w].id >= 1);
    assert forall|k: int| k != id implies (#[trigger] id_in_use(rest, k) <==> id_in_use(js, k)) by {
        if id_in_use(js, k) {
            let v = choose|v: int| 0 <= v < js.len() && #[trigger] js[v].id == k;
            js.lemma_filter_contains(not_job(id), v);
            let u = choose|u: int| 0 <= u < rest.len() && rest[u] == js[v];
            assert(rest[u].id == k);
        }
        if id_in_use(rest, k) {
            let u = choose|u: int| 0 <= u < rest.len() && #[trigger] rest[u].id == k;
            assert(rest.contains(rest[u]));
            js.lemma_filter_contains_rev(not_job(id), rest[u]);
            let v = choose|v: int| 0 <= v < js.len() && js[v] == rest[u];
            assert(js[v].id == k);
        }
    }
    if id_in_use(rest, id as int) {
        let u = choose|u: int| 0 <= u < rest.len() && #[trigger] rest[u].id == id;
        js.lemma_filter_pred(not_job(id), u);
    }
    assert forall|k: int| 1 <= k < id implies #[trigger] id_in_use(rest, k) by {
        assert(id_in_use(js, k));
    }
}

proof fn lemma_set_bit(m: u64, s: u64, b: u64)
    by (bit_vector)
    requires
        s < 64,
        b < 64,
    ensures
        ((m | (1u64 << s)) >> b) & 1u64 == 1u64 <==> ((m >> b) & 1u64 == 1u64 || b == s),
{
}

proof fn lemma_not_bit(m: u64, b: u64)
    by (bit_vector)
    requires
        b < 64,
    ensures
        ((!m) >> b) & 1u64 == 1u64 <==> (m >> b) & 1u64 != 1u64,
        ((!m) >> b) & 1u64 == 0u64 <==> (m >> b) & 1u64 == 1u64,
{
}

proof fn lemma_empty_bits(b: u64)
    by (bit_vector)
    requires
        b < 64,
    ensures
        (0u64 >> b) & 1u64 != 1u64,
{
}

impl Job {
    /// The job's number, as listings show it.
    pub fn id(&self) -> (r: u32)
        ensures
            r == self.deep_view().id,
    {
        self.id
    }
}

impl Default for JobState {
    fn default() -> (s: JobState)
        ensures
            s.jobs_view() == Seq::<SpecJob>::empty(),
            s.wf(),
    {
        JobState::new()
    }
}

impl JobState {
    /// The jobs, oldest first.
    pub closed spec fn jobs_view(&self) -> Seq<SpecJob> {
        self.jobs.deep_view()
    }

    /// Job ids are positive and distinct.
    #[verifier::type_invariant]
    spec fn inv(&self) -> bool {
        jobs_well_formed(self.jobs.deep_view())
    }

    /// Job ids are positive and distinct (every job state keeps this).
    pub open spec fn wf(&self) -> bool {
        jobs_well_formed(self.jobs_view())
    }

    /// No jobs.
    pub fn new() -> (s: JobState)
        ensures
            s.jobs_view() == Seq::<SpecJob>::empty(),
            s.wf(),
    {
        let s = JobState { jobs: Vec::new() };
        assert(s.jobs_view() =~= Seq::<SpecJob>::empty());
        s
    }

    /// The smallest positive id that no job has.
    fn get_next_job_id(&self) -> (r: u32)
        requires
            forall|i: int| 0 <= i < self.jobs_view().len() ==> #[trigger] self.jobs_view()[i].id <= 64,
        ensures
            is_lowest_free_id(self.jobs_view(), r as int),
            r <= 65,
    {
        proof {
            use_type_invariant(self);
        }
        let ghost js = self.jobs_view();
        let mut mask: u64 = 0;
        let mut i: usize = 0;
        assert forall|b: u64| b < 64 implies (((mask >> b) & 1u64 == 1u64) <==> id_in_use(js.take(0), b + 1)) by {
            lemma_empty_bits(b);
        }
        while i < self.jobs.len()
            invariant
                js == self.jobs_view(),
                i <= self.jobs.len(),
                forall|k: int| 0 <= k < js.len() ==> #[trigger] js[k].id <= 64,
                forall|k: int| 0 <= k < js.len() ==> #[trigger] js[k].id >= 1,
                forall|b: u64|
                    b < 64 ==> (((#[trigger] (mask >> b) & 1u64) == 1u64) <==> id_in_use(
                        js.take(i as int),
                        b + 1,
                    )),
            decreases self.jobs.len() - i,
        {
            let id = self.jobs[i].id;
            assert(js[i as int].id == id);
            let s = (id - 1) as u64;
            let ghost old_mask = mask;
            mask = mask | (1u64 << s);
            assert forall|b: u64| b < 64 implies (((mask >> b) & 1u64 == 1u64) <==> id_in_use(js.take(i + 1), b + 1)) by {
                lemma_set_bit(old_mask, s, b);
                if id_in_use(js.take(i + 1), b + 1) {
                    let w = choose|w: int| 0 <= w < js.take(i + 1).len() && #[trigger] js.take(i + 1)[w].id == b + 1;
                    if w < i {
                        assert(js.take(i as int)[w] == js.take(i + 1)[w]);
                    }
                }
                if id_in_use(js.take(i as int), b + 1) {
                    let w = choose|w: int| 0 <= w < js.take(i as int).len() && #[trigger] js.take(i as int)[w].id == b + 1;
                    assert(js.take(i + 1)[w] == js.take(i as int)[w]);
                }
                if b == s {
                    assert(js.take(i + 1)[i as int].id == b + 1);
                }
            }
            i = i + 1;
        }
        assert(js.take(i as int) =~= js);
        let t = (!mask).trailing_zeros();
        proof {
            vstd::std_specs::bits::axiom_u64_trailing_zeros(!mask);
            assert forall|k: int| 1 <= k < t + 1 implies #[trigger] id_in_use(js, k) by {
                let b = (k - 1) as u64;
                lemma_not_bit(mask, b);
            }
            if t < 64 {
                lemma_not_bit(mask, t as u64);
            } else {
                if id_in_use(js, 65) {
                    let w = choose|w: int| 0 <= w < js.len() && #[trigger] js[w].id == 65;
                    assert(js[w].id <= 64);
                }
            }
        }
        t + 1
    }

    /// Records a new background job with the smallest free id, running
    /// `cmd` as process `pid`, and returns its id.
    pub fn push_job(&mut self, pid: u32, cmd: String) -> (r: u32)
        requires
            forall|i: int| 0 <= i < old(self).jobs_view().len() ==> #[trigger] old(self).jobs_view()[i].id <= 64,
        ensures
            is_lowest_free_id(old(self).jobs_view(), r as int),
            final(self).jobs_view() == old(self).jobs_view().push(
                SpecJob { status: JobStatus::Running, pid, id: r, cmd: cmd@ },
            ),
            final(self).wf(),
    {
        proof {
            use_type_invariant(&*self);
        }
        let job_id = self.get_next_job_id();
        let mut jobs: Vec<Job> = Vec::new();
        std::mem::swap(&mut jobs, &mut self.jobs);
        let ghost before = jobs.deep_view();
        let job = Job { status: JobStatus::Running, pid, id: job_id, cmd };
        jobs.push(job);
        assert(jobs.deep_view() =~= before.push(job.deep_view()));
        proof {
            assert forall|i: int, j: int| 0 <= i < j < jobs.deep_view().len() implies #[trigger] jobs.deep_view()[i].id != #[trigger] jobs.deep_view()[j].id by {
                if j == before.len() {
                    assert(before[i].id == jobs.deep_view()[i].id);
                    if before[i].id == job_id {
                        assert(id_in_use(before, job_id as int));
                    }
                }
            }
        }
        self.jobs = jobs;
        job_id
    }

    /// Forgets job `job_id`; the other jobs keep their order.
    pub fn remove_job(&mut self, job_id: u32)
        ensures
            final(self).jobs_view() == old(self).jobs_view().filter(not_job(job_id)),
            final(self).wf(),
    {
        proof {
            use_type_invariant(&*self);
        }
        let mut jobs: Vec<Job> = Vec::new();
        std::mem::swap(&mut jobs, &mut self.jobs);
        let ghost orig = jobs.deep_view();
        let ghost pred = not_job(job_id);
        let mut i: usize = 0;
        let ghost mut k: int = 0;
        assert(orig.take(0).filter(pred) =~= Seq::<SpecJob>::empty()) by {
            reveal(Seq::filter);
        }
        assert(orig =~= orig.take(0).filter(pred) + orig.skip(0));
        while i < jobs.len()
            invariant
                0 <= k <= orig.len(),
                i as int == orig.take(k).filter(pred).len(),
                jobs.deep_view() == orig.take(k).filter(pred) + orig.skip(k),
                jobs_well_formed(orig),
                jobs_well_formed(jobs.deep_view()),
                pred == not_job(job_id),
            decreases jobs.len() - i,
        {
            let ghost before = jobs.deep_view();
            assert(before[i as int] == orig[k]);
            proof {
                lemma_filter_step(orig, k, pred);
            }
            if jobs[i].id == job_id {
                jobs.remove(i);
                assert(jobs.deep_view() =~= before.remove(i as int));
                assert(jobs.deep_view() =~= orig.take(k + 1).filter(pred) + orig.skip(k + 1));
            } else {
                assert(orig.take(k + 1).filter(pred) =~= orig.take(k).filter(pred).push(orig[k]));
                assert(before =~= orig.take(k + 1).filter(pred) + orig.skip(k + 1));
                i = i + 1;
            }
            proof {
                k = k + 1;
            }
        }
        assert(orig.skip(k).len() == 0);
        assert(orig.take(k) =~= orig);
        assert(jobs.deep_view() =~= orig.filter(pred));
        self.jobs = jobs;
    }

    /// Keeps only the jobs still running.
    pub fn clear_done_jobs(&mut self)
        ensures
            final(self).jobs_view() == old(self).jobs_view().filter(still_running()),
            final(self).wf(),
    {
        proof {
            use_type_invariant(&*self);
        }
        let mut jobs: Vec<Job> = Vec::new();
        std::mem::swap(&mut jobs, &mut self.jobs);
        let ghost orig = jobs.deep_view();
        let ghost pred = still_running();
        let mut i: usize = 0;
        let ghost mut k: int = 0;
        assert(orig.take(0).filter(pred) =~= Seq::<SpecJob>::empty()) by {
            reveal(Seq::filter);
        }
        assert(orig =~= orig.take(0).filter(pred) + orig.skip(0));
        while i < jobs.len()
            invariant
                0 <= k <= orig.len(),
                i as int == orig.take(k).filter(pred).len(),
                jobs.deep_view() == orig.take(k).filter(pred) + orig.skip(k),
                jobs_well_formed(orig),
                jobs_well_formed(jobs.deep_view()),
                pred == still_running(),
            decreases jobs.len() - i,
        {
            let ghost before = jobs.deep_view();
            assert(before[i as int] == orig[k]);
            proof {
                lemma_filter_step(orig, k, pred);
            }
            let running = match jobs[i].status {
                JobStatus::Running => true,
                _ => false,
            };
            if !running {
                jobs.remove(i);
                assert(jobs.deep_view() =~= before.remove(i as int));
                assert(jobs.deep_view() =~= orig.take(k + 1).filter(pred) + orig.skip(k + 1));
            } else {
                assert(orig.take(k + 1).filter(pred) =~= orig.take(k).filter(pred).push(orig[k]));
                assert(before =~= orig.take(k + 1).filter(pred) + orig.skip(k + 1));
                i = i + 1;
            }
            proof {
                k = k + 1;
            }
        }
        assert(orig.skip(k).len() == 0);
        assert(orig.take(k) =~= orig);
        assert(jobs.deep_view() =~= orig.filter(pred));
        self.jobs = jobs;
    }

    /// Whether every job id is at most 64, the range the id allocation of
    /// `push_job` covers.
    pub fn ids_within_limit(&self) -> (r: bool)
        ensures
            r == forall|i: int| 0 <= i < self.jobs_view().len() ==> #[trigger] self.jobs_view()[i].id <= 64,
    {
        let ghost js = self.jobs_view();
        let mut i: usize = 0;
        while i < self.jobs.len()
            invariant
                js == self.jobs_view(),
                i <= self.jobs.len(),
                forall|k: int| 0 <= k < i ==> #[trigger] js[k].id <= 64,
            decreases self.jobs.len() - i,
        {
            assert(js[i as int] == self.jobs[i as int].deep_view());
            if self.jobs[i].id > 64 {
                assert(self.jobs_view()[i as int].id > 64);
                return false;
            }
            i = i + 1;
        }
        true
    }

    /// The job with id `job_id`, if there is one.
    pub fn get_job(&self, job_id: u32) -> (r: Option<&Job>)
        ensures
            r is Some <==> id_in_use(self.jobs_view(), job_id as int),
            r matches Some(j) ==> j.deep_view().id == job_id && exists|i: int|
                0 <= i < self.jobs_view().len() && self.jobs_view()[i] == j.deep_view(),
    {
        let ghost js = self.jobs_view();
        let mut i: usize = 0;
        while i < self.jobs.len()
            invariant
                js == self.jobs_view(),
                i <= self.jobs.len(),
                forall|k: int| 0 <= k < i ==> #[trigger] js[k].id != job_id,
            decreases self.jobs.len() - i,
        {
            assert(js[i as int] == self.jobs[i as int].deep_view());
            if self.jobs[i].id == job_id {
                assert(js[i as int].id == job_id);
                return Some(&self.jobs[i]);
            }
            i = i + 1;
        }
        None
    }

    /// Sets the status of job `job_id`; nothing else changes.
    pub fn update_job_status(&mut self, job_id: u32, status: JobStatus)
        ensures
            final(self).wf(),
            final(self).jobs_view().len() == old(self).jobs_view().len(),
            forall|i: int|
                0 <= i < old(self).jobs_view().len() ==> #[trigger] final(self).jobs_view()[i] == if old(
                    self,
                ).jobs_view()[i].id == job_id {
                    SpecJob { status, ..old(self).jobs_view()[i] }
                } else {
                    old(self).jobs_view()[i]
                },
    {
        proof {
            use_type_invariant(&*self);
        }
        let mut jobs: Vec<Job> = Vec::new();
        std::mem::swap(&mut jobs, &mut self.jobs);
        let ghost orig = jobs.deep_view();
        let mut i: usize = 0;
        while i < jobs.len()
            invariant
                orig == old(self).jobs_view(),
                jobs_well_formed(orig),
                jobs.deep_view() == orig,
                i <= jobs.len(),
                forall|k: int| 0 <= k < i ==> #[trigger] orig[k].id != job_id,
            decreases jobs.len() - i,
        {
            assert(orig[i as int] == jobs[i as int].deep_view());
            if jobs[i].id == job_id {
                let mut job = jobs.remove(i);
                job.status = status;
                jobs.insert(i, job);
                assert(jobs.deep_view() =~= orig.update(i as int, SpecJob { status, ..orig[i as int] }));
                self.jobs = jobs;
                return;
            }
            i = i + 1;
        }
        self.jobs = jobs;
    }

    /// The listing of the jobs, or of the finished ones only.
    fn job_formatter(&self, only_finished: bool) -> (s: String)
        ensures
            s@ == job_listing(
                if only_finished {
                    self.jobs_view().filter(finished())
                } else {
                    self.jobs_view()
                },
            ),
    {
        let ghost js = self.jobs_view();
        let ghost pred = if only_finished {
            finished()
        } else {
            |j: SpecJob| true
        };
        let mut out = String::new();
        let mut count: usize = 0;
        let mut i: usize = 0;
        assert(js.take(0).filter(pred) =~= Seq::<SpecJob>::empty()) by {
            reveal(Seq::filter);
        }
        while i < self.jobs.len()
            invariant
                js == self.jobs_view(),
                i <= self.jobs.len(),
                out@ == job_lines(js.take(i as int).filter(pred)),
                count as int == js.take(i as int).filter(pred).len(),
                count <= i,
                pred == (if only_finished {
                    finished()
                } else {
                    |j: SpecJob| true
                }),
            decreases self.jobs.len() - i,
        {
            let job = &self.jobs[i];
            assert(js[i as int] == job.deep_view());
            proof {
                lemma_filter_step(js, i as int, pred);
            }
            let shown = match job.status {
                JobStatus::Running => !only_finished,
                _ => true,
            };
            if shown {
                let ghost before = js.take(i as int).filter(pred);
                out.append("[");
                out.append(usize_to_decimal(job.id as usize).as_str());
                out.append("]  +/- ");
                out.append(job.status.to_string().as_str());
                out.append("    ");
                out.append(job.cmd.as_str());
                out.append("\n");
                assert(before + seq![js[i as int]] =~= before.push(js[i as int]));
                assert(before.push(js[i as int]).drop_last() =~= before);
                assert(out@ =~= job_lines(before) + job_line(js[i as int]));
                count = count + 1;
            } else {
                assert(js.take(i + 1).filter(pred) =~= js.take(i as int).filter(pred));
            }
            i = i + 1;
        }
        assert(js.take(i as int) =~= js);
        proof {
            if !only_finished {
                assert(js.filter(pred) =~= js) by {
                    assert forall|n: int| 0 <= n <= js.len() implies #[trigger] js.take(n).filter(pred) == js.take(n) by {
                        lemma_filter_all(js, n, pred);
                    }
                }
            }
        }
        if count > 0 {
            out.append("\n");
        }
        out
    }

    /// Lists every job, then forgets the finished ones.
    pub fn format_jobs(&mut self) -> (s: String)
        ensures
            s@ == job_listing(old(self).jobs_view()),
            final(self).jobs_view() == old(self).jobs_view().filter(still_running()),
            final(self).wf(),
    {
        let formatted_jobs = self.job_formatter(false);
        self.clear_done_jobs();
        formatted_jobs
    }

    /// Lists the finished jobs, then forgets them.
    pub fn done_jobs_report(&mut self) -> (s: String)
        ensures
            s@ == job_listing(old(self).jobs_view().filter(finished())),
            final(self).jobs_view() == old(self).jobs_view().filter(still_running()),
            final(self).wf(),
    {
        let formatted_jobs = self.job_formatter(true);
        self.clear_done_jobs();
        formatted_jobs
    }
}

} // verus!
