//! Resident generation supervisor: the decisions of its work loop, its wake
//! request, and the registry of cancel flags of running generation jobs.
use vstd::prelude::*;
use crate::text::str_eq;

verus! {

/// Cancel flags of running generation jobs, by job id.
pub struct CancelRegistry {
    flags: Vec<(String, bool)>,
}

/// The map that a list of (job id, flag) pairs stands for.
pub open spec fn flag_map(s: Seq<(String, bool)>) -> Map<Seq<char>, bool>
    decreases s.len(),
{
    if s.len() == 0 {
        Map::empty()
    } else {
        flag_map(s.drop_last()).insert(s.last().0@, s.last().1)
    }
}

/// No job id occurs twice.
pub open spec fn distinct_ids(s: Seq<(String, bool)>) -> bool {
    forall|i: int, j: int| 0 <= i < j < s.len() ==> (#[trigger] s[i]).0@ != (#[trigger] s[j]).0@
}

proof fn lemma_flag_absent(s: Seq<(String, bool)>, k: Seq<char>)
    requires
        forall|i: int| 0 <= i < s.len() ==> (#[trigger] s[i]).0@ != k,
    ensures
        !flag_map(s).contains_key(k),
    decreases s.len(),
{
    if s.len() > 0 {
        let t = s.drop_last();
        assert forall|i: int| 0 <= i < t.len() implies (#[trigger] t[i]).0@ != k by {
            assert(t[i] == s[i]);
        }
        lemma_flag_absent(t, k);
        assert(s[s.len() - 1].0@ != k);
    }
}

proof fn lemma_flag_found(s: Seq<(String, bool)>, i: int)
    requires
        distinct_ids(s),
        0 <= i < s.len(),
    ensures
        flag_map(s).contains_key(s[i].0@),
        flag_map(s)[s[i].0@] == s[i].1,
    decreases s.len(),
{
    let t = s.drop_last();
    if i < s.len() - 1 {
        assert(distinct_ids(t)) by {
            assert forall|a: int, b: int| 0 <= a < b < t.len() implies (#[trigger] t[a]).0@ != (
            #[trigger] t[b]).0@ by {
                assert(t[a] == s[a] && t[b] == s[b]);
            }
        }
        assert(t[i] == s[i]);
        lemma_flag_found(t, i);
        assert(s[i].0@ != s[s.len() - 1].0@);
    }
}

proof fn lemma_flag_remove(s: Seq<(String, bool)>, i: int)
    requires
        distinct_ids(s),
        0 <= i < s.len(),
    ensures
        flag_map(s.remove(i)) =~= flag_map(s).remove(s[i].0@),
        distinct_ids(s.remove(i)),
    decreases s.len(),
{
    let t = s.drop_last();
    let k = s[i].0@;
    assert(distinct_ids(t)) by {
        assert forall|a: int, b: int| 0 <= a < b < t.len() implies (#[trigger] t[a]).0@ != (
        #[trigger] t[b]).0@ by {
            assert(t[a] == s[a] && t[b] == s[b]);
        }
    }
    assert(distinct_ids(s.remove(i))) by {
        assert forall|a: int, b: int| 0 <= a < b < s.remove(i).len() implies (
        #[trigger] s.remove(i)[a]).0@ != (#[trigger] s.remove(i)[b]).0@ by {
            let a0 = if a < i { a } else { a + 1 };
            let b0 = if b < i { b } else { b + 1 };
            assert(s.remove(i)[a] == s[a0] && s.remove(i)[b] == s[b0]);
        }
    }
    if i == s.len() - 1 {
        assert(s.remove(i) =~= t);
        assert forall|j: int| 0 <= j < t.len() implies (#[trigger] t[j]).0@ != k by {
            assert(t[j] == s[j]);
        }
        lemma_flag_absent(t, k);
    } else {
        assert(t[i] == s[i]);
        lemma_flag_remove(t, i);
        assert(s.remove(i) =~= t.remove(i).push(s.last()));
        assert(s.remove(i).drop_last() =~= t.remove(i));
        assert(s[s.len() - 1].0@ != k);
    }
}

impl CancelRegistry {
    /// Job ids with their flags.
    pub closed spec fn view(&self) -> Map<Seq<char>, bool> {
        flag_map(self.flags@)
    }

    /// The registry is well formed.
    pub closed spec fn wf(&self) -> bool {
        distinct_ids(self.flags@)
    }

    /// An empty registry.
    pub fn new() -> (r: CancelRegistry)
        ensures
            r.wf(),
            r.view() == Map::<Seq<char>, bool>::empty(),
    {
        CancelRegistry { flags: Vec::new() }
    }

    fn find(&self, job_id: &str) -> (r: Option<usize>)
        requires
            self.wf(),
        ensures
            r is None ==> !self.view().contains_key(job_id@),
            r is Some ==> r->0 < self.flags@.len() && self.flags@[r->0 as int].0@ == job_id@,
    {
        let mut i: usize = 0;
        while i < self.flags.len()
            invariant
                0 <= i <= self.flags@.len(),
                forall|j: int| 0 <= j < i ==> (#[trigger] self.flags@[j]).0@ != job_id@,
            decreases self.flags@.len() - i,
        {
            if str_eq(self.flags[i].0.as_str(), job_id) {
                return Some(i);
            }
            i = i + 1;
        }
        proof {
            lemma_flag_absent(self.flags@, job_id@);
        }
        None
    }

    /// Register a job with a lowered flag (replacing any earlier flag of that job).
    pub fn register(&mut self, job_id: &str)
        requires
            old(self).wf(),
        ensures
            final(self).wf(),
            final(self).view() == old(self).view().insert(job_id@, false),
    {
        self.set_flag(job_id, false);
    }

    fn set_flag(&mut self, job_id: &str, flag: bool)
        requires
            old(self).wf(),
        ensures
            final(self).wf(),
            final(self).view() == old(self).view().insert(job_id@, flag),
    {
        let ghost m0 = self.view();
        match self.find(job_id) {
            Some(i) => {
                proof {
                    lemma_flag_remove(self.flags@, i as int);
                }
                self.flags.remove(i);
            },
            None => {},
        }
        let ghost s1 = self.flags@;
        assert(flag_map(s1) =~= m0.remove(job_id@));
        assert(forall|j: int| 0 <= j < s1.len() ==> (#[trigger] s1[j]).0@ != job_id@) by {
            assert forall|j: int| 0 <= j < s1.len() implies (#[trigger] s1[j]).0@ != job_id@ by {
                lemma_flag_found(s1, j);
            }
        }
        self.flags.push((String::from_str(job_id), flag));
        proof {
            assert(self.flags@.drop_last() =~= s1);
            assert(distinct_ids(self.flags@)) by {
                assert forall|a: int, b: int| 0 <= a < b < self.flags@.len() implies (
                #[trigger] self.flags@[a]).0@ != (#[trigger] self.flags@[b]).0@ by {
                    assert(self.flags@[a] == s1[a]);
                    if b < s1.len() {
                        assert(self.flags@[b] == s1[b]);
                    }
                }
            }
            assert(self.view() =~= m0.insert(job_id@, flag));
        }
    }

    /// Raise the flag of a registered job; an unknown job changes nothing.
    pub fn request_cancel(&mut self, job_id: &str)
        requires
            old(self).wf(),
        ensures
            final(self).wf(),
            final(self).view() == (if old(self).view().contains_key(job_id@) {
                old(self).view().insert(job_id@, true)
            } else {
                old(self).view()
            }),
    {
        match self.find(job_id) {
            Some(i) => {
                proof {
                    lemma_flag_found(self.flags@, i as int);
                }
                self.set_flag(job_id, true);
            },
            None => {},
        }
    }

    /// Whether the job's flag is raised (false for a job that is not registered).
    pub fn is_cancelled(&self, job_id: &str) -> (r: bool)
        requires
            self.wf(),
        ensures
            r == (self.view().contains_key(job_id@) && self.view()[job_id@]),
    {
        match self.find(job_id) {
            Some(i) => {
                proof {
                    lemma_flag_found(self.flags@, i as int);
                }
                self.flags[i].1
            },
            None => false,
        }
    }

    /// Forget a job's flag.
    pub fn clear(&mut self, job_id: &str)
        requires
            old(self).wf(),
        ensures
            final(self).wf(),
            final(self).view() == old(self).view().remove(job_id@),
    {
        let ghost m0 = self.view();
        match self.find(job_id) {
            Some(i) => {
                proof {
                    lemma_flag_remove(self.flags@, i as int);
                }
                self.flags.remove(i);
            },
            None => {
                assert(m0.remove(job_id@) =~= m0);
            },
        }
    }
}

/// A registered job reads as not cancelled; after a cancel request it reads as
/// cancelled; once cleared it reads as not cancelled again. Requests for other
/// jobs leave its flag alone.
pub proof fn lemma_cancel_roundtrip(reg: CancelRegistry, job: Seq<char>, other: Seq<char>)
    requires
        other != job,
    ensures
        !reg.view().insert(job, false)[job],
        reg.view().insert(job, false).insert(job, true)[job],
        !reg.view().insert(job, true).remove(job).contains_key(job),
        reg.view().insert(job, false).insert(other, true)[job] == false,
        reg.view().insert(job, false).remove(other)[job] == false,
{
}

/// What the supervisor loop does next.
#[derive(Clone, Copy, Debug, PartialEq, Eq)]
pub enum LoopAction {
    /// Run the worker again at once.
    Continue,
    /// Run one cycle of the daily library feed.
    RunDailyCycle,
    /// Sleep this many milliseconds, then run the worker again.
    Sleep(u64),
}

/// State of the supervisor loop: a pending wake request and the number of
/// idle rounds in a row.
#[derive(Clone, Copy, Debug, PartialEq, Eq)]
pub struct Supervisor {
    pub wake_requested: bool,
    pub idle_ticks: u32,
}

/// `x + 1`, staying at `u32::MAX`.
pub open spec fn sat_inc(x: u32) -> u32 {
    if x == u32::MAX { x } else { (x + 1) as u32 }
}

impl Supervisor {
    /// A supervisor that has not run yet.
    pub fn new() -> (r: Supervisor)
        ensures
            r.wake_requested == false && r.idle_ticks == 0,
    {
        Supervisor { wake_requested: false, idle_ticks: 0 }
    }

    /// Ask the loop to wake soon (after an enqueue).
    pub fn request_wake(&mut self)
        ensures
            final(self).wake_requested,
            final(self).idle_ticks == old(self).idle_ticks,
    {
        self.wake_requested = true;
    }

    /// After one worker round that processed `processed` jobs (`None` when the
    /// round failed): run again at once after work; otherwise count a failed
    /// round as idle, and run the daily feed every fifteenth idle round
    /// (when the count is 5 modulo 15), else go to sleep.
    pub fn after_worker(&mut self, processed: Option<u32>) -> (r: LoopAction)
        ensures
            processed matches Some(n) && n > 0 ==> r == LoopAction::Continue && final(self).idle_ticks
                == 0 && final(self).wake_requested == old(self).wake_requested,
            !(processed matches Some(n) && n > 0) ==> {
                let idle = if processed is None { sat_inc(old(self).idle_ticks) } else { old(self).idle_ticks };
                if idle % 15 == 5 {
                    r == LoopAction::RunDailyCycle && final(self).idle_ticks == idle
                        && final(self).wake_requested == old(self).wake_requested
                } else {
                    Self::slept(old(self).wake_requested, idle, r, *final(self))
                }
            },
    {
        match processed {
            Some(n) => {
                if n > 0 {
                    self.idle_ticks = 0;
                    return LoopAction::Continue;
                }
            },
            None => {
                self.idle_ticks = self.idle_ticks.saturating_add(1);
            },
        }
        if self.idle_ticks % 15 == 5 {
            LoopAction::RunDailyCycle
        } else {
            self.sleep()
        }
    }

    /// After a daily feed cycle: run again at once when it did work, else sleep.
    pub fn after_daily(&mut self, did_work: bool) -> (r: LoopAction)
        ensures
            did_work ==> r == LoopAction::Continue && *final(self) == *old(self),
            !did_work ==> Self::slept(old(self).wake_requested, old(self).idle_ticks, r, *final(self)),
    {
        if did_work {
            LoopAction::Continue
        } else {
            self.sleep()
        }
    }

    /// Going to sleep: a pending wake request is consumed and gives a short
    /// nap with the idle count reset; otherwise the idle count grows and the
    /// nap is two seconds.
    pub open spec fn slept(wake: bool, idle: u32, r: LoopAction, after: Supervisor) -> bool {
        if wake {
            r == LoopAction::Sleep(50) && after.idle_ticks == 0 && !after.wake_requested
        } else {
            r == LoopAction::Sleep(2000) && after.idle_ticks == sat_inc(idle) && !after.wake_requested
        }
    }

    fn sleep(&mut self) -> (r: LoopAction)
        ensures
            Self::slept(old(self).wake_requested, old(self).idle_ticks, r, *final(self)),
    {
        if self.wake_requested {
            self.wake_requested = false;
            self.idle_ticks = 0;
            LoopAction::Sleep(50)
        } else {
            self.idle_ticks = self.idle_ticks.saturating_add(1);
            LoopAction::Sleep(2000)
        }
    }
}

/// A generation job as the supervision panel shows it.
pub struct JobView {
    pub id: String,
    pub need_id: Option<String>,
    pub status: String,
    pub stage: String,
    pub provider: Option<String>,
    pub model: Option<String>,
    pub prompt: String,
    pub negative_prompt: String,
    pub attempt: u32,
    pub max_attempts: u32,
    pub last_error: Option<String>,
    pub is_paid: bool,
    pub cost_kind: String,
    pub free_verified: bool,
    pub prompt_strategy: Option<String>,
    pub origin: String,
    pub cancel_requested: bool,
    pub created_at: String,
    pub updated_at: String,
}

/// Whether a job (as read from the store; `None` when it could not be read)
/// should stop: a cancel was requested or it is already cancelled.
pub fn is_cancel_requested(job: &Option<JobView>) -> (r: bool)
    ensures
        r == (job matches Some(j) && (j.cancel_requested || j.status@ == "cancelled"@)),
{
    match job {
        Some(j) => j.cancel_requested || str_eq(j.status.as_str(), "cancelled"),
        None => false,
    }
}

} // verus!
