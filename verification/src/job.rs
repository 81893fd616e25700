use vstd::prelude::*;

verus! {

/// What the choice among the jobs of a commit reads of a job.
#[derive(Debug, Clone, Copy, PartialEq, Eq)]
pub struct Job {
    /// Whether the job builds and runs, so that it has results.
    pub build_and_run: bool,
    /// When the job finished, if it has: seconds since the epoch, and
    /// nanoseconds within the second.
    pub finished_at: Option<(i64, u32)>,
}

/// Whether `a` is later than `b`. A job that has finished is later than one
/// that has not.
pub open spec fn later(a: Option<(i64, u32)>, b: Option<(i64, u32)>) -> bool {
    match (a, b) {
        (Some(x), Some(y)) => x.0 > y.0 || (x.0 == y.0 && x.1 > y.1),
        (Some(_), None) => true,
        _ => false,
    }
}

/// Whether the job at position `k` is the one whose results stand for the
/// commit: it builds and runs, no such job finished later, and every such
/// job before it finished earlier.
pub open spec fn is_latest_run_job(jobs: Seq<Job>, k: int) -> bool {
    &&& 0 <= k < jobs.len()
    &&& jobs[k].build_and_run
    &&& forall|j: int|
        0 <= j < jobs.len() && (#[trigger] jobs[j]).build_and_run ==> !later(
            jobs[j].finished_at,
            jobs[k].finished_at,
        )
    &&& forall|j: int|
        0 <= j < k && (#[trigger] jobs[j]).build_and_run ==> later(
            jobs[k].finished_at,
            jobs[j].finished_at,
        )
}

/// Only one job is the one whose results stand for the commit.
pub proof fn lemma_latest_run_job_unique(jobs: Seq<Job>, k1: int, k2: int)
    requires
        is_latest_run_job(jobs, k1),
        is_latest_run_job(jobs, k2),
    ensures
        k1 == k2,
{
    if k1 < k2 {
        assert(jobs[k1].build_and_run);
    } else if k2 < k1 {
        assert(jobs[k2].build_and_run);
    }
}

/// Decides [`later`].
pub fn is_later(a: Option<(i64, u32)>, b: Option<(i64, u32)>) -> (r: bool)
    ensures
        r == later(a, b),
{
    match a {
        Some(x) => match b {
            Some(y) => x.0 > y.0 || (x.0 == y.0 && x.1 > y.1),
            None => true,
        },
        None => false,
    }
}

/// Chooses among the jobs of a commit the one whose results stand for it:
/// of the jobs that build and run, the one that finished last, and of
/// several such the first. There is none where no job builds and runs.
pub fn latest_run_job(jobs: &Vec<Job>) -> (chosen: Option<usize>)
    ensures
        match chosen {
            Some(k) => is_latest_run_job(jobs@, k as int),
            None => forall|j: int| 0 <= j < jobs@.len() ==> !(#[trigger] jobs@[j]).build_and_run,
        },
{
    let mut chosen: Option<usize> = None;
    let mut i: usize = 0;
    while i < jobs.len()
        invariant
            i <= jobs@.len(),
            match chosen {
                Some(k) => is_latest_run_job(jobs@.take(i as int), k as int),
                None => forall|j: int| 0 <= j < i ==> !(#[trigger] jobs@[j]).build_and_run,
            },
        decreases jobs@.len() - i,
    {
        let ghost seen = jobs@.take(i as int);
        let ghost next = jobs@.take(i + 1);
        assert forall|j: int| 0 <= j < i implies #[trigger] next[j] == seen[j] by {}
        if jobs[i].build_and_run {
            match chosen {
                Some(k) => {
                    if is_later(jobs[i].finished_at, jobs[k].finished_at) {
                        assert forall|j: int|
                            0 <= j < i && (#[trigger] next[j]).build_and_run implies later(
                            next[i as int].finished_at,
                            next[j].finished_at,
                        ) by {
                            assert(seen[j].build_and_run);
                        }
                        chosen = Some(i);
                    } else {
                        assert forall|j: int|
                            0 <= j < i + 1 && (#[trigger] next[j]).build_and_run implies !later(
                            next[j].finished_at,
                            next[k as int].finished_at,
                        ) by {
                            if j < i {
                                assert(seen[j].build_and_run);
                            }
                        }
                        assert forall|j: int|
                            0 <= j < k && (#[trigger] next[j]).build_and_run implies later(
                            next[k as int].finished_at,
                            next[j].finished_at,
                        ) by {
                            assert(seen[j].build_and_run);
                        }
                    }
                },
                None => {
                    chosen = Some(i);
                },
            }
        } else {
            match chosen {
                Some(k) => {
                    assert forall|j: int|
                        0 <= j < i + 1 && (#[trigger] next[j]).build_and_run implies !later(
                        next[j].finished_at,
                        next[k as int].finished_at,
                    ) by {
                        assert(seen[j].build_and_run);
                    }
                    assert forall|j: int|
                        0 <= j < k && (#[trigger] next[j]).build_and_run implies later(
                        next[k as int].finished_at,
                        next[j].finished_at,
                    ) by {
                        assert(seen[j].build_and_run);
                    }
                },
                None => {},
            }
        }
        i += 1;
    }
    assert(jobs@.take(jobs@.len() as int) == jobs@);
    chosen
}

} // verus!
