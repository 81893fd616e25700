use ejlv_cli::job::{is_later, latest_run_job, Job};

fn run(finished_at: Option<(i64, u32)>) -> Job {
    Job { build_and_run: true, finished_at }
}

fn build(finished_at: Option<(i64, u32)>) -> Job {
    Job { build_and_run: false, finished_at }
}

#[test]
fn no_run_job_no_choice() {
    assert_eq!(latest_run_job(&vec![]), None);
    assert_eq!(latest_run_job(&vec![build(Some((5, 0))), build(None)]), None);
}

#[test]
fn single_run_job_is_chosen() {
    assert_eq!(latest_run_job(&vec![run(None)]), Some(0));
    assert_eq!(latest_run_job(&vec![build(Some((9, 0))), run(Some((1, 0)))]), Some(1));
}

#[test]
fn last_finished_run_job_is_chosen() {
    let jobs = vec![
        run(Some((100, 5))),
        build(Some((900, 0))),
        run(Some((300, 0))),
        run(None),
        run(Some((300, 1))),
        run(Some((200, 999))),
    ];
    assert_eq!(latest_run_job(&jobs), Some(4));
}

#[test]
fn of_equal_jobs_the_first_is_chosen() {
    assert_eq!(latest_run_job(&vec![run(Some((7, 7))), run(Some((7, 7)))]), Some(0));
    assert_eq!(latest_run_job(&vec![run(None), run(None)]), Some(0));
    assert_eq!(latest_run_job(&vec![run(None), run(Some((-5, 0))), run(None)]), Some(1));
}

#[test]
fn choice_agrees_with_a_stable_sort() {
    let jobs = vec![
        run(Some((3, 0))),
        run(None),
        run(Some((8, 1))),
        run(Some((8, 1))),
        run(Some((8, 0))),
        run(Some((-2, 4))),
    ];
    let mut order: Vec<usize> = (0..jobs.len()).collect();
    order.sort_by(|&a, &b| match (&jobs[a].finished_at, &jobs[b].finished_at) {
        (Some(x), Some(y)) => y.cmp(x),
        (Some(_), None) => std::cmp::Ordering::Less,
        (None, Some(_)) => std::cmp::Ordering::Greater,
        (None, None) => std::cmp::Ordering::Equal,
    });
    assert_eq!(latest_run_job(&jobs), Some(order[0]));
}

#[test]
fn later_is_by_seconds_then_nanoseconds() {
    assert!(is_later(Some((2, 0)), Some((1, 999_999_999))));
    assert!(is_later(Some((1, 1)), Some((1, 0))));
    assert!(is_later(Some((-1, 0)), None));
    assert!(!is_later(Some((1, 0)), Some((1, 0))));
    assert!(!is_later(None, Some((1, 0))));
    assert!(!is_later(None, None));
    assert!(!is_later(Some((1, 5)), Some((2, 0))));
}
