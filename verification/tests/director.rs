use basic_game::director::{RunDirector, RunRequest, RunRequestKind, APPEND_BATCH_ROOMS};

#[test]
fn restart_is_queued_only_when_pressed() {
    let mut director = RunDirector::new();
    director.queue_run_controls(false, 9);
    assert_eq!(director.pending, None);
    director.queue_run_controls(true, 9);
    assert_eq!(
        director.pending,
        Some(RunRequest {
            kind: RunRequestKind::RestartNewSeed,
            seed: 9,
        })
    );
}

#[test]
fn pending_request_is_kept_until_taken() {
    let mut director = RunDirector::new();
    director.queue_run_controls(true, 1);
    director.queue_run_controls(true, 2);
    let taken = director.take_request();
    assert_eq!(taken.map(|request| request.seed), Some(1));
    assert_eq!(director.pending, None);
    assert_eq!(director.take_request(), None);
    director.queue_run_controls(true, 3);
    assert_eq!(director.take_request().map(|request| request.seed), Some(3));
}

#[test]
fn course_extends_near_the_tail_and_not_while_pending() {
    let mut director = RunDirector::new();
    assert_eq!(director.course_extension(16, 0), 0);
    assert_eq!(director.course_extension(16, 10), 0);
    assert_eq!(director.course_extension(16, 11), APPEND_BATCH_ROOMS);
    assert_eq!(director.course_extension(16, 15), APPEND_BATCH_ROOMS);
    assert_eq!(director.course_extension(16, 40), APPEND_BATCH_ROOMS);
    director.queue_run_controls(true, 5);
    assert_eq!(director.course_extension(16, 15), 0);
}
