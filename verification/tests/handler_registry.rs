use gpt_for_uds::registry::{remove_completed_handles, retain_running};
use tokio::task::JoinHandle;

#[test]
fn entries_flagged_finished_are_swept_and_order_is_kept() {
    let mut entries = vec!["a", "b", "c", "d", "e"];
    retain_running(&mut entries, &vec![false, true, false, true, false]);
    assert_eq!(entries, vec!["a", "c", "e"]);
}

#[test]
fn with_nothing_finished_everything_stays() {
    let mut entries = vec![1, 2, 3];
    retain_running(&mut entries, &vec![false, false, false]);
    assert_eq!(entries, vec![1, 2, 3]);
}

#[test]
fn with_everything_finished_nothing_stays() {
    let mut entries = vec![1, 2, 3];
    retain_running(&mut entries, &vec![true, true, true]);
    assert!(entries.is_empty());
    let mut none: Vec<u8> = Vec::new();
    retain_running(&mut none, &Vec::new());
    assert!(none.is_empty());
}

#[test]
fn entries_without_a_flag_count_as_running() {
    let mut entries = vec![1, 2, 3, 4];
    retain_running(&mut entries, &vec![true, false]);
    assert_eq!(entries, vec![2, 3, 4]);
    let mut entries = vec![1, 2];
    retain_running(&mut entries, &vec![false, true, true, true]);
    assert_eq!(entries, vec![1]);
}

#[test]
fn finished_handlers_leave_the_record() {
    let runtime = tokio::runtime::Builder::new_current_thread().build().unwrap();
    runtime.block_on(async {
        let mut handles: Vec<JoinHandle<()>> = vec![
            tokio::spawn(async {}),
            tokio::spawn(std::future::pending::<()>()),
            tokio::spawn(async {}),
        ];
        // Nothing has run yet: every handler is still there.
        assert!(handles.iter().all(|handle| !handle.is_finished()));
        remove_completed_handles(&mut handles);
        assert_eq!(handles.len(), 3);
        // Let the spawned tasks run; two of them end at once.
        for _ in 0..10 {
            tokio::task::yield_now().await;
        }
        let finished: Vec<bool> = handles.iter().map(|handle| handle.is_finished()).collect();
        assert_eq!(finished, vec![true, false, true]);
        remove_completed_handles(&mut handles);
        assert_eq!(handles.len(), 1);
        assert!(!handles[0].is_finished());
        handles[0].abort();
    });
}
