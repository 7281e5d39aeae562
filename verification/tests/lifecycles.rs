use treescan::lifecycle::{ChannelEnds, ChannelError, TaskEvent, TaskProgress, TaskState};

fn progress(state: TaskState, outstanding: usize, joins: bool) -> TaskProgress {
    TaskProgress { state, outstanding, joins }
}

#[test]
fn a_joining_task_waits_for_its_children() {
    let mut task = TaskProgress::new(true);
    assert_eq!(task, progress(TaskState::Created, 0, true));
    assert!(task.apply(TaskEvent::Started));
    assert_eq!(task.state, TaskState::Listing);
    assert!(task.apply(TaskEvent::Listed));
    assert!(task.apply(TaskEvent::ChildSpawned));
    assert!(task.apply(TaskEvent::FileMatched));
    assert!(task.apply(TaskEvent::ChildSpawned));
    assert_eq!(task, progress(TaskState::Working, 2, true));
    assert!(task.apply(TaskEvent::Exhausted));
    assert_eq!(task, progress(TaskState::Draining, 2, true));
    assert!(!task.is_finished());
    assert!(task.apply(TaskEvent::ChildEnded { failed: true }));
    assert_eq!(task, progress(TaskState::Draining, 1, true));
    assert!(task.apply(TaskEvent::ChildEnded { failed: false }));
    assert_eq!(task, progress(TaskState::Done, 0, true));
    assert!(task.is_finished());
}

#[test]
fn a_streaming_task_is_done_with_its_listing() {
    let mut task = TaskProgress::new(false);
    assert!(task.apply(TaskEvent::Started));
    assert!(task.apply(TaskEvent::Listed));
    assert!(task.apply(TaskEvent::ChildSpawned));
    assert!(task.apply(TaskEvent::Exhausted));
    assert_eq!(task, progress(TaskState::Done, 1, false));
}

#[test]
fn a_joining_task_without_children_is_done_at_once() {
    let mut task = TaskProgress::new(true);
    assert!(task.apply(TaskEvent::Started));
    assert!(task.apply(TaskEvent::Listed));
    assert!(task.apply(TaskEvent::Exhausted));
    assert_eq!(task, progress(TaskState::Done, 0, true));
}

#[test]
fn children_may_end_while_the_parent_still_works() {
    let mut task = progress(TaskState::Working, 2, true);
    assert!(task.apply(TaskEvent::ChildEnded { failed: false }));
    assert_eq!(task, progress(TaskState::Working, 1, true));
    assert!(task.apply(TaskEvent::ChildEnded { failed: true }));
    assert!(!task.apply(TaskEvent::ChildEnded { failed: false }));
    assert_eq!(task, progress(TaskState::Working, 0, true));
}

#[test]
fn a_task_fails_only_while_listing() {
    let mut task = TaskProgress::new(true);
    assert!(!task.apply(TaskEvent::ListingFailed));
    assert!(task.apply(TaskEvent::Started));
    assert!(task.apply(TaskEvent::ListingFailed));
    assert_eq!(task, progress(TaskState::Failed, 0, true));
    assert!(task.is_finished());
    let mut working = progress(TaskState::Working, 0, true);
    assert!(!working.apply(TaskEvent::ListingFailed));
    assert_eq!(working, progress(TaskState::Working, 0, true));
}

#[test]
fn nothing_happens_to_a_finished_task() {
    let events = [
        TaskEvent::Started,
        TaskEvent::Listed,
        TaskEvent::ListingFailed,
        TaskEvent::ChildSpawned,
        TaskEvent::FileMatched,
        TaskEvent::Exhausted,
        TaskEvent::ChildEnded { failed: false },
        TaskEvent::ChildEnded { failed: true },
    ];
    for state in [TaskState::Done, TaskState::Failed] {
        for event in events {
            let mut task = progress(state, 0, true);
            assert!(!task.apply(event));
            assert_eq!(task, progress(state, 0, true));
        }
    }
}

#[test]
fn events_out_of_turn_are_refused() {
    let mut created = TaskProgress::new(false);
    assert!(!created.apply(TaskEvent::Listed));
    assert!(!created.apply(TaskEvent::ChildSpawned));
    assert!(!created.apply(TaskEvent::Exhausted));
    let mut listing = progress(TaskState::Listing, 0, false);
    assert!(!listing.apply(TaskEvent::Started));
    assert!(!listing.apply(TaskEvent::FileMatched));
    let mut draining = progress(TaskState::Draining, 1, true);
    assert!(!draining.apply(TaskEvent::ChildSpawned));
    assert!(!draining.apply(TaskEvent::Exhausted));
    let mut full = progress(TaskState::Working, usize::MAX, true);
    assert!(!full.apply(TaskEvent::ChildSpawned));
}

#[test]
fn only_a_failed_child_is_reported() {
    assert!(TaskProgress::reports(TaskEvent::ChildEnded { failed: true }));
    assert!(!TaskProgress::reports(TaskEvent::ChildEnded { failed: false }));
    assert!(!TaskProgress::reports(TaskEvent::ListingFailed));
}

#[test]
fn the_stream_is_complete_when_the_last_handle_is_released() {
    let mut ends = ChannelEnds::open();
    assert_eq!(ends, ChannelEnds { producers: 1, consumer_alive: true });
    assert!(!ends.is_complete());
    assert!(ends.attach());
    assert!(ends.attach());
    assert_eq!(ends.producers, 3);
    assert!(!ends.detach());
    assert!(!ends.detach());
    assert!(!ends.is_complete());
    assert!(ends.detach());
    assert!(ends.is_complete());
    assert!(!ends.attach());
    assert_eq!(ends.producers, 0);
}

#[test]
fn a_send_without_consumer_is_a_channel_error() {
    let mut ends = ChannelEnds::open();
    assert_eq!(ends.send(), Ok(()));
    ends.hang_up();
    assert_eq!(ends.send(), Err(ChannelError));
    assert_eq!(ends.producers, 1);
    let mut full = ChannelEnds { producers: usize::MAX, consumer_alive: true };
    assert!(!full.attach());
}
