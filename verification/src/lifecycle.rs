//! The life of one traversal task, and the waiting for its children where a
//! total has to be complete before it is read.

use vstd::prelude::*;

verus! {

/// Where a task stands.
#[derive(Clone, Copy, Debug, PartialEq, Eq)]
pub enum TaskState {
    /// Made, not yet at work.
    Created,
    /// Listing its directory.
    Listing,
    /// Going through the listing: starting child tasks and matching files.
    Working,
    /// Through with the listing, waiting for its children.
    Draining,
    /// Finished.
    Done,
    /// The directory could not be listed.
    Failed,
}

/// What happens to a task.
#[derive(Clone, Copy, Debug, PartialEq, Eq)]
pub enum TaskEvent {
    /// The task is taken up.
    Started,
    /// The listing was read.
    Listed,
    /// The listing could not be read.
    ListingFailed,
    /// A child task was started for a subdirectory.
    ChildSpawned,
    /// A file was handed to the predicate.
    FileMatched,
    /// The listing is exhausted.
    Exhausted,
    /// A child task has ended; `failed` says whether it ended in failure.
    ChildEnded { failed: bool },
}

/// A task's state together with the number of its children still at work.
#[derive(Clone, Copy, Debug, PartialEq, Eq)]
pub struct TaskProgress {
    /// Where the task stands.
    pub state: TaskState,
    /// The children that were started and have not ended.
    pub outstanding: usize,
    /// Whether the task waits for its children before it is done.
    pub joins: bool,
}

/// What becomes of a task through an event, or `None` where the event cannot
/// happen to it. A task that joins is done only when no child is at work; a
/// child's failure counts like its success.
pub open spec fn next_progress(p: TaskProgress, e: TaskEvent) -> Option<TaskProgress> {
    match (p.state, e) {
        (TaskState::Created, TaskEvent::Started) => Some(
            TaskProgress { state: TaskState::Listing, ..p },
        ),
        (TaskState::Listing, TaskEvent::Listed) => Some(
            TaskProgress { state: TaskState::Working, ..p },
        ),
        (TaskState::Listing, TaskEvent::ListingFailed) => Some(
            TaskProgress { state: TaskState::Failed, ..p },
        ),
        (TaskState::Working, TaskEvent::ChildSpawned) => if p.outstanding < usize::MAX {
            Some(TaskProgress { outstanding: (p.outstanding + 1) as usize, ..p })
        } else {
            None
        },
        (TaskState::Working, TaskEvent::FileMatched) => Some(p),
        (TaskState::Working, TaskEvent::Exhausted) => if p.joins && p.outstanding > 0 {
            Some(TaskProgress { state: TaskState::Draining, ..p })
        } else {
            Some(TaskProgress { state: TaskState::Done, ..p })
        },
        (TaskState::Working, TaskEvent::ChildEnded { .. }) => if p.outstanding > 0 {
            Some(TaskProgress { outstanding: (p.outstanding - 1) as usize, ..p })
        } else {
            None
        },
        (TaskState::Draining, TaskEvent::ChildEnded { .. }) => if p.outstanding > 1 {
            Some(TaskProgress { outstanding: (p.outstanding - 1) as usize, ..p })
        } else if p.outstanding == 1 {
            Some(TaskProgress { state: TaskState::Done, outstanding: 0, ..p })
        } else {
            None
        },
        _ => None,
    }
}

/// What holds of a task at every time: one that waits has children at work,
/// and one that joins and is done has none.
pub open spec fn consistent(p: TaskProgress) -> bool {
    &&& p.state == TaskState::Draining ==> p.joins && p.outstanding > 0
    &&& p.state == TaskState::Done && p.joins ==> p.outstanding == 0
    &&& (p.state == TaskState::Created || p.state == TaskState::Listing || p.state
        == TaskState::Failed) ==> p.outstanding == 0
}

impl TaskProgress {
    /// A task that has just been made.
    pub fn new(joins: bool) -> (r: TaskProgress)
        ensures
            r == (TaskProgress { state: TaskState::Created, outstanding: 0, joins }),
            consistent(r),
    {
        TaskProgress { state: TaskState::Created, outstanding: 0, joins }
    }

    /// Lets an event happen to the task. Gives `false`, and leaves the task
    /// as it is, where the event cannot happen to it.
    pub fn apply(&mut self, event: TaskEvent) -> (accepted: bool)
        ensures
            accepted == next_progress(*old(self), event) is Some,
            accepted ==> *final(self) == next_progress(*old(self), event)->Some_0,
            !accepted ==> *final(self) == *old(self),
    {
        match (self.state, event) {
            (TaskState::Created, TaskEvent::Started) => {
                self.state = TaskState::Listing;
                true
            },
            (TaskState::Listing, TaskEvent::Listed) => {
                self.state = TaskState::Working;
                true
            },
            (TaskState::Listing, TaskEvent::ListingFailed) => {
                self.state = TaskState::Failed;
                true
            },
            (TaskState::Working, TaskEvent::ChildSpawned) => {
                if self.outstanding < usize::MAX {
                    self.outstanding = self.outstanding + 1;
                    true
                } else {
                    false
                }
            },
            (TaskState::Working, TaskEvent::FileMatched) => true,
            (TaskState::Working, TaskEvent::Exhausted) => {
                if self.joins && self.outstanding > 0 {
                    self.state = TaskState::Draining;
                } else {
                    self.state = TaskState::Done;
                }
                true
            },
            (TaskState::Working, TaskEvent::ChildEnded { .. }) => {
                if self.outstanding > 0 {
                    self.outstanding = self.outstanding - 1;
                    true
                } else {
                    false
                }
            },
            (TaskState::Draining, TaskEvent::ChildEnded { .. }) => {
                if self.outstanding > 1 {
                    self.outstanding = self.outstanding - 1;
                    true
                } else if self.outstanding == 1 {
                    self.outstanding = 0;
                    self.state = TaskState::Done;
                    true
                } else {
                    false
                }
            },
            _ => false,
        }
    }

    /// Whether the task has come to its end, in success or in failure.
    pub fn is_finished(&self) -> (r: bool)
        ensures
            r == (self.state == TaskState::Done || self.state == TaskState::Failed),
    {
        match self.state {
            TaskState::Done => true,
            TaskState::Failed => true,
            _ => false,
        }
    }

    /// Whether the child's end is to be reported as a failure.
    pub fn reports(event: TaskEvent) -> (r: bool)
        ensures
            r == (event matches TaskEvent::ChildEnded { failed } && failed),
    {
        match event {
            TaskEvent::ChildEnded { failed } => failed,
            _ => false,
        }
    }
}

/// Every event leaves a consistent task consistent.
pub proof fn lemma_progress_stays_consistent(p: TaskProgress, e: TaskEvent)
    requires
        consistent(p),
        next_progress(p, e) is Some,
    ensures
        consistent(next_progress(p, e)->Some_0),
{
}

/// A task fails only while it lists its directory, and a task that is done
/// or has failed stays so: no event can happen to it.
pub proof fn lemma_failure_only_from_listing(p: TaskProgress, e: TaskEvent)
    ensures
        next_progress(p, e) matches Some(q) && q.state == TaskState::Failed ==> p.state
            == TaskState::Listing,
        (p.state == TaskState::Done || p.state == TaskState::Failed) ==> next_progress(p, e)
            is None,
{
}

/// A child's failure changes nothing of what becomes of its parent.
pub proof fn lemma_child_failure_is_contained(p: TaskProgress)
    ensures
        next_progress(p, TaskEvent::ChildEnded { failed: true }) == next_progress(
            p,
            TaskEvent::ChildEnded { failed: false },
        ),
{
}

/// A send that found no consumer: the traversal is being shut down early,
/// which is no fault.
#[derive(Clone, Copy, Debug, PartialEq, Eq)]
pub struct ChannelError;

/// The ends of a result channel: how many producer handles are held, and
/// whether the consumer still listens. Each task holds one producer handle
/// for as long as it lives.
#[derive(Clone, Copy, Debug, PartialEq, Eq)]
pub struct ChannelEnds {
    /// The producer handles that are held.
    pub producers: usize,
    /// Whether the consumer still listens.
    pub consumer_alive: bool,
}

impl ChannelEnds {
    /// Whether the stream is complete: the last producer handle has been
    /// released, so that nothing more can arrive.
    pub open spec fn complete(&self) -> bool {
        self.producers == 0
    }

    /// A channel with the one producer handle of the root task.
    pub fn open() -> (r: ChannelEnds)
        ensures
            r == (ChannelEnds { producers: 1, consumer_alive: true }),
            !r.complete(),
    {
        ChannelEnds { producers: 1, consumer_alive: true }
    }

    /// A task hands a copy of its producer handle to a child. Gives `false`,
    /// and changes nothing, where no handle is held that could be copied or
    /// the machine cannot count one more.
    pub fn attach(&mut self) -> (done: bool)
        ensures
            done == (0 < old(self).producers < usize::MAX),
            done ==> final(self).producers == old(self).producers + 1,
            !done ==> final(self).producers == old(self).producers,
            final(self).consumer_alive == old(self).consumer_alive,
    {
        if self.producers > 0 && self.producers < usize::MAX {
            self.producers = self.producers + 1;
            true
        } else {
            false
        }
    }

    /// A task ends and releases its producer handle. Gives whether the
    /// stream is complete after that: whether this was the last handle, or
    /// none was held.
    pub fn detach(&mut self) -> (last: bool)
        ensures
            final(self).producers == if old(self).producers > 0 {
                old(self).producers - 1
            } else {
                0
            },
            final(self).consumer_alive == old(self).consumer_alive,
            last == final(self).complete(),
    {
        if self.producers > 0 {
            self.producers = self.producers - 1;
        }
        self.producers == 0
    }

    /// The consumer goes away.
    pub fn hang_up(&mut self)
        ensures
            final(self).producers == old(self).producers,
            !final(self).consumer_alive,
    {
        self.consumer_alive = false;
    }

    /// Whether a result can be sent: it can while the consumer listens.
    pub fn send(&self) -> (r: Result<(), ChannelError>)
        ensures
            r is Ok <==> self.consumer_alive,
    {
        if self.consumer_alive {
            Ok(())
        } else {
            Err(ChannelError)
        }
    }

    /// Whether the stream is complete.
    pub fn is_complete(&self) -> (r: bool)
        ensures
            r == self.complete(),
    {
        self.producers == 0
    }
}

} // verus!
