//! Rebuilding an index without disturbing those who read it or rebuild it at the same time.
//!
//! A rebuild is a sequence of steps on the file system. Which step comes next depends on what was
//! reported of the one before; the steps themselves are performed by the caller. The lock is a
//! directory: creating it takes the lock, and only one process can succeed in that.
use vstd::prelude::*;

use crate::freshness::{is_stale, stale, LastChange};

verus! {

/// A lock on an index.
#[derive(Debug)]
pub struct Lock {
    path: String,
    acquired: bool,
}

impl Lock {
    /// The directory whose existence is the lock.
    pub closed spec fn directory(&self) -> Seq<char> {
        self.path@
    }

    /// Whether this process holds the lock.
    pub closed spec fn held(&self) -> bool {
        self.acquired
    }

    /// The lock on a directory, held if this process has just created the directory.
    pub fn acquire(path: &str, created: bool) -> (lock: Self)
        ensures
            lock.directory() == path@,
            lock.held() == created,
    {
        Lock { path: path.to_owned(), acquired: created }
    }

    /// Whether this process holds the lock.
    pub fn is_acquired(&self) -> (yes: bool)
        ensures
            yes == self.held(),
    {
        self.acquired
    }

    /// The directory to remove when the lock is given up; none if it was never held.
    pub fn release(&self) -> (path: Option<String>)
        ensures
            match path {
                Some(path) => self.held() && path@ == self.directory(),
                None => !self.held(),
            },
    {
        if self.acquired {
            Some(self.path.clone())
        } else {
            None
        }
    }
}

/// What came of a step.
#[derive(Clone, Copy, Debug, PartialEq, Eq, Structural)]
pub enum Report {
    /// It succeeded, or the answer is yes.
    Done,
    /// It failed, or the answer is no.
    Failed,
    /// When the file or directory asked about was last changed.
    Changed(LastChange),
}

/// The next step of a rebuild.
#[derive(Clone, Copy, Debug, PartialEq, Eq, Structural)]
pub enum Build {
    /// Find out when the lock was last changed.
    ProbeLock,
    /// Remove a lock that was left behind.
    RemoveStaleLock,
    /// Try to take the lock.
    CreateLock,
    /// Remove what an earlier rebuild may have left of the temporary file.
    ClearTemp,
    /// Make the new index in the temporary file.
    FillTemp,
    /// Remove the temporary file after a failure.
    DiscardTemp,
    /// Put the temporary file in the place of the index.
    ReplaceIndex,
    /// Give up the lock, having succeeded or not.
    ReleaseLock(bool),
    /// Nothing is left to do. The rebuild succeeded, was left to another process, or failed.
    Finished(bool),
}

/// The step that follows a step of which this was reported.
pub open spec fn build_step(step: Build, report: Report) -> Build {
    match step {
        Build::ProbeLock => if report matches Report::Changed(change) && stale(change) {
            Build::RemoveStaleLock
        } else {
            Build::CreateLock
        },
        Build::RemoveStaleLock => Build::CreateLock,
        Build::CreateLock => if report is Done {
            Build::ClearTemp
        } else {
            Build::Finished(true)
        },
        Build::ClearTemp => Build::FillTemp,
        Build::FillTemp => if report is Done {
            Build::ReplaceIndex
        } else {
            Build::DiscardTemp
        },
        Build::DiscardTemp => Build::ReleaseLock(false),
        Build::ReplaceIndex => if report is Done {
            Build::ReleaseLock(true)
        } else {
            Build::DiscardTemp
        },
        Build::ReleaseLock(success) => Build::Finished(success),
        Build::Finished(success) => Build::Finished(success),
    }
}

impl Build {
    /// The first step of a rebuild.
    pub fn start() -> (step: Build)
        ensures
            step == Build::ProbeLock,
    {
        Build::ProbeLock
    }

    /// The step that follows, given what was reported of this one.
    pub fn next(self, report: Report) -> (step: Build)
        ensures
            step == build_step(self, report),
            self is ProbeLock ==> (step is RemoveStaleLock <==> (report matches Report::Changed(
                LastChange::Ago(seconds),
            ) && seconds > 300)) && (step is RemoveStaleLock || step is CreateLock),
            self is RemoveStaleLock ==> step is CreateLock,
            self is CreateLock && report is Done ==> step is ClearTemp,
            self is CreateLock && !(report is Done) ==> step == Build::Finished(true),
            self is ClearTemp ==> step is FillTemp,
            self is FillTemp && report is Done ==> step is ReplaceIndex,
            self is ReplaceIndex && report is Done ==> step == Build::ReleaseLock(true),
            (self is FillTemp || self is ReplaceIndex) && !(report is Done) ==> step is DiscardTemp,
            self is DiscardTemp ==> step == Build::ReleaseLock(false),
            self matches Build::ReleaseLock(success) ==> step == Build::Finished(success),
            self is Finished ==> step == self,
    {
        let done = matches!(report, Report::Done);
        match self {
            Build::ProbeLock => {
                match report {
                    Report::Changed(change) => {
                        if is_stale(change) {
                            Build::RemoveStaleLock
                        } else {
                            Build::CreateLock
                        }
                    },
                    _ => Build::CreateLock,
                }
            },
            Build::RemoveStaleLock => Build::CreateLock,
            Build::CreateLock => {
                if done {
                    Build::ClearTemp
                } else {
                    Build::Finished(true)
                }
            },
            Build::ClearTemp => Build::FillTemp,
            Build::FillTemp => {
                if done {
                    Build::ReplaceIndex
                } else {
                    Build::DiscardTemp
                }
            },
            Build::DiscardTemp => Build::ReleaseLock(false),
            Build::ReplaceIndex => {
                if done {
                    Build::ReleaseLock(true)
                } else {
                    Build::DiscardTemp
                }
            },
            Build::ReleaseLock(success) => Build::Finished(success),
            Build::Finished(success) => Build::Finished(success),
        }
    }
}

/// How many steps a rebuild takes at most from here on.
pub open spec fn steps_left(step: Build) -> nat {
    match step {
        Build::ProbeLock => 8,
        Build::RemoveStaleLock => 7,
        Build::CreateLock => 6,
        Build::ClearTemp => 5,
        Build::FillTemp => 4,
        Build::ReplaceIndex => 3,
        Build::DiscardTemp => 2,
        Build::ReleaseLock(_) => 1,
        Build::Finished(_) => 0,
    }
}

/// The steps of a rebuild from here on, in a world that reports this of each step.
pub open spec fn steps_from(step: Build, world: spec_fn(Build) -> Report) -> Seq<Build>
    decreases steps_left(step),
{
    if step is Finished {
        seq![step]
    } else {
        seq![step] + steps_from(build_step(step, world(step)), world)
    }
}

/// A rebuild as a whole.
///
/// A stale lock is removed first. If the lock cannot be taken, nothing else is touched and the
/// rebuild is left to the process that holds it. Otherwise the new index is made in the temporary
/// file and put in the place of the index, the temporary file is removed if either failed, and the
/// lock is given up in any case.
pub proof fn law_course_of_a_rebuild(world: spec_fn(Build) -> Report)
    ensures
        ({
            let removed = world(Build::ProbeLock) matches Report::Changed(change) && stale(change);
            let taken = world(Build::CreateLock) is Done;
            let filled = world(Build::FillTemp) is Done;
            let replaced = world(Build::ReplaceIndex) is Done;
            steps_from(Build::ProbeLock, world) == seq![Build::ProbeLock] + (if removed {
                seq![Build::RemoveStaleLock]
            } else {
                seq![]
            }) + seq![Build::CreateLock] + (if !taken {
                seq![Build::Finished(true)]
            } else if !filled {
                seq![
                    Build::ClearTemp,
                    Build::FillTemp,
                    Build::DiscardTemp,
                    Build::ReleaseLock(false),
                    Build::Finished(false),
                ]
            } else if !replaced {
                seq![
                    Build::ClearTemp,
                    Build::FillTemp,
                    Build::ReplaceIndex,
                    Build::DiscardTemp,
                    Build::ReleaseLock(false),
                    Build::Finished(false),
                ]
            } else {
                seq![
                    Build::ClearTemp,
                    Build::FillTemp,
                    Build::ReplaceIndex,
                    Build::ReleaseLock(true),
                    Build::Finished(true),
                ]
            })
        }),
{
    reveal_with_fuel(steps_from, 10);
    let removed = world(Build::ProbeLock) matches Report::Changed(change) && stale(change);
    let taken = world(Build::CreateLock) is Done;
    let filled = world(Build::FillTemp) is Done;
    let replaced = world(Build::ReplaceIndex) is Done;
    assert(steps_from(Build::ProbeLock, world) =~= seq![Build::ProbeLock] + (if removed {
        seq![Build::RemoveStaleLock]
    } else {
        seq![]
    }) + seq![Build::CreateLock] + (if !taken {
        seq![Build::Finished(true)]
    } else if !filled {
        seq![
            Build::ClearTemp,
            Build::FillTemp,
            Build::DiscardTemp,
            Build::ReleaseLock(false),
            Build::Finished(false),
        ]
    } else if !replaced {
        seq![
            Build::ClearTemp,
            Build::FillTemp,
            Build::ReplaceIndex,
            Build::DiscardTemp,
            Build::ReleaseLock(false),
            Build::Finished(false),
        ]
    } else {
        seq![
            Build::ClearTemp,
            Build::FillTemp,
            Build::ReplaceIndex,
            Build::ReleaseLock(true),
            Build::Finished(true),
        ]
    }));
}

/// The index is replaced only by a temporary file that was filled to the end under the lock.
pub proof fn law_only_complete_indexes_are_installed(world: spec_fn(Build) -> Report)
    requires
        steps_from(Build::ProbeLock, world).contains(Build::ReplaceIndex),
    ensures
        world(Build::CreateLock) is Done,
        world(Build::FillTemp) is Done,
{
    law_course_of_a_rebuild(world);
}

/// No temporary file stays behind: once the lock is taken, either the temporary file has taken the
/// place of the index, or it is removed.
pub proof fn law_temporary_file_does_not_stay(world: spec_fn(Build) -> Report)
    ensures
        steps_from(Build::ProbeLock, world).contains(Build::DiscardTemp) <==> world(
            Build::CreateLock,
        ) is Done && !(world(Build::FillTemp) is Done && world(Build::ReplaceIndex) is Done),
{
    law_course_of_a_rebuild(world);
    let steps = steps_from(Build::ProbeLock, world);
    if world(Build::CreateLock) is Done && !(world(Build::FillTemp) is Done && world(
        Build::ReplaceIndex,
    ) is Done) {
        assert(steps[steps.len() - 3] == Build::DiscardTemp);
    }
}

/// A lock that was taken is given up, and one that was not taken is left alone.
pub proof fn law_lock_is_released(world: spec_fn(Build) -> Report)
    ensures
        (steps_from(Build::ProbeLock, world).contains(Build::ReleaseLock(true)) || steps_from(
            Build::ProbeLock,
            world,
        ).contains(Build::ReleaseLock(false))) <==> world(Build::CreateLock) is Done,
{
    law_course_of_a_rebuild(world);
    let steps = steps_from(Build::ProbeLock, world);
    if world(Build::CreateLock) is Done {
        let success = world(Build::FillTemp) is Done && world(Build::ReplaceIndex) is Done;
        assert(steps[steps.len() - 2] == Build::ReleaseLock(success));
        assert(steps.contains(Build::ReleaseLock(success)));
    }
}

}
