//! Serving a request from start to end.
//!
//! Like a rebuild, a session is a sequence of steps on the file system and the index that the
//! caller performs; which step comes next is decided here.
use vstd::prelude::*;

use crate::database::DatabaseError;
use crate::freshness::{check_needs_rebuild, out_of_date, LastChange};
use crate::guard::{is_safe_path, safe_path};
use crate::rebuild::Report;

verus! {

/// The next step of a session.
#[derive(Clone, Copy, Debug, PartialEq, Eq, Structural)]
pub enum Session {
    /// Find out whether the project directory is a directory.
    CheckProject,
    /// Create the directory that holds the indexes, unless it is there already.
    CreateCache,
    /// Find out when the index was last changed.
    ProbeIndex,
    /// Rebuild the index.
    Rebuild,
    /// Find out whether there is an index.
    CheckIndex,
    /// Search the index; what it finds are the suggestions.
    Search,
    /// There is nothing to suggest.
    Nothing,
    /// The request cannot be served.
    Failed,
}

/// The home directory, or the empty path where it is not known.
pub open spec fn home_or_empty(home: Option<&str>) -> Seq<char> {
    match home {
        Some(path) => path@,
        None => seq![],
    }
}

/// The first step of a session.
pub open spec fn first_step(project_dir: Seq<char>, home: Seq<char>) -> Session {
    if safe_path(project_dir, home) {
        Session::CheckProject
    } else {
        Session::Nothing
    }
}

/// Whether a session ends with this step.
pub open spec fn is_last(step: Session) -> bool {
    step is Search || step is Nothing || step is Failed
}

/// The step that follows a step of which this was reported. The home directory has to be known
/// beyond the first step.
pub open spec fn session_step(step: Session, report: Report, home_known: bool) -> Session {
    match step {
        Session::CheckProject => if !(report is Done) {
            Session::Nothing
        } else if home_known {
            Session::CreateCache
        } else {
            Session::Failed
        },
        Session::CreateCache => if report is Done {
            Session::ProbeIndex
        } else {
            Session::Failed
        },
        Session::ProbeIndex => if report matches Report::Changed(change) && !out_of_date(change) {
            Session::CheckIndex
        } else {
            Session::Rebuild
        },
        Session::Rebuild => Session::CheckIndex,
        Session::CheckIndex => if report is Done {
            Session::Search
        } else {
            Session::Nothing
        },
        _ => step,
    }
}

impl Session {
    /// The first step of a session: none at all for a project that may not be indexed.
    pub fn start(project_dir: &str, home: Option<&str>) -> (step: Session)
        ensures
            step == first_step(project_dir@, home_or_empty(home)),
            step is CheckProject || step is Nothing,
            step is CheckProject <==> safe_path(
                project_dir@,
                match home {
                    Some(path) => path@,
                    None => Seq::empty(),
                },
            ),
    {
        let home_dir: &str = match home {
            Some(path) => path,
            None => "",
        };
        proof {
            reveal_strlit("");
            assert(""@ =~= seq![]);
        }
        if is_safe_path(project_dir, home_dir) {
            Session::CheckProject
        } else {
            Session::Nothing
        }
    }

    /// The step that follows, given what was reported of this one.
    pub fn next(self, report: Report, home_known: bool) -> (step: Session)
        ensures
            step == session_step(self, report, home_known),
            self is CheckProject && !(report is Done) ==> step is Nothing,
            self is CheckProject && report is Done && home_known ==> step is CreateCache,
            self is CheckProject && report is Done && !home_known ==> step is Failed,
            self is CreateCache && report is Done ==> step is ProbeIndex,
            self is CreateCache && !(report is Done) ==> step is Failed,
            self is ProbeIndex ==> (step is CheckIndex <==> (report matches Report::Changed(
                LastChange::Ago(seconds),
            ) && seconds <= 300)) && (step is CheckIndex || step is Rebuild),
            self is Rebuild ==> step is CheckIndex,
            self is CheckIndex && report is Done ==> step is Search,
            self is CheckIndex && !(report is Done) ==> step is Nothing,
            self is Search || self is Nothing || self is Failed ==> step == self,
    {
        let done = matches!(report, Report::Done);
        match self {
            Session::CheckProject => {
                if !done {
                    Session::Nothing
                } else if home_known {
                    Session::CreateCache
                } else {
                    Session::Failed
                }
            },
            Session::CreateCache => {
                if done {
                    Session::ProbeIndex
                } else {
                    Session::Failed
                }
            },
            Session::ProbeIndex => {
                let change = match report {
                    Report::Changed(change) => change,
                    _ => LastChange::Unreadable,
                };
                if check_needs_rebuild(change) {
                    Session::Rebuild
                } else {
                    Session::CheckIndex
                }
            },
            Session::Rebuild => Session::CheckIndex,
            Session::CheckIndex => {
                if done {
                    Session::Search
                } else {
                    Session::Nothing
                }
            },
            _ => self,
        }
    }
}

/// What is printed: the suggestions, or nothing at all if the request could not be served.
pub fn suggestions(outcome: Result<Vec<String>, DatabaseError>) -> (paths: Vec<String>)
    ensures
        match outcome {
            Ok(found) => paths == found,
            Err(_) => paths@.len() == 0,
        },
{
    match outcome {
        Ok(found) => found,
        Err(_) => Vec::new(),
    }
}

/// How many steps a session takes at most from here on.
pub open spec fn session_steps_left(step: Session) -> nat {
    match step {
        Session::CheckProject => 5,
        Session::CreateCache => 4,
        Session::ProbeIndex => 3,
        Session::Rebuild => 2,
        Session::CheckIndex => 1,
        _ => 0,
    }
}

/// The steps of a session from here on, in a world that reports this of each step.
pub open spec fn session_from(
    step: Session,
    world: spec_fn(Session) -> Report,
    home_known: bool,
) -> Seq<Session>
    decreases session_steps_left(step),
{
    if is_last(step) {
        seq![step]
    } else {
        seq![step] + session_from(session_step(step, world(step), home_known), world, home_known)
    }
}

/// Nothing is looked at, created or searched on behalf of a project that may not be indexed.
pub proof fn law_unsafe_projects_are_not_touched(
    project_dir: Seq<char>,
    home: Seq<char>,
    world: spec_fn(Session) -> Report,
    home_known: bool,
)
    requires
        !safe_path(project_dir, home),
    ensures
        session_from(first_step(project_dir, home), world, home_known) == seq![Session::Nothing],
{
}

/// A session as a whole, for a project that may be indexed.
///
/// The index is rebuilt first if it is missing or older than five minutes. Whether the rebuild
/// succeeds does not matter: whatever index is there then is searched.
pub proof fn law_course_of_a_session(world: spec_fn(Session) -> Report)
    requires
        world(Session::CheckProject) is Done,
        world(Session::CreateCache) is Done,
    ensures
        ({
            let fresh = world(Session::ProbeIndex) matches Report::Changed(change) && !out_of_date(
                change,
            );
            let found = world(Session::CheckIndex) is Done;
            session_from(Session::CheckProject, world, true) == seq![
                Session::CheckProject,
                Session::CreateCache,
                Session::ProbeIndex,
            ] + (if fresh {
                seq![]
            } else {
                seq![Session::Rebuild]
            }) + seq![
                Session::CheckIndex,
                if found {
                    Session::Search
                } else {
                    Session::Nothing
                },
            ]
        }),
{
    reveal_with_fuel(session_from, 7);
    let fresh = world(Session::ProbeIndex) matches Report::Changed(change) && !out_of_date(change);
    let found = world(Session::CheckIndex) is Done;
    assert(session_from(Session::CheckProject, world, true) =~= seq![
        Session::CheckProject,
        Session::CreateCache,
        Session::ProbeIndex,
    ] + (if fresh {
        seq![]
    } else {
        seq![Session::Rebuild]
    }) + seq![
        Session::CheckIndex,
        if found {
            Session::Search
        } else {
            Session::Nothing
        },
    ]);
}

/// A session that cannot get as far as the index ends right there: without a project directory
/// there is nothing to suggest, and without a home directory or a cache the request fails.
pub proof fn law_sessions_that_end_early(world: spec_fn(Session) -> Report, home_known: bool)
    ensures
        !(world(Session::CheckProject) is Done) ==> session_from(
            Session::CheckProject,
            world,
            home_known,
        ) == seq![Session::CheckProject, Session::Nothing],
        world(Session::CheckProject) is Done && !home_known ==> session_from(
            Session::CheckProject,
            world,
            home_known,
        ) == seq![Session::CheckProject, Session::Failed],
        world(Session::CheckProject) is Done && home_known && !(world(
            Session::CreateCache,
        ) is Done) ==> session_from(Session::CheckProject, world, home_known) == seq![
            Session::CheckProject,
            Session::CreateCache,
            Session::Failed,
        ],
{
    reveal_with_fuel(session_from, 7);
    if !(world(Session::CheckProject) is Done) {
        assert(session_from(Session::CheckProject, world, home_known) =~= seq![
            Session::CheckProject,
            Session::Nothing,
        ]);
    } else if !home_known {
        assert(session_from(Session::CheckProject, world, home_known) =~= seq![
            Session::CheckProject,
            Session::Failed,
        ]);
    } else if !(world(Session::CreateCache) is Done) {
        assert(session_from(Session::CheckProject, world, home_known) =~= seq![
            Session::CheckProject,
            Session::CreateCache,
            Session::Failed,
        ]);
    }
}

}
