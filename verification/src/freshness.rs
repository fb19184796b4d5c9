//! How old an index or a lock is, and what follows from it.
use vstd::prelude::*;

verus! {

/// The age, in seconds, beyond which an index or a lock is out of date: five minutes.
pub const INDEX_MAX_AGE_SECS: u64 = 300;

/// When a file or directory was last changed, as far as the file system tells.
#[derive(Clone, Copy, Debug, PartialEq, Eq, Structural)]
pub enum LastChange {
    /// There is no such file or directory.
    Missing,
    /// It is there, but the time of its last change cannot be read.
    Unreadable,
    /// It was last changed at a time that is yet to come.
    InFuture,
    /// It was last changed so many seconds ago.
    Ago(u64),
}

/// An index has to be rebuilt unless it was changed within the last five minutes.
pub open spec fn out_of_date(change: LastChange) -> bool {
    match change {
        LastChange::Ago(seconds) => seconds > 300,
        _ => true,
    }
}

/// A lock is stale if it was last changed more than five minutes ago.
pub open spec fn stale(change: LastChange) -> bool {
    change matches LastChange::Ago(seconds) && seconds > 300
}

/// Whether an index that was last changed then has to be rebuilt.
pub fn check_needs_rebuild(change: LastChange) -> (rebuild: bool)
    ensures
        rebuild == out_of_date(change),
{
    match change {
        LastChange::Missing => true,
        LastChange::Unreadable => true,
        LastChange::InFuture => true,
        LastChange::Ago(seconds) => seconds > INDEX_MAX_AGE_SECS,
    }
}

/// Whether a lock that was last changed then was left behind and may be removed.
pub fn is_stale(change: LastChange) -> (yes: bool)
    ensures
        yes == stale(change),
{
    match change {
        LastChange::Ago(seconds) => seconds > INDEX_MAX_AGE_SECS,
        _ => false,
    }
}

/// The same age makes a lock stale and an index out of date.
pub proof fn law_same_timeout(seconds: u64)
    ensures
        stale(LastChange::Ago(seconds)) == out_of_date(LastChange::Ago(seconds)),
{
}

/// Once out of date, an index stays so until it is changed.
pub proof fn law_age_only_grows(earlier: u64, later: u64)
    requires
        earlier <= later,
        out_of_date(LastChange::Ago(earlier)),
    ensures
        out_of_date(LastChange::Ago(later)),
{
}

/// Five minutes, to the second: an index of that age is still used and a lock of that age still
/// respected; one second more and the index is rebuilt and the lock removed.
pub proof fn law_five_minutes(seconds: u64)
    ensures
        seconds <= 300 ==> !out_of_date(LastChange::Ago(seconds)) && !stale(LastChange::Ago(seconds)),
        seconds >= 301 ==> out_of_date(LastChange::Ago(seconds)) && stale(LastChange::Ago(seconds)),
{
}

/// Where the age is not known, the index is rebuilt and the lock is respected.
pub proof fn law_unknown_age(change: LastChange)
    requires
        !(change is Ago),
    ensures
        out_of_date(change),
        !stale(change),
{
}

}
