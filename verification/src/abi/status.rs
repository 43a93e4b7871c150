//! Results of an operation.

use vstd::prelude::*;

verus! {

/// Why an operation did not do what it was asked.
#[derive(Clone, Copy, PartialEq, Eq, Debug, Structural)]
pub enum Status {
    /// It did.
    Success,
    /// The handle names nothing the caller holds.
    InvalidHandle,
    /// The object is of another kind.
    WrongType,
    /// The grant does not carry the right.
    InsufficientRights,
    /// An argument is out of its range.
    InvalidArgument,
    /// A range of memory is not the caller's.
    InvalidAddress,
    /// A bounded resource is full.
    LimitExhausted,
    /// The operation does not exist.
    NotSupported,
    /// The descriptor is of another version.
    IncompatibleVersion,
    /// The object or its peer is gone.
    PeerDead,
    /// The lineage or its scope was fenced.
    ScopeClosed,
    /// The deadline of the lineage has passed.
    Expired,
    /// The object is in another state.
    StateConflict,
    /// The queue is full.
    QueueFull,
    /// The operation would have to wait.
    WouldBlock,
    /// The wait ended at its deadline.
    TimedOut,
    /// The wait was cancelled.
    Cancelled,
    /// The outcome is not known.
    Pending,
    /// The obligation was discharged before.
    AlreadyResolved,
    /// Something is still inside the perimeter.
    DrainIncomplete,
    /// The device session was reset.
    Reset,
    /// The profile cannot do it.
    UnsupportedProfile,
}

impl Status {
    /// The number [`Status::code`] returns.
    pub open spec fn code_spec(self) -> i64 {
        match self {
            Status::Success => 0i64,
            Status::InvalidHandle => -1i64,
            Status::WrongType => -2i64,
            Status::InsufficientRights => -3i64,
            Status::InvalidArgument => -4i64,
            Status::InvalidAddress => -5i64,
            Status::LimitExhausted => -6i64,
            Status::NotSupported => -7i64,
            Status::IncompatibleVersion => -8i64,
            Status::PeerDead => -9i64,
            Status::ScopeClosed => -10i64,
            Status::Expired => -11i64,
            Status::StateConflict => -12i64,
            Status::QueueFull => -13i64,
            Status::WouldBlock => -14i64,
            Status::TimedOut => -15i64,
            Status::Cancelled => -16i64,
            Status::Pending => -17i64,
            Status::AlreadyResolved => -18i64,
            Status::DrainIncomplete => -19i64,
            Status::Reset => -20i64,
            Status::UnsupportedProfile => -21i64,
        }
    }

    /// The number the caller is handed: zero for success, negative otherwise.
    pub fn code(self) -> (code: i64)
        ensures
            code == self.code_spec(),
            code == 0 <==> self == Status::Success,
            code <= 0,
    {
        match self {
            Status::Success => 0i64,
            Status::InvalidHandle => -1i64,
            Status::WrongType => -2i64,
            Status::InsufficientRights => -3i64,
            Status::InvalidArgument => -4i64,
            Status::InvalidAddress => -5i64,
            Status::LimitExhausted => -6i64,
            Status::NotSupported => -7i64,
            Status::IncompatibleVersion => -8i64,
            Status::PeerDead => -9i64,
            Status::ScopeClosed => -10i64,
            Status::Expired => -11i64,
            Status::StateConflict => -12i64,
            Status::QueueFull => -13i64,
            Status::WouldBlock => -14i64,
            Status::TimedOut => -15i64,
            Status::Cancelled => -16i64,
            Status::Pending => -17i64,
            Status::AlreadyResolved => -18i64,
            Status::DrainIncomplete => -19i64,
            Status::Reset => -20i64,
            Status::UnsupportedProfile => -21i64,
        }
    }
}

} // verus!
