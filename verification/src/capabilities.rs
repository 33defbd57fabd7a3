//! Device-facing capability contracts of the boot orchestrator: boot
//! liveness evidence, the pollable boot walk, the lockdown latch, image
//! recovery, the anti-rollback floor, trial boots, staged updates and
//! incremental verification.
//!
//! Boards implement these traits; the library states no behaviour of an
//! implementation beyond the types it may answer with. Error types are
//! bounded by `Debug` and `Display`, so the orchestrator can always log and
//! report them.

use vstd::prelude::*;

verus! {

/// Liveness of a managed device's boot: boot confirmation only.
///
/// A status describes the current boot cycle; evidence latched beneath a
/// read is cleared by the reset path, never by the reader.
#[derive(Debug, Clone, Copy, PartialEq, Eq, Structural)]
pub enum BootStatus {
    /// Released, but boot completion not yet observed.
    Booting,
    /// Boot completion observed.
    Booted,
    /// The device reported a failure worth another attempt.
    FailedRetriable,
    /// The device reported a terminal failure.
    FailedFatal,
}

/// One device's boot walk, pollable without knowing the device type.
pub trait BootWatch {
    /// Starts a fresh attempt: earlier progress is discarded.
    fn arm(&mut self);

    /// Judges the walk at `now_millis` (monotonic). Never sleeps.
    fn poll(&mut self, now_millis: u64) -> WalkVerdict;
}

/// Everything the orchestrator needs to know about a boot walk.
#[derive(Debug, Clone, Copy, PartialEq, Eq)]
pub enum WalkVerdict {
    /// Nothing to decide yet; poll again by `deadline_millis`.
    Waiting {
        /// When the awaited checkpoint's window expires.
        deadline_millis: u64,
    },
    /// Every checkpoint passed: the device is up.
    Complete,
    /// This boot attempt failed at `checkpoint`; the walk is over.
    Failed {
        /// The checkpoint the attempt died at.
        checkpoint: &'static str,
        /// Why it died.
        cause: FailureCause,
    },
}

/// Why a boot attempt failed at a checkpoint.
#[derive(Debug, Clone, Copy, PartialEq, Eq, Structural)]
pub enum FailureCause {
    /// The window expired; the device reported nothing.
    TimedOut,
    /// The device reported a failure worth another attempt.
    DeviceRetriable,
    /// The device reported a terminal failure.
    DeviceFatal,
}

/// Reads a device's boot evidence, one board-defined signal at a time.
pub trait EvidenceReader<G> {
    /// The error type reported by this reader.
    type Error: core::fmt::Debug + core::fmt::Display;

    /// Returns the current liveness evidence for `signal`; an error means
    /// the evidence channel behind `signal` could not be read.
    fn read(&mut self, signal: &G) -> Result<BootStatus, Self::Error>;
}

/// Latch capability: put the platform into its terminal safe state.
///
/// One-way and idempotent: `Ok` means the safe state is in force.
pub trait LockdownLatch {
    /// The error type of this platform's latch mechanism.
    type Error: core::fmt::Debug + core::fmt::Display;

    /// Latches the platform into the safe state.
    fn latch(&mut self) -> Result<(), Self::Error>;
}

/// The outcome of a single restore attempt.
#[derive(Debug, Clone, Copy, PartialEq, Eq, Structural)]
pub enum RestoreOutcome {
    /// The recovery source was written to the device's active region.
    Restored,
    /// No untried recovery source remains.
    SourceExhausted,
}

/// Restore capability: rewrite one managed device's active image from its
/// configured recovery source.
pub trait Recovery {
    /// The error type of this device's restore mechanism.
    type Error: core::fmt::Debug + core::fmt::Display;

    /// Rewrites the device's active image; `attempt` is the consecutive
    /// recovery count, `0` on the first try of a cycle.
    fn restore(&mut self, attempt: u8) -> Result<RestoreOutcome, Self::Error>;
}

/// A security version number.
#[derive(Clone, Copy, PartialEq, Eq, PartialOrd, Ord, Debug)]
pub struct Svn(pub u32);

/// Anti-rollback capability: one managed device's durable SVN floor.
///
/// `advance` never lowers the floor; a target at or below it is a no-op.
pub trait SvnFloor {
    /// The error type of this device's floor storage.
    type Error: core::fmt::Debug + core::fmt::Display;

    /// The current floor: the lowest SVN this device may still boot.
    fn floor(&self) -> Result<Svn, Self::Error>;

    /// Raises the floor to `to`; at or below the current floor it does nothing.
    fn advance(&mut self, to: Svn) -> Result<(), Self::Error>;
}

/// Commit capability: confirm or revert an activated, uncommitted image.
pub trait TrialBoot {
    /// The error type this device's trial record reports.
    type Error: core::fmt::Debug + core::fmt::Display;

    /// Whether an activated image is still waiting for its verdict.
    fn is_pending(&self) -> Result<bool, Self::Error>;

    /// Keeps the activated image as the confirmed one and closes the trial.
    fn confirm(&mut self) -> Result<(), Self::Error>;

    /// Closes the trial without keeping the image, and disarms the next boot.
    fn revert(&mut self) -> Result<(), Self::Error>;
}

/// Update capability: stage a payload on one managed device and mark the
/// staged image as its boot candidate.
pub trait Updatable {
    /// The error type of this device's update path.
    type Error: core::fmt::Debug + core::fmt::Display;

    /// Advances staging by one bounded step, pulling from `payload`.
    fn poll_stage(&mut self, payload: &impl PayloadSource) -> Result<StageProgress, Self::Error>;

    /// Discards the in-progress transfer or staged payload.
    fn abandon(&mut self);

    /// Marks the staged image as the device's boot candidate.
    fn activate(&mut self) -> Result<(), Self::Error>;
}

/// What one staging step established.
#[derive(Debug, Clone, Copy, PartialEq, Eq, Structural)]
pub enum StageProgress {
    /// Transfer ongoing; poll again.
    Transferring {
        /// Bytes written to the device so far.
        written: u64,
        /// Total payload bytes.
        total: u64,
    },
    /// The device holds the complete payload.
    Ready,
}

/// Chunked, random-access read seam that staging pulls from.
pub trait PayloadSource {
    /// Total payload length in bytes, constant for the source's lifetime.
    fn len(&self) -> u64;

    /// True if the payload is empty: the length `len` answers is zero.
    /// `len` is called through its function value, so that the contract can
    /// speak of its answer.
    fn is_empty(&self) -> (r: bool)
        ensures
            exists|n: u64| call_ensures(Self::len, (self,), n) && r == (n == 0),
    {
        let len = Self::len;
        let n = len(self);
        n == 0
    }

    /// Fills `buf` from `offset`, exactly; a range past `len` is out of range.
    fn read_at(&self, offset: u64, buf: &mut [u8]) -> Result<(), PayloadReadError>;
}

/// Why a payload read failed.
#[derive(Debug, Clone, Copy, PartialEq, Eq, Structural)]
pub enum PayloadReadError {
    /// The requested range is outside the payload.
    OutOfRange,
    /// The backing storage failed the read.
    Storage,
}

/// The sentence that reports each payload read failure.
pub open spec fn payload_read_error_text(e: PayloadReadError) -> Seq<char> {
    match e {
        PayloadReadError::OutOfRange => "payload read out of range"@,
        PayloadReadError::Storage => "payload storage fault"@,
    }
}

impl PayloadReadError {
    /// The sentence that reports this failure.
    pub fn message(&self) -> (m: &'static str)
        ensures
            m@ == payload_read_error_text(*self),
    {
        match self {
            PayloadReadError::OutOfRange => "payload read out of range",
            PayloadReadError::Storage => "payload storage fault",
        }
    }
}

/// Factory for incremental verification sessions.
pub trait IncrementalVerifier: Sized {
    /// The error reported when the check itself cannot run.
    type Error: core::fmt::Debug + core::fmt::Display;

    /// The session type returned by `start`.
    type Session: VerifySession<Verifier = Self, Error = Self::Error>;

    /// Begins a new verification session.
    fn start(self) -> Self::Session;
}

/// A live verification session: each poll does one bounded step.
pub trait VerifySession: Sized {
    /// The verifier this session was created from.
    type Verifier;

    /// The error type, matching the verifier's.
    type Error: core::fmt::Debug + core::fmt::Display;

    /// Processes one bounded step.
    fn poll(self, payload: &dyn PayloadSource) -> PollOutcome<Self>;

    /// Discards the session and returns the verifier.
    fn abandon(self) -> Self::Verifier;
}

/// Result of one session poll; terminal variants hand the verifier back.
pub enum PollOutcome<S: VerifySession> {
    /// One chunk processed: `done` bytes so far out of `total`.
    Processing { session: S, done: u64, total: u64 },
    /// The complete image authenticated.
    Authenticated(S::Verifier),
    /// The complete image was checked and found invalid.
    Rejected(S::Verifier),
    /// The check could not run.
    Fault(S::Verifier, S::Error),
}

} // verus!
