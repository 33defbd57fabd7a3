//! The effect-executing shell around the orchestrator state machine: one
//! executor per effect, routed from the machine through the [`Platform`]
//! impl. Executor-produced events queue in the shell; the driver loop
//! drains them with [`Shell::take_event`] and dispatches each.

use vstd::prelude::*;
use crate::driver::{verdict_event, Board, BoardCapabilities, ImageSource, Verdict, Verifier, event_for_verdict};
use crate::machine::{EffectError, Platform};
use crate::model::{ComponentId, Effect, Event};
use crate::pending_queue::EventQueue;

verus! {

/// How many events the shell holds for the driver at most. Executors feed
/// back at most one event per effect and the driver drains after every
/// dispatch; overflow is reported, never silently dropped.
pub const EVENT_CAP: usize = 4;

/// Why the shell could not carry out an effect.
#[derive(Clone, Copy, PartialEq, Eq, Debug, Structural)]
pub enum ShellError {
    /// The executor for this effect has not been written yet.
    NotImplemented,
    /// The effect names a component the shell has no device for.
    UnknownComponent,
    /// The component's image source could not be opened.
    ImageUnavailable,
    /// Verify was asked for a component whose image was never staged.
    NoImage,
    /// The verifier could not perform the check.
    VerifierFault,
    /// The event queue overflowed.
    QueueFull,
}

/// The sentence that reports each shell error.
pub open spec fn shell_error_text(e: ShellError) -> Seq<char> {
    match e {
        ShellError::NotImplemented => "executor not implemented"@,
        ShellError::UnknownComponent => "no device for this component id"@,
        ShellError::ImageUnavailable => "image source could not be opened"@,
        ShellError::NoImage => "no image staged for this component"@,
        ShellError::VerifierFault => "verifier could not perform the check"@,
        ShellError::QueueFull => "event queue full"@,
    }
}

impl ShellError {
    /// The sentence that reports this error.
    pub fn message(&self) -> (m: &'static str)
        ensures
            m@ == shell_error_text(*self),
    {
        match self {
            ShellError::NotImplemented => "executor not implemented",
            ShellError::UnknownComponent => "no device for this component id",
            ShellError::ImageUnavailable => "image source could not be opened",
            ShellError::NoImage => "no image staged for this component",
            ShellError::VerifierFault => "verifier could not perform the check",
            ShellError::QueueFull => "event queue full",
        }
    }
}

/// Whether the shell has an executor for `effect`; every other effect is
/// not implemented yet, and `Emit` is never the shell's.
pub open spec fn shell_executes(effect: Effect) -> bool {
    effect is ReadFirmware || effect is VerifyFirmware
}

/// The effect executors. Everything device-specific lives in the [`Board`];
/// the shell's own fields are bookkeeping.
pub struct Shell<B: BoardCapabilities, const N: usize> {
    board: Board<B, N>,
    /// Component whose image is staged (source opened) for verification.
    staged: Option<ComponentId>,
    /// Events awaiting [`take_event`](Self::take_event), oldest first.
    pending: EventQueue,
    /// The effects carried out so far, each with its answer.
    calls: Ghost<Seq<(Effect, Result<Option<Event>, EffectError>)>>,
}

impl<B: BoardCapabilities, const N: usize> Shell<B, N> {
    /// The component whose image is staged, if any.
    pub closed spec fn staged_spec(&self) -> Option<ComponentId> {
        self.staged
    }

    /// The board's verifier.
    pub closed spec fn image_judge(&self) -> B::Verifier {
        self.board.verifier
    }

    /// The board's image sources, by component.
    pub closed spec fn images(&self) -> Seq<B::Image> {
        self.board.images@
    }

    /// The events owed to the machine, oldest first.
    pub closed spec fn events(&self) -> Seq<Event> {
        self.pending@
    }

    pub fn new(board: Board<B, N>) -> (r: Self)
        ensures
            r.staged_spec() is None,
            r.events() == Seq::<Event>::empty(),
            r.calls() == Seq::<(Effect, Result<Option<Event>, EffectError>)>::empty(),
    {
        Shell { board, staged: None, pending: EventQueue::new(), calls: Ghost(Seq::empty()) }
    }

    /// The next event owed to the machine; the driver loop drains these
    /// after each dispatch.
    pub fn take_event(&mut self) -> (r: Option<Event>)
        ensures
            old(self).events().len() == 0 ==> r is None && final(self).events() == old(self).events(),
            old(self).events().len() > 0 ==> r == Some(old(self).events()[0]) && final(self).events()
                == old(self).events().drop_first(),
            final(self).staged_spec() == old(self).staged_spec(),
            final(self).calls() == old(self).calls(),
    {
        self.pending.pop_front()
    }

    /// Queue an event for the machine; a full queue answers `QueueFull`
    /// and keeps what it had.
    fn enqueue(&mut self, event: Event) -> (r: Result<(), ShellError>)
        ensures
            old(self).events().len() < EVENT_CAP ==> r is Ok && final(self).events() == old(self).events().push(event),
            old(self).events().len() >= EVENT_CAP ==> r == Err::<(), ShellError>(ShellError::QueueFull)
                && final(self).events() == old(self).events(),
            final(self).staged_spec() == old(self).staged_spec(),
            final(self).calls() == old(self).calls(),
            final(self).images() == old(self).images(),
    {
        if self.pending.len() >= EVENT_CAP {
            return Err(ShellError::QueueFull);
        }
        let _ = self.pending.push_back(event);
        Ok(())
    }

    /// Stage `id`'s image: open its source so
    /// [`verify_firmware`](Self::verify_firmware) can read it. Any earlier
    /// staging is dropped first; `id` is staged exactly when this succeeds.
    pub fn read_firmware(&mut self, id: ComponentId) -> (r: Result<(), ShellError>)
        ensures
            forall|j: int| 0 <= j < N && j != id.0 ==> #[trigger] final(self).images()[j] == old(self).images()[j],
            final(self).images().len() == old(self).images().len(),
            id.0 >= N ==> r == Err::<(), ShellError>(ShellError::UnknownComponent),
            id.0 < N ==> r is Ok || r == Err::<(), ShellError>(ShellError::ImageUnavailable),
            final(self).staged_spec() == if r is Ok {
                Some(id)
            } else {
                None
            },
            final(self).events() == old(self).events(),
            final(self).calls() == old(self).calls(),
    {
        self.staged = None;
        let i = id.get() as usize;
        if i >= N {
            return Err(ShellError::UnknownComponent);
        }
        match self.board.images[i].open() {
            Ok(()) => {},
            Err(_) => return Err(ShellError::ImageUnavailable),
        }
        self.staged = Some(id);
        Ok(())
    }

    /// Judge the staged image with the board's verifier and queue the
    /// verdict as the event the machine takes. A missing staging is reported
    /// before anything else, and then nothing changes.
    pub fn verify_firmware(&mut self, id: ComponentId) -> (r: Result<(), ShellError>)
        ensures
            forall|j: int| 0 <= j < N && j != id.0 ==> #[trigger] final(self).images()[j] == old(self).images()[j],
            final(self).images().len() == old(self).images().len(),
            final(self).staged_spec() == old(self).staged_spec(),
            final(self).calls() == old(self).calls(),
            old(self).staged_spec() != Some(id) ==> r == Err::<(), ShellError>(ShellError::NoImage)
                && final(self).events() == old(self).events(),
            old(self).staged_spec() == Some(id) && id.0 >= N ==> r == Err::<(), ShellError>(
                ShellError::UnknownComponent,
            ) && final(self).events() == old(self).events(),
            old(self).staged_spec() == Some(id) && id.0 < N ==> match r {
                Ok(()) => old(self).events().len() < EVENT_CAP && final(self).events() == old(self).events().push(
                    verdict_event(id, old(self).image_judge().judgment(id, old(self).images()[id.0 as int])),
                ),
                Err(e) => final(self).events() == old(self).events() && (e == ShellError::VerifierFault || (e
                    == ShellError::QueueFull && old(self).events().len() >= EVENT_CAP)),
            },
    {
        match self.staged {
            Some(s) => {
                if s.0 != id.0 {
                    return Err(ShellError::NoImage);
                }
            },
            None => return Err(ShellError::NoImage),
        }
        let i = id.get() as usize;
        if i >= N {
            return Err(ShellError::UnknownComponent);
        }
        let verdict = match self.board.verifier.verify(id, &mut self.board.images[i]) {
            Ok(v) => v,
            Err(_) => return Err(ShellError::VerifierFault),
        };
        self.enqueue(event_for_verdict(id, verdict))
    }

    /// Release `id` from reset, then walk its boot checkpoints. Not written
    /// yet.
    pub fn release_reset(&mut self, id: ComponentId) -> (r: Result<(), ShellError>)
        ensures
            r == Err::<(), ShellError>(ShellError::NotImplemented),
            *final(self) == *old(self),
    {
        Err(ShellError::NotImplemented)
    }

    /// Hold `id` in reset, durably. Not written yet.
    pub fn assert_reset(&mut self, id: ComponentId) -> (r: Result<(), ShellError>)
        ensures
            r == Err::<(), ShellError>(ShellError::NotImplemented),
            *final(self) == *old(self),
    {
        Err(ShellError::NotImplemented)
    }

    /// Restore `id` from its recovery source. Not written yet.
    pub fn recover_component(&mut self, id: ComponentId) -> (r: Result<(), ShellError>)
        ensures
            r == Err::<(), ShellError>(ShellError::NotImplemented),
            *final(self) == *old(self),
    {
        Err(ShellError::NotImplemented)
    }

    /// Authenticate the staged update. Not written yet.
    pub fn authenticate_update(&mut self) -> (r: Result<(), ShellError>)
        ensures
            r == Err::<(), ShellError>(ShellError::NotImplemented),
            *final(self) == *old(self),
    {
        Err(ShellError::NotImplemented)
    }

    /// Write the incoming update into the staging region. Not written yet.
    pub fn stage_update(&mut self) -> (r: Result<(), ShellError>)
        ensures
            r == Err::<(), ShellError>(ShellError::NotImplemented),
            *final(self) == *old(self),
    {
        Err(ShellError::NotImplemented)
    }

    /// Trial-boot the staged image and arm the commit watchdog. Not written
    /// yet.
    pub fn activate_update(&mut self) -> (r: Result<(), ShellError>)
        ensures
            r == Err::<(), ShellError>(ShellError::NotImplemented),
            *final(self) == *old(self),
    {
        Err(ShellError::NotImplemented)
    }

    /// Discard the staged image. Not written yet.
    pub fn discard_staged(&mut self) -> (r: Result<(), ShellError>)
        ensures
            r == Err::<(), ShellError>(ShellError::NotImplemented),
            *final(self) == *old(self),
    {
        Err(ShellError::NotImplemented)
    }

    /// Advance the anti-rollback floor past `id`'s confirmed image. Not
    /// written yet.
    pub fn commit_svn_floor(&mut self, id: ComponentId) -> (r: Result<(), ShellError>)
        ensures
            r == Err::<(), ShellError>(ShellError::NotImplemented),
            *final(self) == *old(self),
    {
        Err(ShellError::NotImplemented)
    }

    /// Sign an attestation for the pending challenge. Not written yet.
    pub fn sign_attestation(&mut self) -> (r: Result<(), ShellError>)
        ensures
            r == Err::<(), ShellError>(ShellError::NotImplemented),
            *final(self) == *old(self),
    {
        Err(ShellError::NotImplemented)
    }

    /// Report `id` gated and the platform degraded. Not written yet.
    pub fn report_isolated(&mut self, id: ComponentId) -> (r: Result<(), ShellError>)
        ensures
            r == Err::<(), ShellError>(ShellError::NotImplemented),
            *final(self) == *old(self),
    {
        Err(ShellError::NotImplemented)
    }

    /// Report that `id` exhausted recovery. Not written yet.
    pub fn report_recovery_failed(&mut self, id: ComponentId) -> (r: Result<(), ShellError>)
        ensures
            r == Err::<(), ShellError>(ShellError::NotImplemented),
            *final(self) == *old(self),
    {
        Err(ShellError::NotImplemented)
    }

    /// Answer the requester that its update is deferred. Not written yet.
    pub fn report_update_deferred(&mut self) -> (r: Result<(), ShellError>)
        ensures
            r == Err::<(), ShellError>(ShellError::NotImplemented),
            *final(self) == *old(self),
    {
        Err(ShellError::NotImplemented)
    }

    /// Answer the requester that its update was superseded by recovery.
    /// Not written yet.
    pub fn report_update_aborted(&mut self) -> (r: Result<(), ShellError>)
        ensures
            r == Err::<(), ShellError>(ShellError::NotImplemented),
            *final(self) == *old(self),
    {
        Err(ShellError::NotImplemented)
    }

    /// Latch the terminal safe state. Not written yet.
    pub fn latch_lockdown(&mut self) -> (r: Result<(), ShellError>)
        ensures
            r == Err::<(), ShellError>(ShellError::NotImplemented),
            *final(self) == *old(self),
    {
        Err(ShellError::NotImplemented)
    }
}

impl<B: BoardCapabilities, const N: usize> Platform for Shell<B, N> {
    closed spec fn calls(&self) -> Seq<(Effect, Result<Option<Event>, EffectError>)> {
        self.calls@
    }

    /// Route each effect to its executor; every executor error reports as
    /// `EffectError`, and an `Emit`, never the shell's, fails closed. The
    /// verdict of a verification is queued, not fed back.
    fn execute(&mut self, effect: Effect) -> (r: Result<Option<Event>, EffectError>)
        ensures
            r is Ok ==> r == Ok::<Option<Event>, EffectError>(None) && shell_executes(effect),
            !shell_executes(effect) ==> r is Err && final(self).staged_spec() == old(self).staged_spec()
                && final(self).events() == old(self).events(),
            effect matches Effect::ReadFirmware(id) ==> (r is Ok <==> final(self).staged_spec() == Some(id))
                && final(self).events() == old(self).events(),
            effect matches Effect::VerifyFirmware(id) ==> final(self).staged_spec() == old(self).staged_spec() && (
            r is Ok ==> final(self).events() == old(self).events().push(
                verdict_event(id, old(self).image_judge().judgment(id, old(self).images()[id.0 as int])),
            )) && (forall|j: int| 0 <= j < N && j != id.0 ==> #[trigger] final(self).images()[j] == old(self).images()[j]) && (
            r is Err ==> final(self).events() == old(self).events()),
    {
        let outcome = match effect {
            Effect::ReadFirmware(id) => self.read_firmware(id),
            Effect::VerifyFirmware(id) => self.verify_firmware(id),
            Effect::ReleaseReset(id) => self.release_reset(id),
            Effect::AssertReset(id) => self.assert_reset(id),
            Effect::RecoverComponent { id, .. } => self.recover_component(id),
            Effect::AuthenticateUpdate => self.authenticate_update(),
            Effect::StageUpdate => self.stage_update(),
            Effect::ActivateUpdate => self.activate_update(),
            Effect::DiscardStaged => self.discard_staged(),
            Effect::CommitSvnFloor(id) => self.commit_svn_floor(id),
            Effect::SignAttestation => self.sign_attestation(),
            Effect::ReportIsolated(id) => self.report_isolated(id),
            Effect::ReportRecoveryFailed(id) => self.report_recovery_failed(id),
            Effect::ReportUpdateDeferred => self.report_update_deferred(),
            Effect::ReportUpdateAborted => self.report_update_aborted(),
            Effect::LatchLockdown => self.latch_lockdown(),
            Effect::Emit(_) => Err(ShellError::NotImplemented),
        };
        let r = match outcome {
            Ok(()) => Ok(None),
            Err(_) => Err(EffectError),
        };
        self.calls = Ghost(self.calls@.push((effect, r)));
        r
    }
}

} // verus!
