//! The platform driver: one executor per effect the state machine asks
//! for, each delegating to a capability the board composes. Effects whose
//! capability is not composed yet fail closed.

use crate::api::BootControl;
use crate::capabilities::{BootWatch, Svn, SvnFloor};
use crate::machine::{EffectError, Platform};
use crate::model::{ComponentId, ComponentKind, Effect, Event};
use vstd::prelude::*;

verus! {

/// Access to one component's active firmware image, however it is reached.
pub trait ImageSource {
    /// The error type reported by this source.
    type Error: core::fmt::Debug + core::fmt::Display;

    /// Makes the image readable; idempotent, and a later call re-stages it.
    fn open(&mut self) -> Result<(), Self::Error>;

    /// Image length in bytes; meaningful after a successful `open`.
    fn size(&self) -> Result<usize, Self::Error>;

    /// Reads `buf.len()` bytes starting at byte `offset` of the image.
    fn read_at(&mut self, offset: usize, buf: &mut [u8]) -> Result<(), Self::Error>;
}

/// Judges a component's firmware image.
pub trait Verifier {
    /// The error type reported by this verifier.
    type Error: core::fmt::Debug + core::fmt::Display;

    /// The verdict this verifier gives on `id`'s image read from `image`. A
    /// verified implementation defines it, as `verify` cannot meet its
    /// contract otherwise; the default rejects every image.
    open spec fn judgment<I: ImageSource>(&self, id: ComponentId, image: I) -> Verdict {
        Verdict::Rejected
    }

    /// Judges `id`'s image, reading it from `image`. An error means the
    /// check could not be performed; a checked-and-bad image is `Rejected`.
    /// A verdict given is the verifier's judgment of that very image.
    fn verify(&mut self, id: ComponentId, image: &mut impl ImageSource) -> (r: Result<Verdict, Self::Error>)
        ensures
            r matches Ok(v) ==> v == old(self).judgment(id, *old(image)),
    ;
}

/// A verifier's judgment of one image.
#[derive(Debug, Clone, Copy, PartialEq, Eq)]
pub enum Verdict {
    /// Reported as `Event::VerificationPassed`; carries the image's manifest
    /// SVN, the one value the anti-rollback commit may trust.
    Authenticated {
        /// The verified image's security version number.
        svn: Svn,
    },
    /// Reported as `Event::VerificationFailed`.
    Rejected,
}

/// The set of platform capabilities one board composes into the driver.
pub trait BoardCapabilities {
    /// Image access for the managed components.
    type Image: ImageSource;
    /// Judges images for every component.
    type Verifier: Verifier;
    /// Reset actuation for the managed components.
    type BootControl: BootControl;
    /// Boot-checkpoint supervision for the managed components.
    type BootWatch: BootWatch;
    /// The anti-rollback floor of the managed components.
    type SvnFloor: SvnFloor;
}

/// Who keeps one component's anti-rollback floor.
pub enum SvnFloorBinding<F: SvnFloor> {
    /// The eRoT holds the floor and `CommitSvnFloor` advances it.
    Erot(F),
    /// The component tracks its own SVN; the eRoT keeps no second floor.
    SelfManaged,
}

/// Everything the board supplies, indexed by component: entry `i` of each
/// array belongs to `ComponentId(i)`.
pub struct Board<B: BoardCapabilities, const N: usize> {
    pub images: [B::Image; N],
    pub verifier: B::Verifier,
    pub boot_controls: [B::BootControl; N],
    pub boot_watches: [B::BootWatch; N],
    pub component_kinds: [ComponentKind; N],
    pub svn_floors: [SvnFloorBinding<B::SvnFloor>; N],
}

/// Why the driver could not carry out an effect.
#[derive(Clone, Copy, PartialEq, Eq, Debug, Structural)]
pub enum DriverError {
    /// The effect names a component the driver has no device for.
    UnknownComponent,
    /// The component's image source could not be opened.
    ImageUnavailable,
    /// Verify was asked for a component whose image was never staged.
    NotStaged,
    /// The verifier could not perform the check.
    VerifierFault,
    /// The component's boot control could not actuate the reset line.
    BootControlFault,
}

/// The sentence that reports each driver error.
pub open spec fn driver_error_text(e: DriverError) -> Seq<char> {
    match e {
        DriverError::UnknownComponent => "no device for this component id"@,
        DriverError::ImageUnavailable => "image source could not be opened"@,
        DriverError::NotStaged => "no image staged for this component"@,
        DriverError::VerifierFault => "verifier could not perform the check"@,
        DriverError::BootControlFault => "boot control could not actuate the reset"@,
    }
}

impl DriverError {
    /// The sentence that reports this error.
    pub fn message(&self) -> (m: &'static str)
        ensures
            m@ == driver_error_text(*self),
    {
        match self {
            DriverError::UnknownComponent => "no device for this component id",
            DriverError::ImageUnavailable => "image source could not be opened",
            DriverError::NotStaged => "no image staged for this component",
            DriverError::VerifierFault => "verifier could not perform the check",
            DriverError::BootControlFault => "boot control could not actuate the reset",
        }
    }
}

/// The event a verdict on `id`'s image is reported as.
pub open spec fn verdict_event(id: ComponentId, verdict: Verdict) -> Event {
    match verdict {
        Verdict::Authenticated { .. } => Event::VerificationPassed(id),
        Verdict::Rejected => Event::VerificationFailed(id),
    }
}

/// Report a verdict on `id`'s image as the event the state machine takes.
pub fn event_for_verdict(id: ComponentId, verdict: Verdict) -> (r: Event)
    ensures
        r == verdict_event(id, verdict),
{
    match verdict {
        Verdict::Authenticated { .. } => Event::VerificationPassed(id),
        Verdict::Rejected => Event::VerificationFailed(id),
    }
}

/// Whether the driver has an executor for `effect`; every other effect
/// fails closed.
pub open spec fn has_executor(effect: Effect) -> bool {
    effect is ReadFirmware || effect is VerifyFirmware || effect is ReleaseReset || effect is AssertReset
}

/// The effect executors over one board.
pub struct PlatformDriver<B: BoardCapabilities, const N: usize> {
    board: Board<B, N>,
    /// Component whose image is staged (source opened) for verification.
    staged: Option<ComponentId>,
    /// The effects carried out so far, each with its answer.
    calls: Ghost<Seq<(Effect, Result<Option<Event>, EffectError>)>>,
}

impl<B: BoardCapabilities, const N: usize> PlatformDriver<B, N> {
    /// The component whose image is staged, if any.
    pub closed spec fn staged_spec(&self) -> Option<ComponentId> {
        self.staged
    }

    /// The board's verifier.
    pub closed spec fn image_judge(&self) -> B::Verifier {
        self.board.verifier
    }

    /// The board's image sources, by component.
    pub closed spec fn images(&self) -> Seq<B::Image> {
        self.board.images@
    }

    /// The board's boot controls, by component.
    pub closed spec fn controls(&self) -> Seq<B::BootControl> {
        self.board.boot_controls@
    }

    /// Whether the device of component `i` is held in reset, as its boot
    /// control records it.
    pub open spec fn line_held(&self, i: int) -> bool {
        self.controls()[i].held()
    }

    pub fn new(board: Board<B, N>) -> (r: Self)
        ensures
            r.staged_spec() is None,
            r.calls() == Seq::<(Effect, Result<Option<Event>, EffectError>)>::empty(),
    {
        PlatformDriver { board, staged: None, calls: Ghost(Seq::empty()) }
    }

    /// Stage `id`'s image: open its source so it can be verified. Any
    /// earlier staging is dropped first; `id` is staged exactly when this
    /// succeeds.
    pub fn stage_firmware(&mut self, id: ComponentId) -> (r: Result<(), DriverError>)
        ensures
            forall|j: int| 0 <= j < N && j != id.0 ==> #[trigger] final(self).images()[j] == old(self).images()[j],
            final(self).images().len() == old(self).images().len(),
            final(self).controls() == old(self).controls(),
            final(self).calls() == old(self).calls(),
            id.0 >= N ==> r == Err::<(), DriverError>(DriverError::UnknownComponent),
            id.0 < N ==> r is Ok || r == Err::<(), DriverError>(DriverError::ImageUnavailable),
            final(self).staged_spec() == if r is Ok {
                Some(id)
            } else {
                None
            },
    {
        self.staged = None;
        let i = id.get() as usize;
        if i >= N {
            return Err(DriverError::UnknownComponent);
        }
        match self.board.images[i].open() {
            Ok(()) => {},
            Err(_) => return Err(DriverError::ImageUnavailable),
        }
        self.staged = Some(id);
        Ok(())
    }

    /// Judge the staged image and report the verdict as the event the state
    /// machine takes. An unknown id is reported before a missing staging;
    /// either way the verifier is never invoked and the board is untouched.
    pub fn verify_firmware(&mut self, id: ComponentId) -> (r: Result<Event, DriverError>)
        ensures
            forall|j: int| 0 <= j < N && j != id.0 ==> #[trigger] final(self).images()[j] == old(self).images()[j],
            final(self).images().len() == old(self).images().len(),
            final(self).controls() == old(self).controls(),
            final(self).calls() == old(self).calls(),
            final(self).staged_spec() == old(self).staged_spec(),
            id.0 >= N ==> r == Err::<Event, DriverError>(DriverError::UnknownComponent),
            id.0 < N && old(self).staged_spec() != Some(id) ==> r == Err::<Event, DriverError>(
                DriverError::NotStaged,
            ),
            id.0 < N && old(self).staged_spec() == Some(id) ==> match r {
                Ok(ev) => ev == verdict_event(id, old(self).image_judge().judgment(id, old(self).images()[id.0 as int])),
                Err(e) => e == DriverError::VerifierFault,
            },
            (id.0 >= N || old(self).staged_spec() != Some(id)) ==> *final(self) == *old(self),
    {
        let i = id.get() as usize;
        if i >= N {
            return Err(DriverError::UnknownComponent);
        }
        match self.staged {
            Some(s) => {
                if s.0 != id.0 {
                    return Err(DriverError::NotStaged);
                }
            },
            None => return Err(DriverError::NotStaged),
        }
        let verdict = match self.board.verifier.verify(id, &mut self.board.images[i]) {
            Ok(v) => v,
            Err(_) => return Err(DriverError::VerifierFault),
        };
        Ok(event_for_verdict(id, verdict))
    }

    /// Release `id` from reset.
    pub fn release_reset(&mut self, id: ComponentId) -> (r: Result<(), DriverError>)
        ensures
            forall|j: int| 0 <= j < N && j != id.0 ==> #[trigger] final(self).controls()[j] == old(self).controls()[j],
            final(self).controls().len() == old(self).controls().len(),
            final(self).images() == old(self).images(),
            r is Ok ==> !final(self).line_held(id.0 as int),
            final(self).calls() == old(self).calls(),
            final(self).staged_spec() == old(self).staged_spec(),
            id.0 >= N ==> r == Err::<(), DriverError>(DriverError::UnknownComponent),
            id.0 < N ==> r is Ok || r == Err::<(), DriverError>(DriverError::BootControlFault),
            id.0 >= N ==> *final(self) == *old(self),
    {
        let i = id.get() as usize;
        if i >= N {
            return Err(DriverError::UnknownComponent);
        }
        match self.board.boot_controls[i].release() {
            Ok(()) => Ok(()),
            Err(_) => Err(DriverError::BootControlFault),
        }
    }

    /// Hold `id` in reset: a durable hold, not a pulse.
    pub fn assert_reset(&mut self, id: ComponentId) -> (r: Result<(), DriverError>)
        ensures
            forall|j: int| 0 <= j < N && j != id.0 ==> #[trigger] final(self).controls()[j] == old(self).controls()[j],
            final(self).controls().len() == old(self).controls().len(),
            final(self).images() == old(self).images(),
            r is Ok ==> final(self).line_held(id.0 as int),
            final(self).calls() == old(self).calls(),
            final(self).staged_spec() == old(self).staged_spec(),
            id.0 >= N ==> r == Err::<(), DriverError>(DriverError::UnknownComponent),
            id.0 < N ==> r is Ok || r == Err::<(), DriverError>(DriverError::BootControlFault),
            id.0 >= N ==> *final(self) == *old(self),
    {
        let i = id.get() as usize;
        if i >= N {
            return Err(DriverError::UnknownComponent);
        }
        match self.board.boot_controls[i].hold_in_reset() {
            Ok(()) => Ok(()),
            Err(_) => Err(DriverError::BootControlFault),
        }
    }
}

impl<B: BoardCapabilities, const N: usize> Platform for PlatformDriver<B, N> {
    closed spec fn calls(&self) -> Seq<(Effect, Result<Option<Event>, EffectError>)> {
        self.calls@
    }

    /// Route one effect to its executor. Only a verification returns an
    /// event; an effect with no executor yet, or `Emit`, fails closed.
    fn execute(&mut self, effect: Effect) -> (r: Result<Option<Event>, EffectError>)
        ensures
            !has_executor(effect) ==> r is Err && final(self).staged_spec() == old(self).staged_spec(),
            effect matches Effect::ReadFirmware(id) ==> (r is Ok <==> final(self).staged_spec() == Some(id)) && (
            r is Ok ==> r == Ok::<Option<Event>, EffectError>(None)),
            effect matches Effect::VerifyFirmware(id) ==> final(self).staged_spec() == old(self).staged_spec() && (
            r is Ok ==> old(self).staged_spec() == Some(id) && r == Ok::<Option<Event>, EffectError>(
                Some(verdict_event(id, old(self).image_judge().judgment(id, old(self).images()[id.0 as int]))),
            )),
            effect is ReleaseReset || effect is AssertReset ==> final(self).staged_spec()
                == old(self).staged_spec() && (r is Ok ==> r == Ok::<Option<Event>, EffectError>(None)),
            effect matches Effect::ReleaseReset(id) ==> (r is Ok ==> !final(self).line_held(id.0 as int))
                && final(self).images() == old(self).images() && forall|j: int|
                0 <= j < N && j != id.0 ==> #[trigger] final(self).controls()[j] == old(self).controls()[j],
            effect matches Effect::AssertReset(id) ==> (r is Ok ==> final(self).line_held(id.0 as int))
                && final(self).images() == old(self).images() && forall|j: int|
                0 <= j < N && j != id.0 ==> #[trigger] final(self).controls()[j] == old(self).controls()[j],
            effect matches Effect::ReadFirmware(id) ==> final(self).controls() == old(self).controls() && forall|j: int|
                0 <= j < N && j != id.0 ==> #[trigger] final(self).images()[j] == old(self).images()[j],
            effect matches Effect::VerifyFirmware(id) ==> final(self).controls() == old(self).controls() && forall|j: int|
                0 <= j < N && j != id.0 ==> #[trigger] final(self).images()[j] == old(self).images()[j],
    {
        let r = match effect {
            Effect::ReadFirmware(id) => match self.stage_firmware(id) {
                Ok(()) => Ok(None),
                Err(_) => Err(EffectError),
            },
            Effect::VerifyFirmware(id) => match self.verify_firmware(id) {
                Ok(ev) => Ok(Some(ev)),
                Err(_) => Err(EffectError),
            },
            Effect::ReleaseReset(id) => match self.release_reset(id) {
                Ok(()) => Ok(None),
                Err(_) => Err(EffectError),
            },
            Effect::AssertReset(id) => match self.assert_reset(id) {
                Ok(()) => Ok(None),
                Err(_) => Err(EffectError),
            },
            _ => Err(EffectError),
        };
        self.calls = Ghost(self.calls@.push((effect, r)));
        r
    }
}

} // verus!
