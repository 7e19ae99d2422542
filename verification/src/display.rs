//! The window: on which display it opens, and how it goes fullscreen.
use vstd::prelude::*;

verus! {

/// A rectangle of pixels: a display, or the place of a window.
#[derive(Clone, Copy, Debug, PartialEq, Eq, Structural)]
pub struct Geometry {
    pub x: i32,
    pub y: i32,
    pub width: u32,
    pub height: u32,
}

/// A display, as the system reports it.
#[derive(Debug)]
pub struct Monitor {
    pub name: Option<String>,
    pub geometry: Geometry,
}

/// A line of the list of displays.
#[derive(Debug)]
pub struct DisplayLine {
    /// The number of the display, 1-based.
    pub number: usize,
    pub name: String,
    pub geometry: Geometry,
}

/// The name to show for a display.
pub open spec fn shown_name(name: Option<String>) -> Seq<char> {
    match name {
        Some(n) => n@,
        None => "<unnamed>"@,
    }
}

/// The name to show for a display.
pub fn display_name(name: &Option<String>) -> (r: String)
    ensures
        r@ == shown_name(*name),
{
    match name {
        Some(n) => n.clone(),
        None => "<unnamed>".to_owned(),
    }
}

/// The list of displays, numbered from one in the order of the system.
pub fn list_displays(monitors: &Vec<Monitor>) -> (r: Vec<DisplayLine>)
    ensures
        r@.len() == monitors@.len(),
        forall|i: int|
            0 <= i < r@.len() ==> {
                &&& (#[trigger] r@[i]).number == i + 1
                &&& r@[i].name@ == shown_name(monitors@[i].name)
                &&& r@[i].geometry == monitors@[i].geometry
            },
{
    let mut lines: Vec<DisplayLine> = Vec::new();
    let mut i: usize = 0;
    while i < monitors.len()
        invariant
            0 <= i <= monitors@.len(),
            lines@.len() == i,
            forall|k: int|
                0 <= k < i ==> {
                    &&& (#[trigger] lines@[k]).number == k + 1
                    &&& lines@[k].name@ == shown_name(monitors@[k].name)
                    &&& lines@[k].geometry == monitors@[k].geometry
                },
        decreases monitors@.len() - i,
    {
        lines.push(
            DisplayLine {
                number: i + 1,
                name: display_name(&monitors[i].name),
                geometry: monitors[i].geometry,
            },
        );
        i = i + 1;
    }
    lines
}

/// What becomes of the wish to open on a display.
#[derive(Debug)]
pub enum Placement {
    /// The window moves to the corner of this display.
    Move(DisplayLine),
    /// There is no such display; this is its number, 1-based.
    Missing(usize),
}

/// Where a window opens that is meant for display `index` (0-based), so that a
/// following fullscreen lands there.
pub fn place_on_display(monitors: &Vec<Monitor>, index: usize) -> (r: Placement)
    requires
        index < usize::MAX,
    ensures
        match r {
            Placement::Move(line) => {
                &&& index < monitors@.len()
                &&& line.number == index + 1
                &&& line.name@ == shown_name(monitors@[index as int].name)
                &&& line.geometry == monitors@[index as int].geometry
            },
            Placement::Missing(number) => index >= monitors@.len() && number == index + 1,
        },
{
    if index < monitors.len() {
        Placement::Move(
            DisplayLine {
                number: index + 1,
                name: display_name(&monitors[index].name),
                geometry: monitors[index].geometry,
            },
        )
    } else {
        Placement::Missing(index + 1)
    }
}

/// A display to cover.
#[derive(Clone, Copy, Debug, PartialEq, Eq, Structural)]
pub enum Target {
    /// The display at this place of the system's list.
    Listed(usize),
    /// The display that the window is on, if it is on any.
    Current,
}

/// The display that was asked for, if there is such a one, otherwise the one that
/// the window is on.
pub open spec fn covered(available: usize, display: Option<usize>) -> Target {
    match display {
        Some(index) => if index < available {
            Target::Listed(index)
        } else {
            Target::Current
        },
        None => Target::Current,
    }
}

/// The display a fullscreen window should cover: the one that was asked for, if
/// there is such a one, otherwise the one that the window is on.
pub fn target_monitor(available: usize, display: Option<usize>) -> (r: Target)
    ensures
        r == covered(available, display),
{
    match display {
        Some(index) => {
            if index < available {
                Target::Listed(index)
            } else {
                Target::Current
            }
        },
        None => Target::Current,
    }
}

/// What to do to a window that is made fullscreen by hand.
#[derive(Clone, Copy, Debug, PartialEq, Eq, Structural)]
pub enum Fullscreen {
    /// Nothing: there is no display to cover.
    Nothing,
    /// Drop the decorations and cover this.
    Enter(Geometry),
    /// Put the decorations back and, where it is known, return to this.
    Leave(Option<Geometry>),
}

impl Fullscreen {
    /// The geometry that the window should end up with.
    pub open spec fn request(self) -> Option<Geometry> {
        match self {
            Fullscreen::Enter(geometry) => Some(geometry),
            _ => None,
        }
    }

    /// The geometry that was asked for, so that it can be checked whether it
    /// actually took.
    pub fn requested(&self) -> (r: Option<Geometry>)
        ensures
            r == self.request(),
    {
        match self {
            Fullscreen::Enter(geometry) => Some(*geometry),
            _ => None,
        }
    }
}

/// Going fullscreen or leaving it, by hand: what to do, and what to remember of
/// where the window was.
pub open spec fn switched(
    on: bool,
    target: Option<Geometry>,
    current: Geometry,
    saved: Option<Geometry>,
) -> (Fullscreen, Option<Geometry>) {
    if !on {
        (Fullscreen::Leave(saved), None)
    } else if target is None {
        (Fullscreen::Nothing, saved)
    } else if saved is None {
        (Fullscreen::Enter(target->0), Some(current))
    } else {
        (Fullscreen::Enter(target->0), saved)
    }
}

/// Goes fullscreen or leaves it, by hand.
///
/// `target` is the display to cover, `current` where the window is, and `saved`
/// where it was before it went fullscreen. That is remembered on the first way
/// in, and used up on the way out.
pub fn set_fullscreen(
    on: bool,
    target: Option<Geometry>,
    current: Geometry,
    saved: &mut Option<Geometry>,
) -> (r: Fullscreen)
    ensures
        (r, *final(saved)) == switched(on, target, current, *old(saved)),
{
    if on {
        match target {
            Some(geometry) => {
                if saved.is_none() {
                    *saved = Some(current);
                }
                Fullscreen::Enter(geometry)
            },
            None => Fullscreen::Nothing,
        }
    } else {
        let geometry: Option<Geometry> = *saved;
        *saved = None;
        Fullscreen::Leave(geometry)
    }
}

/// Goes borderless fullscreen or leaves it, by the window system: the display to
/// cover, if any.
pub fn borderless(on: bool, available: usize, display: Option<usize>) -> (r: Option<Target>)
    ensures
        r == if on {
            Some(covered(available, display))
        } else {
            None
        },
{
    if on {
        Some(target_monitor(available, display))
    } else {
        None
    }
}

/// Whether a window that could not be created is tried again on X11: on Linux,
/// unless a backend was chosen explicitly.
pub fn retry_on_x11(linux: bool, backend_chosen: bool) -> (r: bool)
    ensures
        r == (linux && !backend_chosen),
{
    linux && !backend_chosen
}

/// How long the size must hold still before it counts as final, in polls.
pub const STABLE_POLLS: u32 = 12;

/// How often the geometry is applied again, in nanoseconds. Doing it on every
/// frame only queues up work.
pub const APPLY_INTERVAL: u64 = 100_000_000;

/// How long the window has to reach the other display before its size holding
/// still means anything, in nanoseconds.
pub const SETTLE_GRACE: u64 = 700_000_000;

/// When to stop trying, in nanoseconds.
pub const PATIENCE: u64 = 3_000_000_000;

/// How far, in pixels, a side may be off what was asked for: a scaled display
/// mode rounds.
pub const TOLERANCE: u32 = 2;

/// Keeps re-applying a fullscreen geometry until the window reports it.
///
/// The calls that set it take effect later and depend on the scale factor of
/// the display that the window is on at the time. The window does not always end
/// up with exactly what was asked for, so this settles on the size going stable,
/// not on an exact match. Times are in nanoseconds, of a clock that does not go
/// back.
pub struct FullscreenEnforcer {
    pub target: Option<Geometry>,
    pub started: u64,
    pub deadline: u64,
    pub last_apply: u64,
    pub last_seen: Option<(u32, u32)>,
    /// How often in a row the size was the same. The count wraps.
    pub stable_polls: u32,
    pub settled: bool,
}

/// What to do after a look at the window.
#[derive(Clone, Copy, Debug, PartialEq, Eq, Structural)]
pub enum Poll {
    /// There was nothing to wait for.
    Idle,
    /// The window has the size that was asked for.
    Matched,
    /// The window has settled at another size, or time is up.
    Settled,
    /// Wait.
    Wait,
    /// Apply this geometry again.
    Apply(Geometry),
}

/// Whether two sides differ by no more than rounding.
pub open spec fn close(a: u32, b: u32) -> bool {
    -TOLERANCE <= a - b <= TOLERANCE
}

/// The time between two moments, or none if the clock went back.
pub open spec fn since(now: u64, then: u64) -> int {
    if now >= then {
        now - then
    } else {
        0
    }
}

impl FullscreenEnforcer {
    /// The window still has to reach this.
    pub open spec fn pending(self) -> Option<Geometry> {
        if self.settled {
            None
        } else {
            self.target
        }
    }

    /// The enforcer after seeing the size of the window once more.
    pub open spec fn having_seen(self, size: (u32, u32)) -> FullscreenEnforcer {
        FullscreenEnforcer {
            last_seen: Some(size),
            stable_polls: if self.last_seen == Some(size) {
                ((self.stable_polls + 1) % 0x1_0000_0000) as u32
            } else {
                0
            },
            ..self
        }
    }

    /// The size has held still for long enough.
    pub open spec fn held_still(self, now: u64) -> bool {
        self.stable_polls >= STABLE_POLLS && since(now, self.started) >= SETTLE_GRACE
    }

    /// What a look at a window of this size leads to, and the enforcer after it.
    pub open spec fn polled(self, now: u64, size: (u32, u32)) -> (Poll, FullscreenEnforcer) {
        match self.pending() {
            None => (Poll::Idle, self),
            Some(wanted) => {
                let seen = self.having_seen(size);
                if close(size.0, wanted.width) && close(size.1, wanted.height) {
                    (Poll::Matched, FullscreenEnforcer { settled: true, ..self })
                } else if seen.held_still(now) || now >= self.deadline {
                    (Poll::Settled, FullscreenEnforcer { settled: true, ..seen })
                } else if since(now, self.last_apply) >= APPLY_INTERVAL {
                    (Poll::Apply(wanted), FullscreenEnforcer { last_apply: now, ..seen })
                } else {
                    (Poll::Wait, seen)
                }
            },
        }
    }

    /// An enforcer with nothing to do.
    pub fn new(now: u64) -> (r: Self)
        ensures
            r == (FullscreenEnforcer {
                target: None,
                started: now,
                deadline: now,
                last_apply: now,
                last_seen: None,
                stable_polls: 0,
                settled: true,
            }),
    {
        FullscreenEnforcer {
            target: None,
            started: now,
            deadline: now,
            last_apply: now,
            last_seen: None,
            stable_polls: 0,
            settled: true,
        }
    }

    /// Begins to wait for a geometry, or stops waiting.
    pub fn aim(&mut self, target: Option<Geometry>, now: u64)
        requires
            now + PATIENCE <= u64::MAX,
        ensures
            *final(self) == (FullscreenEnforcer {
                target,
                started: now,
                deadline: (now + PATIENCE) as u64,
                last_apply: now,
                last_seen: None,
                stable_polls: 0,
                settled: target is None,
            }),
    {
        self.target = target;
        self.settled = target.is_none();
        self.started = now;
        self.deadline = now + PATIENCE;
        self.last_apply = now;
        self.last_seen = None;
        self.stable_polls = 0;
    }

    /// Looks at the size of the window.
    pub fn poll(&mut self, now: u64, width: u32, height: u32) -> (r: Poll)
        ensures
            (r, *final(self)) == old(self).polled(now, (width, height)),
    {
        let wanted: Geometry = match self.target {
            Some(target) => {
                if self.settled {
                    return Poll::Idle;
                }
                target
            },
            None => {
                return Poll::Idle;
            },
        };
        if is_close(width, wanted.width) && is_close(height, wanted.height) {
            self.settled = true;
            return Poll::Matched;
        }
        let same_size: bool = match self.last_seen {
            Some((w, h)) => w == width && h == height,
            None => false,
        };
        if same_size {
            self.stable_polls = self.stable_polls.wrapping_add(1);
        } else {
            self.last_seen = Some((width, height));
            self.stable_polls = 0;
        }
        let held_still: bool = self.stable_polls >= STABLE_POLLS && now.saturating_sub(self.started)
            >= SETTLE_GRACE;
        if held_still || now >= self.deadline {
            self.settled = true;
            return Poll::Settled;
        }
        if now.saturating_sub(self.last_apply) >= APPLY_INTERVAL {
            self.last_apply = now;
            return Poll::Apply(wanted);
        }
        Poll::Wait
    }
}

/// Whether two sides differ by no more than rounding.
fn is_close(a: u32, b: u32) -> (r: bool)
    ensures
        r == close(a, b),
{
    if a >= b {
        a - b <= TOLERANCE
    } else {
        b - a <= TOLERANCE
    }
}

/// What is remembered after going fullscreen once more for each of `steps`: a
/// display to cover, if any, and where the window is then.
pub open spec fn remembered(
    saved: Option<Geometry>,
    steps: Seq<(Option<Geometry>, Geometry)>,
) -> Option<Geometry>
    decreases steps.len(),
{
    if steps.len() == 0 {
        saved
    } else {
        let (target, current) = steps.last();
        switched(true, target, current, remembered(saved, steps.drop_last())).1
    }
}

/// Once it is remembered where the window was, going fullscreen again does not
/// change that.
pub proof fn law_first_place_is_kept(
    target: Option<Geometry>,
    current: Geometry,
    windowed: Geometry,
)
    ensures
        switched(true, target, current, Some(windowed)).1 == Some(windowed),
{
}

/// Leaving fullscreen returns the window to where it was before it first went
/// fullscreen, however often it changed displays in between.
pub proof fn law_leaving_returns_the_window(
    windowed: Geometry,
    first: Geometry,
    steps: Seq<(Option<Geometry>, Geometry)>,
    target: Option<Geometry>,
    last: Geometry,
)
    ensures
        ({
            let (_, saved) = switched(true, Some(first), windowed, None);
            switched(false, target, last, remembered(saved, steps)) == (
                Fullscreen::Leave(Some(windowed)),
                None::<Geometry>,
            )
        }),
    decreases steps.len(),
{
    if steps.len() > 0 {
        law_leaving_returns_the_window(windowed, first, steps.drop_last(), target, last);
        let (_, saved) = switched(true, Some(first), windowed, None);
        assert(remembered(saved, steps.drop_last()) == Some(windowed));
    }
}

/// A display that does not exist falls back to the one that the window is on.
pub proof fn law_missing_display_falls_back(available: usize, index: usize)
    ensures
        covered(available, Some(index)) == if index < available {
            Target::Listed(index)
        } else {
            covered(available, None)
        },
{
}

/// Once settled, an enforcer stays out of the way until it is aimed again.
pub proof fn law_settled_stays_idle(enforcer: FullscreenEnforcer, now: u64, size: (u32, u32))
    requires
        enforcer.settled,
    ensures
        enforcer.polled(now, size) == (Poll::Idle, enforcer),
{
}

/// An enforcer gives up at its deadline, and not before the window matches or
/// has held still after the grace period.
pub proof fn law_settles_in_time(enforcer: FullscreenEnforcer, now: u64, size: (u32, u32))
    ensures
        now >= enforcer.deadline && enforcer.target is Some ==> enforcer.polled(
            now,
            size,
        ).1.settled,
        enforcer.polled(now, size).0 == Poll::Settled ==> now >= enforcer.deadline || since(
            now,
            enforcer.started,
        ) >= SETTLE_GRACE,
{
}

/// The geometry is not applied again within the interval after it was applied.
pub proof fn law_applies_are_spaced(
    enforcer: FullscreenEnforcer,
    now: u64,
    size: (u32, u32),
    later: u64,
    other: (u32, u32),
)
    requires
        enforcer.polled(now, size).0 is Apply,
        enforcer.polled(now, size).1.polled(later, other).0 is Apply,
    ensures
        later >= now + APPLY_INTERVAL,
{
}

/// Going fullscreen covers the display that is meant, and the window is remembered
/// to be where it is, unless it is remembered already; without a display nothing
/// happens. Leaving puts the window back to where it is remembered to be, and forgets
/// it. Only going fullscreen asks for a geometry, that of the display.
pub proof fn law_switching_fullscreen(
    target: Geometry,
    any: Option<Geometry>,
    current: Geometry,
    windowed: Geometry,
    saved: Option<Geometry>,
)
    ensures
        switched(true, Some(target), current, None) == (
            Fullscreen::Enter(target),
            Some(current),
        ),
        switched(true, Some(target), current, Some(windowed)) == (
            Fullscreen::Enter(target),
            Some(windowed),
        ),
        switched(true, None, current, saved) == (Fullscreen::Nothing, saved),
        switched(false, any, current, saved) == (Fullscreen::Leave(saved), None::<Geometry>),
        Fullscreen::Enter(target).request() == Some(target),
        Fullscreen::Nothing.request() is None,
        Fullscreen::Leave(saved).request() is None,
{
}

/// A look at the window changes neither what is asked for, nor when that began, nor
/// until when it is tried; and what has settled stays settled.
pub proof fn law_looking_keeps_the_aim(enforcer: FullscreenEnforcer, now: u64, size: (u32, u32))
    ensures
        ({
            let after = enforcer.polled(now, size).1;
            &&& after.target == enforcer.target
            &&& after.started == enforcer.started
            &&& after.deadline == enforcer.deadline
            &&& enforcer.settled ==> after.settled
            &&& enforcer.target is None ==> after == enforcer
        }),
{
}

/// The window has what was asked for just where each side is at most two pixels off;
/// that settles it.
pub proof fn law_matching_is_within_two_pixels(
    enforcer: FullscreenEnforcer,
    wanted: Geometry,
    now: u64,
    width: u32,
    height: u32,
)
    requires
        enforcer.target == Some(wanted),
        !enforcer.settled,
    ensures
        ({
            let (poll, after) = enforcer.polled(now, (width, height));
            &&& poll == Poll::Matched <==> -2 <= width - wanted.width <= 2 && -2 <= height
                - wanted.height <= 2
            &&& poll == Poll::Matched ==> after.settled
            &&& poll != Poll::Idle
        }),
{
}

/// A window of another size is let be after the deadline, or once its size was the
/// same in twelve looks in a row and 700 milliseconds have gone by since the aim; only
/// then is it settled.
pub proof fn law_another_size_settles_late(
    enforcer: FullscreenEnforcer,
    wanted: Geometry,
    now: u64,
    width: u32,
    height: u32,
)
    requires
        enforcer.target == Some(wanted),
        !enforcer.settled,
        !(-2 <= width - wanted.width <= 2 && -2 <= height - wanted.height <= 2),
        enforcer.stable_polls < u32::MAX,
    ensures
        ({
            let (poll, after) = enforcer.polled(now, (width, height));
            let same = enforcer.last_seen == Some((width, height));
            &&& after.last_seen == Some((width, height))
            &&& same ==> after.stable_polls == enforcer.stable_polls + 1
            &&& !same ==> after.stable_polls == 0
            &&& poll == Poll::Settled <==> now >= enforcer.deadline || (after.stable_polls >= 12
                && now >= enforcer.started + 700_000_000)
            &&& after.settled <==> poll == Poll::Settled
        }),
{
}

/// Until it is settled, the geometry that was asked for, and no other, is applied
/// again whenever 100 milliseconds have gone by since it last was, and not before.
pub proof fn law_the_aim_is_applied_again(
    enforcer: FullscreenEnforcer,
    wanted: Geometry,
    now: u64,
    size: (u32, u32),
)
    requires
        enforcer.target == Some(wanted),
        !enforcer.polled(now, size).1.settled,
    ensures
        ({
            let (poll, after) = enforcer.polled(now, size);
            &&& now >= enforcer.last_apply + 100_000_000 ==> poll == Poll::Apply(wanted)
                && after.last_apply == now
            &&& now < enforcer.last_apply + 100_000_000 ==> poll == Poll::Wait
                && after.last_apply == enforcer.last_apply
        }),
{
}

/// The display that is covered is the one at the place that was asked for, if there
/// is one there.
pub proof fn law_display_asked_for_is_covered(available: usize, index: usize)
    ensures
        index < available ==> covered(available, Some(index)) == Target::Listed(index),
        index >= available ==> covered(available, Some(index)) == Target::Current,
        covered(available, None) == Target::Current,
{
}

/// A display is shown by its name, and as unnamed where it has none.
pub proof fn law_displays_are_shown_by_name(name: String)
    ensures
        shown_name(Some(name)) == name@,
        shown_name(None) == "<unnamed>"@,
{
}

} // verus!
