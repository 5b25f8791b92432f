//! The windows: the island at the top of the screen and the overlay at its bottom.
//!
//! Places and sizes are in pixels of the screen, unless they are called logical. Logical sizes, the
//! place of the pointer and scales are numbers of double precision and are kept by their bits.

use crate::number::{is_nan, larger, larger_of, rank, smaller, smaller_of};
use vstd::prelude::*;

verus! {

/// The height of the collapsed island. Only scaling changes it.
pub const COLLAPSED_HEIGHT: u32 = 54;

/// How far below the top of the screen the island is.
pub const TOP_OFFSET: i32 = 54;

/// The width of the edge of a window that lets clicks through.
pub const OUTER_GUTTER: i32 = 10;

/// The least logical width that is left to the island: the bits of 240.
pub const MIN_ISLAND_WIDTH: u64 = 0x406e_0000_0000_0000;

/// The least logical height that is left to the island: the bits of 120.
pub const MIN_ISLAND_HEIGHT: u64 = 0x405e_0000_0000_0000;

/// The logical width of the compact overlay: the bits of 320.
pub const COMPACT_OVERLAY_WIDTH: u64 = 0x4074_0000_0000_0000;

/// The logical height of the compact overlay: the bits of 68.
pub const COMPACT_OVERLAY_HEIGHT: u64 = 0x4051_0000_0000_0000;

/// The logical width of the expanded overlay: the bits of 720.
pub const EXPANDED_OVERLAY_WIDTH: u64 = 0x4086_8000_0000_0000;

/// The logical height of the expanded overlay: the bits of 680.
pub const EXPANDED_OVERLAY_HEIGHT: u64 = 0x4085_4000_0000_0000;

/// The logical distance of the expanded overlay from the edges of the screen: the bits of 24.
pub const EXPANDED_OVERLAY_MARGIN: u64 = 0x4038_0000_0000_0000;

/// What is told where there is no overlay.
pub const NO_OVERLAY: &'static str = "Voice overlay window not found";

// The state of the windows.

/// How the overlay is shown.
#[derive(Debug, Clone, Copy, PartialEq, Eq, Structural)]
pub enum VoiceOverlayPresentationMode {
    Hidden,
    Compact,
    Expanded,
}

impl Default for VoiceOverlayPresentationMode {
    fn default() -> (mode: VoiceOverlayPresentationMode)
        ensures
            mode is Compact,
    {
        VoiceOverlayPresentationMode::Compact
    }
}

impl VoiceOverlayPresentationMode {
    /// The name of the mode.
    pub open spec fn name(self) -> Seq<char> {
        match self {
            VoiceOverlayPresentationMode::Hidden => "hidden"@,
            VoiceOverlayPresentationMode::Compact => "compact"@,
            VoiceOverlayPresentationMode::Expanded => "expanded"@,
        }
    }

    /// The name of the mode.
    pub fn as_str(self) -> (name: &'static str)
        ensures
            name@ == self.name(),
    {
        match self {
            VoiceOverlayPresentationMode::Hidden => "hidden",
            VoiceOverlayPresentationMode::Compact => "compact",
            VoiceOverlayPresentationMode::Expanded => "expanded",
        }
    }
}

/// The screen that the pointer is on.
#[derive(Debug, Clone, Copy)]
pub struct CursorMonitorGeometry {
    /// Who told.
    pub source: &'static str,
    pub cursor_x: u64,
    pub cursor_y: u64,
    pub monitor: Area,
    /// The part of the screen that windows may take.
    pub work: Area,
    pub scale: u64,
}

/// Where the overlay is and how it is shown.
#[derive(Debug, Clone, Copy)]
pub struct VoiceOverlayPlacement {
    pub cursor_monitor: Option<CursorMonitorGeometry>,
    pub presentation: VoiceOverlayPresentationMode,
    /// How it was shown when it was last shown.
    pub last_non_hidden: VoiceOverlayPresentationMode,
    /// The user has put it where it is.
    pub manually_positioned: bool,
}

impl Default for VoiceOverlayPlacement {
    fn default() -> (placement: VoiceOverlayPlacement)
        ensures
            placement.wf(),
            placement.cursor_monitor is None,
            placement.presentation is Hidden,
            placement.last_non_hidden is Compact,
            !placement.manually_positioned,
    {
        VoiceOverlayPlacement {
            cursor_monitor: None,
            presentation: VoiceOverlayPresentationMode::Hidden,
            last_non_hidden: VoiceOverlayPresentationMode::Compact,
            manually_positioned: false,
        }
    }
}

impl VoiceOverlayPlacement {
    /// How it was last shown is a way in which it is shown, and it is the present way where it is
    /// shown.
    pub open spec fn wf(&self) -> bool {
        &&& self.last_non_hidden !is Hidden
        &&& self.presentation !is Hidden ==> self.last_non_hidden == self.presentation
    }

    /// Something new is said: the overlay goes to the screen of the pointer, wherever it was put
    /// before.
    pub fn begin_run(&mut self, cursor_monitor: Option<CursorMonitorGeometry>)
        requires
            old(self).wf(),
        ensures
            final(self).wf(),
            final(self).cursor_monitor == cursor_monitor,
            !final(self).manually_positioned,
            final(self).presentation == old(self).presentation,
            final(self).last_non_hidden == old(self).last_non_hidden,
    {
        self.cursor_monitor = cursor_monitor;
        self.manually_positioned = false;
    }

    /// Shows the overlay in another way.
    pub fn set_presentation(&mut self, presentation: VoiceOverlayPresentationMode)
        requires
            old(self).wf(),
        ensures
            final(self).wf(),
            final(self).presentation == presentation,
            final(self).last_non_hidden == if presentation is Hidden {
                old(self).last_non_hidden
            } else {
                presentation
            },
            final(self).cursor_monitor == old(self).cursor_monitor,
            final(self).manually_positioned == old(self).manually_positioned,
    {
        self.presentation = presentation;
        if presentation != VoiceOverlayPresentationMode::Hidden {
            self.last_non_hidden = presentation;
        }
    }

    /// The user has put the overlay somewhere, on this screen.
    pub fn mark_manually_positioned(&mut self, destination: Option<CursorMonitorGeometry>)
        requires
            old(self).wf(),
        ensures
            final(self).wf(),
            final(self).cursor_monitor == destination,
            final(self).manually_positioned,
            final(self).presentation == old(self).presentation,
            final(self).last_non_hidden == old(self).last_non_hidden,
    {
        self.cursor_monitor = destination;
        self.manually_positioned = true;
    }
}

/// The state of the overlay.
#[derive(Debug, Clone, Copy)]
pub struct VoiceOverlayState {
    pub placement: VoiceOverlayPlacement,
}

/// How the island is shown.
#[derive(Debug, Clone, Copy, PartialEq, Eq, Structural)]
pub enum IslandPresentationMode {
    Collapsed,
    Expanded,
}

impl IslandPresentationMode {
    /// How the island is shown that has the given height.
    pub fn from_height(height: u32) -> (mode: IslandPresentationMode)
        ensures
            mode is Expanded <==> height > COLLAPSED_HEIGHT,
    {
        if height > COLLAPSED_HEIGHT {
            IslandPresentationMode::Expanded
        } else {
            IslandPresentationMode::Collapsed
        }
    }

    /// Whether the island shows a panel.
    pub fn is_expanded(self) -> (yes: bool)
        ensures
            yes == (self is Expanded),
    {
        self == IslandPresentationMode::Expanded
    }
}

/// The state of the island, so that it can be resized when the settings change.
#[derive(Debug, Clone, Copy, PartialEq, Eq, Structural)]
pub struct IslandState {
    pub presentation: IslandPresentationMode,
}

impl Default for IslandState {
    fn default() -> (state: IslandState)
        ensures
            state.presentation is Collapsed,
    {
        IslandState { presentation: IslandPresentationMode::Collapsed }
    }
}

// What is done with the overlay.

/// What is done about a request to show the overlay in some way.
#[derive(Debug, Clone, Copy, PartialEq, Eq, Structural)]
pub enum OverlayStep {
    /// Nothing: what is being said would go on unseen.
    Ignore,
    /// It is hidden.
    Hide,
    /// It is shown. It stays where it is where the user has put it there, and goes to the bottom of
    /// the screen otherwise. The screen has to be found first, or is known.
    Show { in_place: bool, find_screen: bool },
}

/// What is done about a request to show the overlay in some way.
pub open spec fn overlay_step(
    placement: VoiceOverlayPlacement,
    mode: VoiceOverlayPresentationMode,
    active_run: bool,
) -> OverlayStep {
    if mode is Hidden {
        if active_run {
            OverlayStep::Ignore
        } else {
            OverlayStep::Hide
        }
    } else {
        OverlayStep::Show {
            in_place: placement.manually_positioned,
            find_screen: placement.cursor_monitor is None,
        }
    }
}

/// What is done to show the overlay in a mode.
pub fn next_overlay_step(
    placement: &VoiceOverlayPlacement,
    mode: VoiceOverlayPresentationMode,
    active_run: bool,
) -> (step: OverlayStep)
    ensures
        step == overlay_step(*placement, mode, active_run),
{
    match mode {
        VoiceOverlayPresentationMode::Hidden => if active_run {
            OverlayStep::Ignore
        } else {
            OverlayStep::Hide
        },
        _ => OverlayStep::Show {
            in_place: placement.manually_positioned,
            find_screen: placement.cursor_monitor.is_none(),
        },
    }
}

/// What is done about the overlay when the settings change: nothing where it is not seen, for then it
/// is shown anew the next time.
pub fn refresh_step(placement: &VoiceOverlayPlacement, visible: bool) -> (step: OverlayStep)
    ensures
        step == if visible && placement.presentation !is Hidden {
            overlay_step(*placement, placement.presentation, false)
        } else {
            OverlayStep::Ignore
        },
{
    if visible && placement.presentation != VoiceOverlayPresentationMode::Hidden {
        next_overlay_step(placement, placement.presentation, false)
    } else {
        OverlayStep::Ignore
    }
}

/// The overlay is never hidden while something is being said.
pub proof fn law_active_runs_stay_visible(
    placement: VoiceOverlayPlacement,
    mode: VoiceOverlayPresentationMode,
)
    ensures
        overlay_step(placement, mode, true) !is Hide,
{
}

/// How the overlay behaves.
#[derive(Debug, Clone, Copy, PartialEq, Eq, Structural)]
pub struct OverlayTraits {
    /// It can be resized, and has a least size.
    pub resizable: bool,
    /// It takes the keyboard.
    pub takes_keyboard: bool,
}

/// How the overlay behaves. It takes the keyboard from the application below only where the user can
/// write into it.
pub fn overlay_traits(mode: VoiceOverlayPresentationMode) -> (traits: OverlayTraits)
    ensures
        traits.resizable == (mode is Expanded),
        traits.takes_keyboard == (mode is Expanded),
{
    let expanded: bool = mode == VoiceOverlayPresentationMode::Expanded;
    OverlayTraits { resizable: expanded, takes_keyboard: expanded }
}

/// What to tell the system of whether clicks go through a window, where that has changed.
pub fn click_through_change(last_ignore: bool, should_ignore: bool) -> (change: Option<bool>)
    ensures
        change == if should_ignore != last_ignore {
            Some(should_ignore)
        } else {
            None
        },
{
    if should_ignore != last_ignore {
        Some(should_ignore)
    } else {
        None
    }
}

// Logical sizes.

/// The logical size of the overlay.
#[derive(Debug, Clone, Copy, PartialEq, Eq, Structural)]
pub struct VoiceOverlayDimensions {
    pub width: u64,
    pub height: u64,
    pub min_width: Option<u64>,
    pub min_height: Option<u64>,
    pub margin: u64,
}

/// The size that is wanted of the overlay, before it is scaled.
pub fn wanted_overlay_size(
    mode: VoiceOverlayPresentationMode,
    width: Option<u64>,
    height: Option<u64>,
) -> (size: (u64, u64))
    ensures
        size.0 == match width {
            Some(width) => width,
            None => if mode is Expanded {
                EXPANDED_OVERLAY_WIDTH
            } else {
                COMPACT_OVERLAY_WIDTH
            },
        },
        size.1 == match height {
            Some(height) => height,
            None => if mode is Expanded {
                EXPANDED_OVERLAY_HEIGHT
            } else {
                COMPACT_OVERLAY_HEIGHT
            },
        },
{
    let expanded: bool = mode == VoiceOverlayPresentationMode::Expanded;
    let wanted_width: u64 = match width {
        Some(width) => width,
        None => if expanded {
            EXPANDED_OVERLAY_WIDTH
        } else {
            COMPACT_OVERLAY_WIDTH
        },
    };
    let wanted_height: u64 = match height {
        Some(height) => height,
        None => if expanded {
            EXPANDED_OVERLAY_HEIGHT
        } else {
            COMPACT_OVERLAY_HEIGHT
        },
    };
    (wanted_width, wanted_height)
}

/// One side of the expanded overlay: at least the least one, and at most what the screen has room
/// for.
pub open spec fn bounded_side(wanted: u64, least: u64, most: u64) -> u64 {
    smaller(larger(wanted, smaller(least, most)), most)
}

/// The logical size of the overlay, given what is wanted, the least size of the expanded overlay and
/// what the screen has room for, all scaled.
pub fn overlay_dimensions(
    mode: VoiceOverlayPresentationMode,
    wanted: (u64, u64),
    least: (u64, u64),
    most: (u64, u64),
) -> (dimensions: VoiceOverlayDimensions)
    ensures
        mode is Expanded ==> dimensions == (VoiceOverlayDimensions {
            width: bounded_side(wanted.0, least.0, most.0),
            height: bounded_side(wanted.1, least.1, most.1),
            min_width: Some(smaller(least.0, most.0)),
            min_height: Some(smaller(least.1, most.1)),
            margin: EXPANDED_OVERLAY_MARGIN,
        }),
        mode !is Expanded ==> dimensions == (VoiceOverlayDimensions {
            width: wanted.0,
            height: wanted.1,
            min_width: None,
            min_height: None,
            margin: 0,
        }),
{
    if mode != VoiceOverlayPresentationMode::Expanded {
        return VoiceOverlayDimensions {
            width: wanted.0,
            height: wanted.1,
            min_width: None,
            min_height: None,
            margin: 0,
        };
    }
    let min_width: u64 = smaller_of(least.0, most.0);
    let min_height: u64 = smaller_of(least.1, most.1);
    VoiceOverlayDimensions {
        width: smaller_of(larger_of(wanted.0, min_width), most.0),
        height: smaller_of(larger_of(wanted.1, min_height), most.1),
        min_width: Some(min_width),
        min_height: Some(min_height),
        margin: EXPANDED_OVERLAY_MARGIN,
    }
}

/// The expanded overlay never takes more than there is room for, and less than its least size only
/// where there is no room for that.
pub proof fn law_expanded_overlay_fits(wanted: u64, least: u64, most: u64)
    requires
        !is_nan(wanted),
        !is_nan(least),
        !is_nan(most),
    ensures
        rank(bounded_side(wanted, least, most)) <= rank(most),
        rank(bounded_side(wanted, least, most)) >= rank(smaller(least, most)),
        rank(least) <= rank(wanted) <= rank(most) ==> bounded_side(wanted, least, most) == wanted,
{
}

/// The logical size of the island on a screen that has the given room. A screen that is too small
/// still leaves it a usable size.
pub open spec fn fitted(size: (u64, u64), room: (u64, u64)) -> (u64, u64) {
    (
        smaller(size.0, larger(room.0, MIN_ISLAND_WIDTH)),
        smaller(size.1, larger(room.1, MIN_ISLAND_HEIGHT)),
    )
}

/// The logical size of the island on a screen that has the given room.
pub fn clamp_to_logical_monitor(size: (u64, u64), room: (u64, u64)) -> (kept: (u64, u64))
    ensures
        kept == fitted(size, room),
{
    (
        smaller_of(size.0, larger_of(room.0, MIN_ISLAND_WIDTH)),
        smaller_of(size.1, larger_of(room.1, MIN_ISLAND_HEIGHT)),
    )
}

/// The island never becomes larger than it is asked to be, and it is no larger than the screen unless
/// that is smaller than the island can be.
pub proof fn law_island_fits(size: (u64, u64), room: (u64, u64))
    requires
        !is_nan(size.0),
        !is_nan(size.1),
        !is_nan(room.0),
        !is_nan(room.1),
    ensures
        rank(fitted(size, room).0) <= rank(size.0),
        rank(fitted(size, room).1) <= rank(size.1),
        rank(fitted(size, room).0) <= rank(room.0) || rank(room.0) <= rank(MIN_ISLAND_WIDTH),
        rank(fitted(size, room).1) <= rank(room.1) || rank(room.1) <= rank(MIN_ISLAND_HEIGHT),
{
}

// Places.

/// A part of the plane that holds all screens.
#[derive(Debug, Clone, Copy, PartialEq, Eq, Structural)]
pub struct Area {
    pub x: i32,
    pub y: i32,
    pub width: i32,
    pub height: i32,
}

/// A number can be a place.
pub open spec fn fits(n: int) -> bool {
    i32::MIN <= n <= i32::MAX
}

impl Area {
    /// The far edges can be places too.
    pub open spec fn wf(&self) -> bool {
        fits(self.x + self.width) && fits(self.y + self.height)
    }
}

/// Half of a number, rounded toward zero.
pub open spec fn half(n: int) -> int {
    if n < 0 {
        -((-n) / 2)
    } else {
        n / 2
    }
}

fn half_of(n: i32) -> (h: i32)
    ensures
        h == half(n as int),
{
    if n >= 0 {
        n / 2
    } else if n == i32::MIN {
        -1_073_741_824
    } else {
        -((-n) / 2)
    }
}

/// A place that is kept between two others. Where they are out of order it is the upper one.
pub open spec fn clamped_place(value: int, min: int, max: int) -> int {
    let above = if value < min {
        min
    } else {
        value
    };
    if above > max {
        max
    } else {
        above
    }
}

/// Keeps a place between two others.
pub fn clamp_i32(value: i32, min: i32, max: i32) -> (kept: i32)
    ensures
        kept == clamped_place(value as int, min as int, max as int),
{
    let above: i32 = if value < min {
        min
    } else {
        value
    };
    if above > max {
        max
    } else {
        above
    }
}

/// The place that a window of the given length gets in a stretch, as near to the wanted one as
/// possible. One that is too long starts where the stretch starts.
pub open spec fn kept_place(wanted: int, start: int, length: int, window: int) -> int {
    let last = start + length - window;
    clamped_place(
        wanted,
        start,
        if last < start {
            start
        } else {
            last
        },
    )
}

fn keep_place(wanted: i32, start: i32, length: i32, window: i32) -> (place: i32)
    requires
        fits(start + length),
        fits(start + length - window),
    ensures
        place == kept_place(wanted as int, start as int, length as int, window as int),
{
    let last: i32 = start + length - window;
    clamp_i32(
        wanted,
        start,
        if last < start {
            start
        } else {
            last
        },
    )
}

/// Whether the pointer, at this pixel, is on a screen.
pub open spec fn holds(monitor: Area, x: int, y: int) -> bool {
    monitor.x <= x < monitor.x + monitor.width && monitor.y <= y < monitor.y + monitor.height
}

/// Whether the pointer is on a screen, given the pixel that it is on.
pub fn monitor_contains_cursor(monitor: &Area, cursor_x: i64, cursor_y: i64) -> (yes: bool)
    requires
        monitor.wf(),
    ensures
        yes == holds(*monitor, cursor_x as int, cursor_y as int),
{
    cursor_x >= monitor.x as i64 && cursor_x < (monitor.x + monitor.width) as i64 && cursor_y
        >= monitor.y as i64 && cursor_y < (monitor.y + monitor.height) as i64
}

/// The first screen that the pointer is on.
pub open spec fn screen_of(monitors: Seq<Area>, x: int, y: int) -> Option<int>
    decreases monitors.len(),
{
    if monitors.len() == 0 {
        None
    } else if holds(monitors[0], x, y) {
        Some(0)
    } else {
        match screen_of(monitors.skip(1), x, y) {
            Some(i) => Some(i + 1),
            None => None,
        }
    }
}

/// The first screen that the pointer is on.
pub fn monitor_of_cursor(monitors: &Vec<Area>, cursor_x: i64, cursor_y: i64) -> (place: Option<
    usize,
>)
    requires
        forall|i: int| 0 <= i < monitors@.len() ==> (#[trigger] monitors@[i]).wf(),
    ensures
        match place {
            Some(i) => screen_of(monitors@, cursor_x as int, cursor_y as int) == Some(i as int),
            None => screen_of(monitors@, cursor_x as int, cursor_y as int) is None,
        },
{
    let mut i: usize = monitors.len();
    let mut found: Option<usize> = None;
    while i > 0
        invariant
            i <= monitors@.len(),
            forall|i: int| 0 <= i < monitors@.len() ==> (#[trigger] monitors@[i]).wf(),
            match found {
                Some(k) => screen_of(monitors@.skip(i as int), cursor_x as int, cursor_y as int)
                    == Some(k - i) && k < monitors@.len(),
                None => screen_of(monitors@.skip(i as int), cursor_x as int, cursor_y as int)
                    is None,
            },
        decreases i,
    {
        i = i - 1;
        assert(monitors@.skip(i as int).skip(1) =~= monitors@.skip(i + 1));
        assert(monitors@.skip(i as int)[0] == monitors@[i as int]);
        if monitor_contains_cursor(&monitors[i], cursor_x, cursor_y) {
            found = Some(i);
        }
    }
    assert(monitors@.skip(0) =~= monitors@);
    found
}

/// The screen that is found holds the pointer, and no screen before it does.
pub proof fn law_screen_holds_the_pointer(monitors: Seq<Area>, x: int, y: int)
    ensures
        match screen_of(monitors, x, y) {
            Some(i) => 0 <= i < monitors.len() && holds(monitors[i], x, y) && forall|j: int|
                0 <= j < i ==> !holds(#[trigger] monitors[j], x, y),
            None => forall|j: int| 0 <= j < monitors.len() ==> !holds(#[trigger] monitors[j], x, y),
        },
    decreases monitors.len(),
{
    if monitors.len() > 0 {
        law_screen_holds_the_pointer(monitors.skip(1), x, y);
        assert forall|j: int| 1 <= j < monitors.len() implies monitors[j] == #[trigger] monitors.skip(
            1,
        )[j - 1] by {}
        let rest = screen_of(monitors.skip(1), x, y);
        if !holds(monitors[0], x, y) {
            let end = match rest {
                Some(i) => i + 1,
                None => monitors.len() as int,
            };
            assert forall|j: int| 0 <= j < end implies !holds(#[trigger] monitors[j], x, y) by {
                if j > 0 {
                    assert(monitors.skip(1)[j - 1] == monitors[j]);
                }
            }
        }
    }
}

/// A screen.
#[derive(Debug, Clone, Copy, PartialEq, Eq, Structural)]
pub struct Monitor {
    pub area: Area,
    /// The part of it that windows may take.
    pub work: Area,
    pub scale: u64,
}

/// The pointer, and the pixel that it is on.
#[derive(Debug, Clone, Copy, PartialEq, Eq, Structural)]
pub struct Cursor {
    pub x: u64,
    pub y: u64,
    pub pixel_x: i64,
    pub pixel_y: i64,
}

/// The screen that the system says the pointer is on. It is known by its size and scale only.
#[derive(Debug, Clone, Copy, PartialEq, Eq, Structural)]
pub struct NativeScreen {
    pub cursor_x: u64,
    pub cursor_y: u64,
    pub width: u32,
    pub height: u32,
}

/// Two lengths differ by two pixels at most.
pub open spec fn near(a: int, b: int) -> bool {
    -2 <= a - b <= 2
}

/// A screen has the size and, as is told, the scale that the system says.
pub open spec fn is_native(monitor: Monitor, native: NativeScreen, same_scale: bool) -> bool {
    near(monitor.area.width as int, native.width as int) && near(
        monitor.area.height as int,
        native.height as int,
    ) && same_scale
}

/// The first screen that is the one that the system says.
pub open spec fn native_screen(monitors: Seq<Monitor>, native: NativeScreen, same_scale: Seq<bool>) -> Option<
    int,
>
    decreases monitors.len(),
{
    if monitors.len() == 0 {
        None
    } else if is_native(monitors[0], native, same_scale[0]) {
        Some(0)
    } else {
        match native_screen(monitors.skip(1), native, same_scale.skip(1)) {
            Some(i) => Some(i + 1),
            None => None,
        }
    }
}

/// The areas of the screens.
pub open spec fn areas(monitors: Seq<Monitor>) -> Seq<Area> {
    Seq::new(monitors.len(), |i: int| monitors[i].area)
}

/// A screen, as it is told.
pub open spec fn geometry_of(source: &'static str, x: u64, y: u64, monitor: Monitor) -> CursorMonitorGeometry {
    CursorMonitorGeometry {
        source,
        cursor_x: x,
        cursor_y: y,
        monitor: monitor.area,
        work: monitor.work,
        scale: monitor.scale,
    }
}

/// The screen of the pointer: the one that the system says, or else the one that holds the pointer,
/// or else the one that the window is on.
pub open spec fn cursor_geometry(
    monitors: Seq<Monitor>,
    native: Option<NativeScreen>,
    same_scale: Seq<bool>,
    cursor: Cursor,
    fallback: Option<Monitor>,
) -> Option<CursorMonitorGeometry> {
    let said = match native {
        Some(native) => native_screen(monitors, native, same_scale),
        None => None,
    };
    let held = screen_of(areas(monitors), cursor.pixel_x as int, cursor.pixel_y as int);
    if said is Some {
        Some(geometry_of("appkit", native->0.cursor_x, native->0.cursor_y, monitors[said->0]))
    } else if held is Some {
        Some(geometry_of("tauri", cursor.x, cursor.y, monitors[held->0]))
    } else {
        match fallback {
            Some(monitor) => Some(geometry_of("tauri-fallback", cursor.x, cursor.y, monitor)),
            None => None,
        }
    }
}

fn is_near(a: i32, b: u32) -> (yes: bool)
    ensures
        yes == near(a as int, b as int),
{
    let difference: i64 = a as i64 - b as i64;
    -2 <= difference && difference <= 2
}

fn find_native(monitors: &Vec<Monitor>, native: NativeScreen, same_scale: &Vec<bool>) -> (place:
    Option<usize>)
    requires
        same_scale@.len() == monitors@.len(),
    ensures
        match place {
            Some(i) => native_screen(monitors@, native, same_scale@) == Some(i as int) && i
                < monitors@.len(),
            None => native_screen(monitors@, native, same_scale@) is None,
        },
{
    let mut i: usize = monitors.len();
    let mut found: Option<usize> = None;
    while i > 0
        invariant
            i <= monitors@.len(),
            same_scale@.len() == monitors@.len(),
            match found {
                Some(k) => native_screen(
                    monitors@.skip(i as int),
                    native,
                    same_scale@.skip(i as int),
                ) == Some(k - i) && k < monitors@.len(),
                None => native_screen(
                    monitors@.skip(i as int),
                    native,
                    same_scale@.skip(i as int),
                ) is None,
            },
        decreases i,
    {
        i = i - 1;
        assert(monitors@.skip(i as int).skip(1) =~= monitors@.skip(i + 1));
        assert(same_scale@.skip(i as int).skip(1) =~= same_scale@.skip(i + 1));
        assert(monitors@.skip(i as int)[0] == monitors@[i as int]);
        assert(same_scale@.skip(i as int)[0] == same_scale@[i as int]);
        if is_near(monitors[i].area.width, native.width) && is_near(
            monitors[i].area.height,
            native.height,
        ) && same_scale[i] {
            found = Some(i);
        }
    }
    assert(monitors@.skip(0) =~= monitors@);
    assert(same_scale@.skip(0) =~= same_scale@);
    found
}

fn geometry(source: &'static str, x: u64, y: u64, monitor: &Monitor) -> (told: CursorMonitorGeometry)
    ensures
        told == geometry_of(source, x, y, *monitor),
{
    CursorMonitorGeometry {
        source,
        cursor_x: x,
        cursor_y: y,
        monitor: monitor.area,
        work: monitor.work,
        scale: monitor.scale,
    }
}

/// The screen of the pointer.
pub fn cursor_monitor_geometry(
    monitors: &Vec<Monitor>,
    native: Option<NativeScreen>,
    same_scale: &Vec<bool>,
    cursor: Cursor,
    fallback: Option<Monitor>,
) -> (told: Option<CursorMonitorGeometry>)
    requires
        same_scale@.len() == monitors@.len(),
        forall|i: int| 0 <= i < monitors@.len() ==> (#[trigger] monitors@[i]).area.wf(),
    ensures
        told == cursor_geometry(monitors@, native, same_scale@, cursor, fallback),
{
    if let Some(native) = native {
        if let Some(i) = find_native(monitors, native, same_scale) {
            return Some(geometry("appkit", native.cursor_x, native.cursor_y, &monitors[i]));
        }
    }
    let mut screens: Vec<Area> = Vec::new();
    let mut i: usize = 0;
    while i < monitors.len()
        invariant
            i <= monitors@.len(),
            screens@ == areas(monitors@).take(i as int),
            forall|i: int| 0 <= i < monitors@.len() ==> (#[trigger] monitors@[i]).area.wf(),
        decreases monitors@.len() - i,
    {
        screens.push(monitors[i].area);
        assert(screens@ =~= areas(monitors@).take(i + 1));
        i = i + 1;
    }
    assert(screens@ =~= areas(monitors@));
    proof {
        law_screen_holds_the_pointer(screens@, cursor.pixel_x as int, cursor.pixel_y as int);
    }
    if let Some(i) = monitor_of_cursor(&screens, cursor.pixel_x, cursor.pixel_y) {
        return Some(geometry("tauri", cursor.x, cursor.y, &monitors[i]));
    }
    match fallback {
        Some(monitor) => Some(geometry("tauri-fallback", cursor.x, cursor.y, &monitor)),
        None => None,
    }
}

/// Where a window is that stands in the middle of the bottom of an area, this far above it.
pub fn bottom_center_coordinates(
    area: Area,
    window_width: i32,
    window_height: i32,
    bottom_offset: i32,
) -> (place: (i32, i32))
    requires
        fits(area.width - window_width),
        fits(area.x + half(area.width - window_width)),
        fits(area.y + area.height),
        fits(area.y + area.height - window_height),
        fits(area.y + area.height - window_height - bottom_offset),
    ensures
        place.0 == area.x + half(area.width - window_width),
        place.1 == area.y + area.height - window_height - bottom_offset,
{
    (
        area.x + half_of(area.width - window_width),
        area.y + area.height - window_height - bottom_offset,
    )
}

/// The size of the part of an area that a margin leaves, but no less than that of a window.
pub open spec fn room_inside(work: Area, margin: int, width: int, height: int) -> (int, int) {
    (
        if work.width - margin * 2 < width {
            width
        } else {
            work.width - margin * 2
        },
        if work.height - margin * 2 < height {
            height
        } else {
            work.height - margin * 2
        },
    )
}

/// A margin leaves all numbers small enough.
pub open spec fn margin_fits(work: Area, margin: int) -> bool {
    &&& fits(work.x + margin)
    &&& fits(work.y + margin)
    &&& fits(margin * 2)
    &&& fits(work.width - margin * 2)
    &&& fits(work.height - margin * 2)
}

/// The area without a margin, but no less than a window.
fn without_margin(work: Area, margin: i32, width: i32, height: i32) -> (area: Area)
    requires
        margin_fits(work, margin as int),
    ensures
        area.x == work.x + margin,
        area.y == work.y + margin,
        area.width == room_inside(work, margin as int, width as int, height as int).0,
        area.height == room_inside(work, margin as int, width as int, height as int).1,
{
    let inner_width: i32 = work.width - margin * 2;
    let inner_height: i32 = work.height - margin * 2;
    Area {
        x: work.x + margin,
        y: work.y + margin,
        width: if inner_width < width {
            width
        } else {
            inner_width
        },
        height: if inner_height < height {
            height
        } else {
            inner_height
        },
    }
}

/// The area that a window of this size may take on a screen: the screen, or where a margin is wanted
/// what the margin leaves of the part for windows, but no less than the window.
pub fn window_area(monitor: Area, work: Area, margin: i32, width: i32, height: i32) -> (area: Area)
    requires
        margin > 0 ==> margin_fits(work, margin as int),
    ensures
        margin <= 0 ==> area == monitor,
        margin > 0 ==> {
            let room = room_inside(work, margin as int, width as int, height as int);
            &&& area.x == work.x + margin
            &&& area.y == work.y + margin
            &&& area.width == room.0
            &&& area.height == room.1
        },
{
    if margin > 0 {
        without_margin(work, margin, width, height)
    } else {
        monitor
    }
}

/// Where the overlay is: in the middle of the bottom of what a margin leaves of the part of the
/// screen for windows, this far above it.
pub open spec fn overlay_position(work: Area, width: int, height: int, margin: int, offset: int) -> (
    int,
    int,
) {
    let room = room_inside(work, margin, width, height);
    (work.x + margin + half(room.0 - width), work.y + margin + room.1 - height - offset)
}

/// All numbers on the way to the place of the overlay are small enough.
pub open spec fn overlay_fits(work: Area, width: int, height: int, margin: int, offset: int) -> bool {
    let room = room_inside(work, margin, width, height);
    &&& margin_fits(work, margin)
    &&& fits(room.0 - width)
    &&& fits(work.x + margin + half(room.0 - width))
    &&& fits(work.y + margin + room.1)
    &&& fits(work.y + margin + room.1 - height)
    &&& fits(work.y + margin + room.1 - height - offset)
}

/// Where the overlay is and how large, which is at least one pixel.
pub fn overlay_place(work: Area, width: i32, height: i32, margin: i32, offset: i32) -> (place: (
    (i32, i32),
    (u32, u32),
))
    requires
        overlay_fits(work, width as int, height as int, margin as int, offset as int),
    ensures
        ({
            let position = overlay_position(
                work,
                width as int,
                height as int,
                margin as int,
                offset as int,
            );
            &&& place.0.0 == position.0
            &&& place.0.1 == position.1
        }),
        place.1.0 == if width < 1 {
            1
        } else {
            width as int
        },
        place.1.1 == if height < 1 {
            1
        } else {
            height as int
        },
{
    let area: Area = without_margin(work, margin, width, height);
    let shown_width: u32 = if width < 1 {
        1
    } else {
        width as u32
    };
    let shown_height: u32 = if height < 1 {
        1
    } else {
        height as u32
    };
    (bottom_center_coordinates(area, width, height, offset), (shown_width, shown_height))
}

/// An overlay that the screen has room for, with its margin and what is below it, stands inside it.
pub proof fn law_overlay_is_on_the_screen(work: Area, width: int, height: int, margin: int, offset: int)
    requires
        0 <= margin,
        0 <= offset,
        0 <= width <= work.width - margin * 2,
        0 <= height,
        height + offset <= work.height - margin * 2,
    ensures
        ({
            let position = overlay_position(work, width, height, margin, offset);
            &&& work.x + margin <= position.0
            &&& position.0 + width <= work.x + work.width - margin
            &&& work.y + margin <= position.1
            &&& position.1 + height <= work.y + work.height - margin
        }),
{
}

/// Where a window is that has got another size: its top stays where it is and its middle too, as far
/// as the screen allows.
pub open spec fn anchored_place(
    area: Area,
    old_position: (int, int),
    old_width: int,
    new_size: (int, int),
) -> (int, int) {
    (
        kept_place(
            old_position.0 + half(old_width) - half(new_size.0),
            area.x as int,
            area.width as int,
            new_size.0,
        ),
        kept_place(old_position.1, area.y as int, area.height as int, new_size.1),
    )
}

/// Where a window is that has got another size.
pub fn anchored_resize_coordinates(
    area: Area,
    old_position: (i32, i32),
    old_size: (i32, i32),
    new_size: (i32, i32),
) -> (place: (i32, i32))
    requires
        area.wf(),
        fits(area.x + area.width - new_size.0),
        fits(area.y + area.height - new_size.1),
        fits(old_position.0 + half(old_size.0 as int)),
        fits(old_position.0 + half(old_size.0 as int) - half(new_size.0 as int)),
    ensures
        ({
            let expected = anchored_place(
                area,
                (old_position.0 as int, old_position.1 as int),
                old_size.0 as int,
                (new_size.0 as int, new_size.1 as int),
            );
            place.0 == expected.0 && place.1 == expected.1
        }),
{
    let wanted_x: i32 = old_position.0 + half_of(old_size.0) - half_of(new_size.0);
    (
        keep_place(wanted_x, area.x, area.width, new_size.0),
        keep_place(old_position.1, area.y, area.height, new_size.1),
    )
}

/// Where a window is that stands in the middle of the top of a screen, below what the system shows
/// there.
pub open spec fn top_center_place(area: Area, width: int, height: int) -> (int, int) {
    (
        kept_place(
            area.x + half(area.width - width),
            area.x as int,
            area.width as int,
            width,
        ),
        kept_place(area.y + TOP_OFFSET - OUTER_GUTTER, area.y as int, area.height as int, height),
    )
}

/// Where a window is that stands in the middle of the top of a screen.
pub fn top_center_coordinates(area: Area, width: i32, height: i32) -> (place: (i32, i32))
    requires
        area.wf(),
        fits(area.width - width),
        fits(area.x + half(area.width - width)),
        fits(area.y + TOP_OFFSET),
        fits(area.x + area.width - width),
        fits(area.y + area.height - height),
    ensures
        place.0 == top_center_place(area, width as int, height as int).0,
        place.1 == top_center_place(area, width as int, height as int).1,
{
    (
        keep_place(area.x + half_of(area.width - width), area.x, area.width, width),
        keep_place(area.y + TOP_OFFSET - OUTER_GUTTER, area.y, area.height, height),
    )
}

/// A window that fits the screen stands inside it wherever it is wanted; one that does not starts
/// where the screen starts. A place that is kept is kept where it is.
pub proof fn law_windows_stay_on_the_screen(wanted: int, start: int, length: int, window: int)
    requires
        0 <= window,
    ensures
        ({
            let place = kept_place(wanted, start, length, window);
            &&& start <= place
            &&& window <= length ==> place + window <= start + length
            &&& window > length ==> place == start
            &&& start <= wanted && wanted + window <= start + length ==> place == wanted
            &&& kept_place(place, start, length, window) == place
        }),
{
}

/// A window that is inside the screen and gets the size that it has stays where it is.
pub proof fn law_same_size_keeps_the_place(area: Area, position: (int, int), size: (int, int))
    requires
        area.x <= position.0,
        position.0 + size.0 <= area.x + area.width,
        area.y <= position.1,
        position.1 + size.1 <= area.y + area.height,
        0 <= size.0,
        0 <= size.1,
    ensures
        anchored_place(area, position, size.0, size) == position,
{
}

// Where windows go.

/// The overlay is in the middle of the screen, as far above its bottom as it is to be. One that is too
/// large for the screen starts where the screen does.
pub proof fn law_the_overlay_is_in_the_middle(work: Area, width: int, height: int, margin: int, offset: int)
    ensures
        ({
            let place = overlay_position(work, width, height, margin, offset);
            let left = place.0 - work.x;
            let right = work.x + work.width - (place.0 + width);
            &&& width <= work.width - margin * 2 ==> 0 <= right - left <= 1
            &&& width > work.width - margin * 2 ==> left == margin
            &&& height <= work.height - margin * 2 ==> place.1 + height + offset + margin == work.y
                + work.height
            &&& height > work.height - margin * 2 ==> place.1 + offset == work.y + margin
        }),
{
}

/// The island is in the middle of the screen, forty-four pixels below its top, where there is room for
/// it.
pub proof fn law_the_island_is_at_the_top(area: Area, width: int, height: int)
    requires
        0 <= width <= area.width,
        0 <= height <= area.height - 44,
    ensures
        ({
            let place = top_center_place(area, width, height);
            let left = place.0 - area.x;
            let right = area.x + area.width - (place.0 + width);
            &&& 0 <= right - left <= 1
            &&& place.1 == area.y + 44
        }),
{
}

/// A window that is resized keeps its middle and its top, as far as the screen has room.
pub proof fn law_resizing_keeps_the_middle(
    area: Area,
    position: (int, int),
    old_width: int,
    size: (int, int),
)
    requires
        0 <= old_width,
        0 <= size.0 <= area.width,
        0 <= size.1 <= area.height,
    ensures
        ({
            let place = anchored_place(area, position, old_width, size);
            let middle = 2 * position.0 + old_width;
            let least = 2 * area.x + size.0;
            let most = 2 * (area.x + area.width) - size.0;
            let bottom = area.y + area.height - size.1;
            &&& least + 1 < middle < most - 1 ==> -1 <= 2 * place.0 + size.0 - middle <= 1
            &&& middle <= least - 2 ==> place.0 == area.x
            &&& middle >= most + 2 ==> place.0 + size.0 == area.x + area.width
            &&& area.y <= position.1 <= bottom ==> place.1 == position.1
            &&& position.1 < area.y ==> place.1 == area.y
            &&& position.1 > bottom ==> place.1 == bottom
        }),
{
}

/// A number is kept between two bounds, and one outside them becomes the nearer one.
pub proof fn law_numbers_are_kept_between_bounds(value: int, min: int, max: int)
    requires
        min <= max,
    ensures
        min <= value <= max ==> clamped_place(value, min, max) == value,
        value < min ==> clamped_place(value, min, max) == min,
        value > max ==> clamped_place(value, min, max) == max,
{
}

/// Half of a number is rounded toward zero.
pub proof fn law_halves_are_rounded_toward_zero(n: int)
    ensures
        n >= 0 ==> 0 <= n - 2 * half(n) <= 1,
        n <= 0 ==> -1 <= n - 2 * half(n) <= 0,
{
}

/// A screen has its left and upper edge, and not its right and lower one.
pub proof fn law_where_a_screen_ends(monitor: Area, x: int, y: int)
    requires
        0 < monitor.width,
        0 < monitor.height,
    ensures
        holds(monitor, monitor.x as int, monitor.y as int),
        holds(monitor, monitor.x + monitor.width - 1, monitor.y + monitor.height - 1),
        x < monitor.x || x >= monitor.x + monitor.width ==> !holds(monitor, x, y),
        y < monitor.y || y >= monitor.y + monitor.height ==> !holds(monitor, x, y),
{
}

/// The screen that the system tells of is the first of the same scale and, but for two pixels, of the
/// same size.
pub proof fn law_the_native_screen_is_the_first_like_it(
    monitors: Seq<Monitor>,
    native: NativeScreen,
    same_scale: Seq<bool>,
)
    requires
        same_scale.len() == monitors.len(),
    ensures
        match native_screen(monitors, native, same_scale) {
            Some(i) => 0 <= i < monitors.len() && same_scale[i] && -2 <= monitors[i].area.width
                - native.width <= 2 && -2 <= monitors[i].area.height - native.height <= 2 && forall|
                j: int,
            |
                0 <= j < i ==> !is_native(#[trigger] monitors[j], native, same_scale[j]),
            None => forall|j: int|
                0 <= j < monitors.len() ==> !is_native(#[trigger] monitors[j], native, same_scale[j]),
        },
    decreases monitors.len(),
{
    if monitors.len() > 0 && !is_native(monitors[0], native, same_scale[0]) {
        let rest = monitors.skip(1);
        let scales = same_scale.skip(1);
        law_the_native_screen_is_the_first_like_it(rest, native, scales);
        let n = match native_screen(rest, native, scales) {
            Some(i) => i + 1,
            None => monitors.len() as int,
        };
        assert forall|j: int| 0 <= j < n implies !is_native(
            #[trigger] monitors[j],
            native,
            same_scale[j],
        ) by {
            if j > 0 {
                assert(rest[j - 1] == monitors[j] && scales[j - 1] == same_scale[j]);
            }
        }
    }
}

/// The screen of the pointer is the one that the system tells of; where it tells of none, the one that
/// the pointer is on; and where it is on none, the one to fall back to. The pointer is told by whoever
/// tells of the screen.
pub proof fn law_who_tells_of_the_screen(
    monitors: Seq<Monitor>,
    native: NativeScreen,
    told_natively: bool,
    same_scale: Seq<bool>,
    cursor: Cursor,
    fallback: Monitor,
    falls_back: bool,
)
    requires
        same_scale.len() == monitors.len(),
    ensures
        ({
            let told = cursor_geometry(
                monitors,
                if told_natively {
                    Some(native)
                } else {
                    None
                },
                same_scale,
                cursor,
                if falls_back {
                    Some(fallback)
                } else {
                    None
                },
            );
            let said = native_screen(monitors, native, same_scale);
            let held = screen_of(areas(monitors), cursor.pixel_x as int, cursor.pixel_y as int);
            if told_natively && said is Some {
                &&& told is Some
                &&& told->0.source@ == "appkit"@
                &&& told->0.cursor_x == native.cursor_x
                &&& told->0.cursor_y == native.cursor_y
                &&& told->0.monitor == monitors[said->0].area
                &&& told->0.work == monitors[said->0].work
                &&& told->0.scale == monitors[said->0].scale
            } else if held is Some {
                &&& told is Some
                &&& told->0.source@ == "tauri"@
                &&& told->0.cursor_x == cursor.x
                &&& told->0.cursor_y == cursor.y
                &&& told->0.monitor == monitors[held->0].area
                &&& told->0.work == monitors[held->0].work
                &&& told->0.scale == monitors[held->0].scale
                &&& holds(monitors[held->0].area, cursor.pixel_x as int, cursor.pixel_y as int)
            } else if falls_back {
                &&& told is Some
                &&& told->0.source@ == "tauri-fallback"@
                &&& told->0.cursor_x == cursor.x
                &&& told->0.cursor_y == cursor.y
                &&& told->0.monitor == fallback.area
                &&& told->0.work == fallback.work
                &&& told->0.scale == fallback.scale
            } else {
                told is None
            }
        }),
{
    law_screen_holds_the_pointer(areas(monitors), cursor.pixel_x as int, cursor.pixel_y as int);
}

/// The overlay is hidden on request, unless something is being said, and shown otherwise: in place
/// where the user has put it there, and on a screen that is looked for where none is known.
pub proof fn law_when_the_overlay_is_shown(
    placement: VoiceOverlayPlacement,
    mode: VoiceOverlayPresentationMode,
    active_run: bool,
)
    ensures
        overlay_step(placement, VoiceOverlayPresentationMode::Hidden, true) is Ignore,
        overlay_step(placement, VoiceOverlayPresentationMode::Hidden, false) is Hide,
        mode !is Hidden ==> (overlay_step(placement, mode, active_run) matches OverlayStep::Show {
            in_place,
            find_screen,
        } && in_place == placement.manually_positioned && find_screen
            == placement.cursor_monitor is None),
        VoiceOverlayPresentationMode::Hidden.name() == "hidden"@,
        VoiceOverlayPresentationMode::Compact.name() == "compact"@,
        VoiceOverlayPresentationMode::Expanded.name() == "expanded"@,
{
}

/// The overlay is 320 by 68 while it is compact, and 720 by 680 with an edge of 24 while it is
/// expanded; the island is never less than 240 by 120, and 54 high while it is collapsed.
pub proof fn law_windows_have_known_sizes()
    ensures
        COMPACT_OVERLAY_WIDTH == 0x4074_0000_0000_0000,
        COMPACT_OVERLAY_HEIGHT == 0x4051_0000_0000_0000,
        EXPANDED_OVERLAY_WIDTH == 0x4086_8000_0000_0000,
        EXPANDED_OVERLAY_HEIGHT == 0x4085_4000_0000_0000,
        EXPANDED_OVERLAY_MARGIN == 0x4038_0000_0000_0000,
        MIN_ISLAND_WIDTH == 0x406e_0000_0000_0000,
        MIN_ISLAND_HEIGHT == 0x405e_0000_0000_0000,
        COLLAPSED_HEIGHT == 54,
{
}

/// The island gets what it asks for where the screen has room, all of the room where it asks for more,
/// and its least size where there is hardly any.
pub proof fn law_the_island_gets_what_there_is(size: (u64, u64), room: (u64, u64))
    requires
        !is_nan(size.0),
        !is_nan(size.1),
        !is_nan(room.0),
        !is_nan(room.1),
        rank(room.0) > rank(0x406e_0000_0000_0000),
        rank(room.1) > rank(0x405e_0000_0000_0000),
    ensures
        rank(size.0) < rank(room.0) ==> fitted(size, room).0 == size.0,
        rank(size.0) > rank(room.0) ==> fitted(size, room).0 == room.0,
        rank(size.1) < rank(room.1) ==> fitted(size, room).1 == size.1,
        rank(size.1) > rank(room.1) ==> fitted(size, room).1 == room.1,
{
}

} // verus!
