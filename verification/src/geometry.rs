//! Display geometry: monitor rectangles, full-screen coverage, the choice of
//! the monitor the user is working on, and the arithmetic that fits an
//! embedded wallpaper window to its monitor.
use vstd::prelude::*;

use std::collections::HashMap;

use crate::text::str_eq;

verus! {

broadcast use vstd::std_specs::hash::group_hash_axioms;

/// A monitor's full rectangle and its work area (the rectangle without the
/// task bar), in virtual-desktop coordinates, with its device name.
#[derive(Debug, Clone)]
pub struct MonitorRect {
    /// Device name such as `\\.\DISPLAY1`, the identifier monitor configs use.
    pub device_name: String,
    pub left: i32,
    pub top: i32,
    pub right: i32,
    pub bottom: i32,
    pub work_left: i32,
    pub work_top: i32,
    pub work_right: i32,
    pub work_bottom: i32,
}

impl MonitorRect {
    /// Width of the monitor in physical pixels.
    pub fn width(&self) -> (r: i32)
        requires
            i32::MIN <= self.right - self.left <= i32::MAX,
        ensures
            r == self.right - self.left,
    {
        self.right - self.left
    }

    /// Height of the monitor in physical pixels.
    pub fn height(&self) -> (r: i32)
        requires
            i32::MIN <= self.bottom - self.top <= i32::MAX,
        ensures
            r == self.bottom - self.top,
    {
        self.bottom - self.top
    }

    /// Width of the work area.
    pub fn work_width(&self) -> (r: i32)
        requires
            i32::MIN <= self.work_right - self.work_left <= i32::MAX,
        ensures
            r == self.work_right - self.work_left,
    {
        self.work_right - self.work_left
    }

    /// Height of the work area.
    pub fn work_height(&self) -> (r: i32)
        requires
            i32::MIN <= self.work_bottom - self.work_top <= i32::MAX,
        ensures
            r == self.work_bottom - self.work_top,
    {
        self.work_bottom - self.work_top
    }
}

/// A plain rectangle, such as a window's rectangle.
#[derive(Debug, Clone, Copy)]
pub struct WinRect {
    pub left: i32,
    pub top: i32,
    pub right: i32,
    pub bottom: i32,
}

/// Whether rectangle `r` covers the full rectangle of monitor `m`.
pub open spec fn covers_spec(r: WinRect, m: MonitorRect) -> bool {
    r.left <= m.left && r.top <= m.top && r.right >= m.right && r.bottom >= m.bottom
}

/// A rectangle covers a monitor exactly when it contains every point of the
/// monitor's rectangle (edges included): so a window that stops short of any
/// edge, such as one maximized above the task bar, does not cover it.
pub proof fn covering_contains_every_point(r: WinRect, m: MonitorRect)
    requires
        m.left <= m.right,
        m.top <= m.bottom,
    ensures
        covers_spec(r, m) <==> (forall|x: int, y: int|
            m.left <= x <= m.right && m.top <= y <= m.bottom ==> #[trigger] point_in(r, x, y)),
        r.bottom < m.bottom ==> !covers_spec(r, m),
        r.right < m.right ==> !covers_spec(r, m),
        r.top > m.top ==> !covers_spec(r, m),
        r.left > m.left ==> !covers_spec(r, m),
{
    if forall|x: int, y: int|
        m.left <= x <= m.right && m.top <= y <= m.bottom ==> #[trigger] point_in(r, x, y) {
        assert(point_in(r, m.left as int, m.top as int));
        assert(point_in(r, m.right as int, m.bottom as int));
    }
}

/// Whether point (`x`, `y`) lies in rectangle `r`, edges included.
pub open spec fn point_in(r: WinRect, x: int, y: int) -> bool {
    r.left <= x <= r.right && r.top <= y <= r.bottom
}

/// A foreground window that leaves any edge of its monitor uncovered is not
/// full screen.
pub proof fn uncovered_edge_is_not_fullscreen(p: ForegroundProbe)
    requires
        p.rect matches Some(r) && p.monitor matches Some(m) && (r.left > m.left || r.top > m.top
            || r.right < m.right || r.bottom < m.bottom),
    ensures
        !(!p.is_shell && p.rect is Some && p.monitor is Some && covers_spec(p.rect->0, p.monitor->0)),
{
}

impl WinRect {
    /// Whether this rectangle covers the whole monitor (the full-screen test).
    pub fn covers_monitor(&self, mon: &MonitorRect) -> (r: bool)
        ensures
            r == covers_spec(*self, *mon),
    {
        self.left <= mon.left && self.top <= mon.top && self.right >= mon.right && self.bottom
            >= mon.bottom
    }
}

/// The monitor the user is working on: the one of the foreground window, else
/// the one under the cursor, else the primary monitor.
pub fn active_monitor(
    foreground: Option<MonitorRect>,
    under_cursor: Option<MonitorRect>,
    primary: Option<MonitorRect>,
) -> (r: Option<MonitorRect>)
    ensures
        r == (if foreground is Some {
            foreground
        } else if under_cursor is Some {
            under_cursor
        } else {
            primary
        }),
{
    if foreground.is_some() {
        foreground
    } else if under_cursor.is_some() {
        under_cursor
    } else {
        primary
    }
}

/// Whether a window class belongs to the desktop shell (task bar or desktop).
pub open spec fn is_shell_class_spec(name: Seq<char>) -> bool {
    name == "Shell_TrayWnd"@ || name == "Progman"@ || name == "WorkerW"@
}

/// Whether a window class name is `Shell_TrayWnd`, `Progman` or `WorkerW`.
pub fn is_shell_class(name: &str) -> (r: bool)
    ensures
        r == is_shell_class_spec(name@),
{
    str_eq(name, "Shell_TrayWnd") || str_eq(name, "Progman") || str_eq(name, "WorkerW")
}

/// What is known of the foreground window when full screen is checked.
pub struct ForegroundProbe {
    /// Whether its class is a desktop-shell class.
    pub is_shell: bool,
    /// Its rectangle, if it could be read.
    pub rect: Option<WinRect>,
    /// The monitor it is on, if it could be read.
    pub monitor: Option<MonitorRect>,
}

/// Whether an application is full screen: there is a foreground window that
/// is not part of the shell and whose rectangle covers its monitor.
pub fn check_fullscreen(foreground: Option<ForegroundProbe>) -> (r: bool)
    ensures
        r == (match foreground {
            Some(p) => !p.is_shell && p.rect is Some && p.monitor is Some && covers_spec(
                p.rect->0,
                p.monitor->0,
            ),
            None => false,
        }),
{
    match foreground {
        None => false,
        Some(p) => {
            if p.is_shell {
                return false;
            }
            match (p.rect, p.monitor) {
                (Some(rect), Some(mon)) => rect.covers_monitor(&mon),
                _ => false,
            }
        },
    }
}

/// Event that tells the wallpaper windows that full-screen state changed.
#[derive(Clone, Copy)]
pub struct FullscreenChangedPayload {
    pub is_fullscreen: bool,
}

/// The state of the full-screen poller: what the last check found.
pub struct FullscreenDetector {
    pub was_fullscreen: bool,
}

impl FullscreenDetector {
    /// A poller that starts from "not full screen".
    pub fn new() -> (r: Self)
        ensures
            !r.was_fullscreen,
    {
        FullscreenDetector { was_fullscreen: false }
    }

    /// Records one check; returns the event to send when the state changed.
    pub fn observe(&mut self, is_fullscreen: bool) -> (event: Option<FullscreenChangedPayload>)
        ensures
            final(self).was_fullscreen == is_fullscreen,
            event == (if is_fullscreen != old(self).was_fullscreen {
                Some(FullscreenChangedPayload { is_fullscreen })
            } else {
                None::<FullscreenChangedPayload>
            }),
    {
        if is_fullscreen != self.was_fullscreen {
            self.was_fullscreen = is_fullscreen;
            Some(FullscreenChangedPayload { is_fullscreen })
        } else {
            None
        }
    }
}

/// Where an embedded wallpaper window must go: the monitor's origin in the
/// virtual desktop and its physical resolution.
#[derive(Debug, Clone, Copy)]
pub struct EmbedRect {
    pub x: i32,
    pub y: i32,
    pub width: i32,
    pub height: i32,
}

/// The non-client margins of a window on each side, and its client size.
#[derive(Debug, Clone, Copy)]
pub struct NcOffset {
    pub left: i32,
    pub top: i32,
    pub right: i32,
    pub bottom: i32,
    pub client_w: i32,
    pub client_h: i32,
}

/// Whether `v` fits in `i32`.
pub open spec fn fits_i32(v: int) -> bool {
    i32::MIN <= v <= i32::MAX
}

impl NcOffset {
    /// Measures the margins from the window rectangle, the client rectangle and
    /// the screen position of the client origin.
    pub fn measure(window: WinRect, client: WinRect, origin_x: i32, origin_y: i32) -> (r: Self)
        requires
            fits_i32(origin_x - window.left),
            fits_i32(origin_y - window.top),
            fits_i32(origin_x + client.right),
            fits_i32(origin_y + client.bottom),
            fits_i32(window.right - (origin_x + client.right)),
            fits_i32(window.bottom - (origin_y + client.bottom)),
            fits_i32(client.right - client.left),
            fits_i32(client.bottom - client.top),
        ensures
            r.left == origin_x - window.left,
            r.top == origin_y - window.top,
            r.right == window.right - (origin_x + client.right),
            r.bottom == window.bottom - (origin_y + client.bottom),
            r.client_w == client.right - client.left,
            r.client_h == client.bottom - client.top,
    {
        NcOffset {
            left: origin_x - window.left,
            top: origin_y - window.top,
            right: window.right - (origin_x + client.right),
            bottom: window.bottom - (origin_y + client.bottom),
            client_w: client.right - client.left,
            client_h: client.bottom - client.top,
        }
    }

    /// Whether any side still has a non-client margin.
    pub fn has_offset(&self) -> (r: bool)
        ensures
            r == (self.left != 0 || self.top != 0 || self.right != 0 || self.bottom != 0),
    {
        self.left != 0 || self.top != 0 || self.right != 0 || self.bottom != 0
    }
}

/// Whether the margins and client size of `nc` make a compensation for `target`
/// computable in `i32`.
pub open spec fn compensation_fits(target: EmbedRect, nc: NcOffset) -> bool {
    &&& fits_i32(target.x - nc.left)
    &&& fits_i32(target.y - nc.top)
    &&& fits_i32(target.width + nc.left + nc.right)
    &&& fits_i32(target.height + nc.top + nc.bottom)
    &&& fits_i32(target.width + nc.left)
    &&& fits_i32(target.height + nc.top)
}

/// The window rectangle whose client area exactly covers `target`: moved up
/// and left by the top and left margins, enlarged by the margins of both sides.
pub fn compensate(target: EmbedRect, nc: NcOffset) -> (r: EmbedRect)
    requires
        compensation_fits(target, nc),
    ensures
        r.x == target.x - nc.left,
        r.y == target.y - nc.top,
        r.width == target.width + nc.left + nc.right,
        r.height == target.height + nc.top + nc.bottom,
{
    EmbedRect {
        x: target.x - nc.left,
        y: target.y - nc.top,
        width: target.width + nc.left + nc.right,
        height: target.height + nc.top + nc.bottom,
    }
}

/// One round of the measure / compensate loop: `None` when the client area
/// already fits `target` exactly, else the rectangle to move the window to.
pub fn fit_round(target: EmbedRect, nc: NcOffset) -> (r: Option<EmbedRect>)
    requires
        compensation_fits(target, nc),
    ensures
        (r is None) == (nc.left == 0 && nc.top == 0 && nc.right == 0 && nc.bottom == 0
            && nc.client_w == target.width && nc.client_h == target.height),
        r matches Some(m) ==> m.x == target.x - nc.left && m.y == target.y - nc.top && m.width
            == target.width + nc.left + nc.right && m.height == target.height + nc.top
            + nc.bottom,
{
    if !nc.has_offset() && nc.client_w == target.width && nc.client_h == target.height {
        None
    } else {
        Some(compensate(target, nc))
    }
}

/// The window rectangle after the last correction of a modern embedding:
/// compensated when a margin remains, else the target itself.
pub fn final_placement(target: EmbedRect, nc: NcOffset) -> (r: EmbedRect)
    requires
        compensation_fits(target, nc),
    ensures
        if nc.left != 0 || nc.top != 0 || nc.right != 0 || nc.bottom != 0 {
            r.x == target.x - nc.left && r.y == target.y - nc.top && r.width == target.width
                + nc.left + nc.right && r.height == target.height + nc.top + nc.bottom
        } else {
            r == target
        },
{
    if nc.has_offset() {
        compensate(target, nc)
    } else {
        target
    }
}

/// The build number from which Windows 11 24H2 on counts.
pub const WIN11_24H2_BUILD: u32 = 26100;

/// The two ways of embedding a window in the desktop.
#[derive(Debug, Clone, Copy, PartialEq, Eq, Structural)]
pub enum EmbedStrategyKind {
    /// Windows 11 24H2 and later: subclassing and non-client compensation.
    Modern,
    /// Earlier versions: the classic parent change.
    Legacy,
}

/// The strategy for a Windows build number; an unknown build is treated as old.
pub fn select_strategy(build: Option<u32>) -> (r: EmbedStrategyKind)
    ensures
        r == (match build {
            Some(b) => if b >= WIN11_24H2_BUILD {
                EmbedStrategyKind::Modern
            } else {
                EmbedStrategyKind::Legacy
            },
            None => EmbedStrategyKind::Legacy,
        }),
{
    match build {
        Some(b) => if b >= WIN11_24H2_BUILD {
            EmbedStrategyKind::Modern
        } else {
            EmbedStrategyKind::Legacy
        },
        None => EmbedStrategyKind::Legacy,
    }
}

/// Window style bit: title bar.
pub const WS_CAPTION: u64 = 0x00C0_0000;
/// Window style bit: sizing border.
pub const WS_THICKFRAME: u64 = 0x0004_0000;
/// Window style bit: thin border.
pub const WS_BORDER: u64 = 0x0080_0000;
/// Window style bit: dialog frame.
pub const WS_DLGFRAME: u64 = 0x0040_0000;
/// Window style bit: child window.
pub const WS_CHILD: u64 = 0x4000_0000;
/// Window style bit: visible.
pub const WS_VISIBLE: u64 = 0x1000_0000;
/// Extended style bit: sunken client edge.
pub const WS_EX_CLIENTEDGE: u64 = 0x0000_0200;
/// Extended style bit: static edge.
pub const WS_EX_STATICEDGE: u64 = 0x0002_0000;
/// Extended style bit: raised window edge.
pub const WS_EX_WINDOWEDGE: u64 = 0x0000_0100;
/// Extended style bit: modal dialog frame.
pub const WS_EX_DLGMODALFRAME: u64 = 0x0000_0001;
/// Extended style bit: layered window.
pub const WS_EX_LAYERED: u64 = 0x0008_0000;
/// Extended style bit: transparent to mouse hit tests.
pub const WS_EX_TRANSPARENT: u64 = 0x0000_0020;

/// The border bits an embedded wallpaper must not have.
pub const BORDER_STYLE_BITS: u64 = WS_CAPTION | WS_THICKFRAME | WS_BORDER | WS_DLGFRAME;
/// The extended edge bits an embedded wallpaper must not have.
pub const EDGE_EX_STYLE_BITS: u64 = WS_EX_CLIENTEDGE | WS_EX_STATICEDGE | WS_EX_WINDOWEDGE
    | WS_EX_DLGMODALFRAME;

/// Window style of an embedded wallpaper: every border bit cleared, marked as
/// a visible child window, all other bits kept.
pub fn clean_style(style: u64) -> (r: u64)
    ensures
        r & BORDER_STYLE_BITS == 0,
        r & WS_CHILD == WS_CHILD,
        r & WS_VISIBLE == WS_VISIBLE,
        r & !(BORDER_STYLE_BITS | WS_CHILD | WS_VISIBLE) == style & !(BORDER_STYLE_BITS | WS_CHILD
            | WS_VISIBLE),
{
    assert(0x00C0_0000u64 | 0x0004_0000u64 | 0x0080_0000u64 | 0x0040_0000u64 == 0x00C4_0000u64)
        by (bit_vector);
    assert(0x00C4_0000u64 | 0x4000_0000u64 | 0x1000_0000u64 == 0x50C4_0000u64) by (bit_vector);
    let r = (style & !BORDER_STYLE_BITS) | WS_CHILD | WS_VISIBLE;
    assert(r & 0x00C4_0000u64 == 0 && r & 0x4000_0000u64 == 0x4000_0000u64 && r
        & 0x1000_0000u64 == 0x1000_0000u64 && r & !0x50C4_0000u64 == style & !0x50C4_0000u64)
        by (bit_vector)
        requires
            r == (style & !0x00C4_0000u64) | 0x4000_0000u64 | 0x1000_0000u64,
    ;
    r
}

/// Extended style of an embedded wallpaper: the edge bits cleared, made
/// layered and transparent to the mouse, all other bits kept.
pub fn clean_ex_style(ex_style: u64) -> (r: u64)
    ensures
        r & EDGE_EX_STYLE_BITS == 0,
        r & WS_EX_LAYERED == WS_EX_LAYERED,
        r & WS_EX_TRANSPARENT == WS_EX_TRANSPARENT,
        r & !(EDGE_EX_STYLE_BITS | WS_EX_LAYERED | WS_EX_TRANSPARENT) == ex_style & !(
        EDGE_EX_STYLE_BITS | WS_EX_LAYERED | WS_EX_TRANSPARENT),
{
    assert(0x200u64 | 0x2_0000u64 | 0x100u64 | 0x1u64 == 0x0002_0301u64) by (bit_vector);
    assert(0x0002_0301u64 | 0x8_0000u64 | 0x20u64 == 0x000A_0321u64) by (bit_vector);
    let r = (ex_style & !EDGE_EX_STYLE_BITS) | WS_EX_LAYERED | WS_EX_TRANSPARENT;
    assert(r & 0x0002_0301u64 == 0 && r & 0x8_0000u64 == 0x8_0000u64 && r & 0x20u64 == 0x20u64
        && r & !0x000A_0321u64 == ex_style & !0x000A_0321u64) by (bit_vector)
        requires
            r == (ex_style & !0x0002_0301u64) | 0x8_0000u64 | 0x20u64,
    ;
    r
}


/// The characters of a fixed-size, NUL-terminated name buffer: those before
/// the first NUL, or all of them when there is none.
pub open spec fn nul_terminated_len_spec(units: Seq<u16>) -> int
    decreases units.len(),
{
    if units.len() == 0 {
        0
    } else if units[0] == 0 {
        0
    } else {
        1 + nul_terminated_len_spec(units.drop_first())
    }
}

/// Length of the name held in a NUL-terminated buffer (device names come
/// back from the system this way).
pub fn nul_terminated_len(units: &Vec<u16>) -> (r: usize)
    ensures
        r == nul_terminated_len_spec(units@),
        r <= units@.len(),
        forall|i: int| 0 <= i < r ==> units@[i] != 0,
        r < units@.len() ==> units@[r as int] == 0,
{
    let ghost s = units@;
    let mut i: usize = 0;
    assert(s.subrange(0, s.len() as int) =~= s);
    while i < units.len()
        invariant
            s == units@,
            i <= s.len(),
            forall|k: int| 0 <= k < i ==> s[k] != 0,
            nul_terminated_len_spec(s) == i + nul_terminated_len_spec(s.subrange(i as int, s.len() as int)),
        decreases s.len() - i,
    {
        if units[i] == 0 {
            return i;
        }
        assert(s.subrange(i as int, s.len() as int).drop_first() =~= s.subrange(i + 1, s.len() as int));
        i = i + 1;
    }
    assert(s.subrange(i as int, s.len() as int).len() == 0);
    i
}

/// The message that asks a window for its non-client area.
pub const WM_NCCALCSIZE: u32 = 0x0083;

/// How a subclassed wallpaper window handles a message.
#[derive(Debug, Clone, Copy, PartialEq, Eq, Structural)]
pub enum MessageRoute {
    /// Answer 0: no non-client area, hence no border.
    NoFrame,
    /// Pass it to the window procedure the window had before.
    Original(isize),
    /// Pass it to the system's default procedure.
    Default,
}

/// The window procedures that subclassed wallpaper windows had before, by
/// window handle.
pub struct SubclassTable {
    originals: HashMap<isize, isize>,
}

impl View for SubclassTable {
    type V = Map<isize, isize>;

    closed spec fn view(&self) -> Map<isize, isize> {
        self.originals@
    }
}

impl SubclassTable {
    /// No window is subclassed.
    pub fn new() -> (r: Self)
        ensures
            r@ == Map::<isize, isize>::empty(),
    {
        SubclassTable { originals: HashMap::new() }
    }

    /// Records the procedure `original` that window `hwnd` had (a second
    /// record for the same window replaces the first).
    pub fn register(&mut self, hwnd: isize, original: isize)
        ensures
            final(self)@ == old(self)@.insert(hwnd, original),
    {
        self.originals.insert(hwnd, original);
    }

    /// The procedure recorded for `hwnd`.
    pub fn original_of(&self, hwnd: isize) -> (r: Option<isize>)
        ensures
            r == self@.get(hwnd),
    {
        match self.originals.get(&hwnd) {
            Some(p) => Some(*p),
            None => None,
        }
    }

    /// How window `hwnd` handles message `msg`: the non-client size request
    /// is answered with an empty frame, everything else goes to the recorded
    /// procedure, or to the default one when none was recorded.
    pub fn route(&self, hwnd: isize, msg: u32) -> (r: MessageRoute)
        ensures
            r == (if msg == WM_NCCALCSIZE {
                MessageRoute::NoFrame
            } else {
                match self@.get(hwnd) {
                    Some(p) => MessageRoute::Original(p),
                    None => MessageRoute::Default,
                }
            }),
    {
        if msg == WM_NCCALCSIZE {
            MessageRoute::NoFrame
        } else {
            match self.original_of(hwnd) {
                Some(p) => MessageRoute::Original(p),
                None => MessageRoute::Default,
            }
        }
    }
}

} // verus!
