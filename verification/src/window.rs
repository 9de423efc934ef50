//! Window management: the follow state of the chat window, which monitor holds a point,
//! where the chat window is placed next to the main window, and which windows give up
//! their top level when one is activated.
use vstd::prelude::*;
use vstd::string::*;
use crate::text::str_eq;

verus! {

/// Gap in pixels between the main window and the chat window.
pub const WINDOW_GAP: i32 = 12;

/// Position and size of a window, in physical pixels.
#[derive(Clone, Copy)]
pub struct WindowPosition {
    pub x: i32,
    pub y: i32,
    pub width: u32,
    pub height: u32,
}

/// Position and size of a monitor, in physical pixels.
#[derive(Clone, Copy)]
pub struct MonitorArea {
    pub x: i32,
    pub y: i32,
    pub width: u32,
    pub height: u32,
}

/// Whether the chat window follows the main window, and whether it is shown.
pub struct WindowFollower {
    pub enabled: bool,
    pub chat_visible: bool,
}

impl WindowFollower {
    /// Following off, chat window hidden.
    pub fn new() -> (f: Self)
        ensures
            !f.enabled,
            !f.chat_visible,
    {
        WindowFollower { enabled: false, chat_visible: false }
    }

    /// Turns following on.
    pub fn enable_follow(&mut self)
        ensures
            final(self).enabled,
            final(self).chat_visible == old(self).chat_visible,
    {
        self.enabled = true;
    }

    /// Turns following off.
    pub fn disable_follow(&mut self)
        ensures
            !final(self).enabled,
            final(self).chat_visible == old(self).chat_visible,
    {
        self.enabled = false;
    }

    /// Records whether the chat window is shown.
    pub fn set_chat_visible(&mut self, visible: bool)
        ensures
            final(self).chat_visible == visible,
            final(self).enabled == old(self).enabled,
    {
        self.chat_visible = visible;
    }

    /// The chat window is repositioned only when following is on and it is shown.
    pub fn should_sync(&self) -> (b: bool)
        ensures
            b == (self.enabled && self.chat_visible),
    {
        self.enabled && self.chat_visible
    }

    /// Toggles the chat window given whether it is shown now: a shown window is hidden
    /// and no longer followed, a hidden one is shown and followed. Returns whether it is
    /// shown afterwards.
    pub fn toggle_chat(&mut self, shown_now: bool) -> (shown: bool)
        ensures
            shown == !shown_now,
            final(self).chat_visible == shown,
            final(self).enabled == shown,
    {
        if shown_now {
            self.set_chat_visible(false);
            self.disable_follow();
            false
        } else {
            self.enable_follow();
            self.set_chat_visible(true);
            true
        }
    }
}

impl Default for WindowFollower {
    fn default() -> (f: Self)
        ensures
            !f.enabled,
            !f.chat_visible,
    {
        WindowFollower::new()
    }
}

/// Rust's integer division, rounding toward zero.
pub open spec fn div_trunc(a: int, b: int) -> int {
    if a >= 0 {
        a / b
    } else {
        -((-a) / b)
    }
}

/// An `i32` value.
pub open spec fn fits_i32(v: int) -> bool {
    i32::MIN <= v <= i32::MAX
}

/// The monitor's right and bottom edges are `i32` values.
pub open spec fn area_fits(m: MonitorArea) -> bool {
    fits_i32(m.x + (m.width as i32) as int) && fits_i32(m.y + (m.height as i32) as int)
}

/// The point lies on the monitor (right and bottom edges excluded).
pub open spec fn holds_point(m: MonitorArea, x: int, y: int) -> bool {
    x >= m.x && x < m.x + (m.width as i32) as int && y >= m.y && y < m.y + (m.height as i32) as int
}

/// Position of the first monitor holding the point, or -1.
pub open spec fn monitor_index(s: Seq<MonitorArea>, x: int, y: int) -> int
    decreases s.len(),
{
    if s.len() == 0 {
        -1
    } else if holds_point(s[0], x, y) {
        0
    } else {
        let r = monitor_index(s.skip(1), x, y);
        if r < 0 {
            -1
        } else {
            r + 1
        }
    }
}

proof fn lemma_monitor_index_found(s: Seq<MonitorArea>, x: int, y: int, i: int)
    requires
        0 <= i < s.len(),
        holds_point(s[i], x, y),
        forall|j: int| 0 <= j < i ==> !holds_point(#[trigger] s[j], x, y),
    ensures
        monitor_index(s, x, y) == i,
    decreases i,
{
    if i > 0 {
        assert forall|j: int| 0 <= j < i - 1 implies !holds_point(#[trigger] s.skip(1)[j], x, y) by {
            assert(s.skip(1)[j] == s[j + 1]);
        }
        assert(s.skip(1)[i - 1] == s[i]);
        lemma_monitor_index_found(s.skip(1), x, y, i - 1);
    }
}

proof fn lemma_monitor_index_absent(s: Seq<MonitorArea>, x: int, y: int)
    requires
        forall|j: int| 0 <= j < s.len() ==> !holds_point(#[trigger] s[j], x, y),
    ensures
        monitor_index(s, x, y) == -1,
    decreases s.len(),
{
    if s.len() > 0 {
        assert forall|j: int| 0 <= j < s.len() - 1 implies !holds_point(#[trigger] s.skip(1)[j], x, y) by {
            assert(s.skip(1)[j] == s[j + 1]);
        }
        assert(!holds_point(s[0], x, y));
        lemma_monitor_index_absent(s.skip(1), x, y);
    }
}

/// The first monitor that holds the point.
pub fn find_monitor_at_point(monitors: &[MonitorArea], x: i32, y: i32) -> (r: Option<MonitorArea>)
    requires
        forall|i: int| 0 <= i < monitors@.len() ==> area_fits(#[trigger] monitors@[i]),
    ensures
        r is Some <==> monitor_index(monitors@, x as int, y as int) >= 0,
        r matches Some(m) ==> m == monitors@[monitor_index(monitors@, x as int, y as int)],
{
    let mut i: usize = 0;
    while i < monitors.len()
        invariant
            i <= monitors@.len(),
            forall|k: int| 0 <= k < monitors@.len() ==> area_fits(#[trigger] monitors@[k]),
            forall|j: int| 0 <= j < i ==> !holds_point(#[trigger] monitors@[j], x as int, y as int),
        decreases monitors.len() - i,
    {
        let m = monitors[i];
        assert(area_fits(monitors@[i as int]));
        if x >= m.x && x < m.x + m.width as i32 && y >= m.y && y < m.y + m.height as i32 {
            proof {
                lemma_monitor_index_found(monitors@, x as int, y as int, i as int);
            }
            return Some(m);
        }
        i = i + 1;
    }
    proof {
        lemma_monitor_index_absent(monitors@, x as int, y as int);
    }
    None
}

/// `v` raised to at least `lo`, then lowered to at most `hi` (`v.max(lo).min(hi)`).
pub open spec fn clamp(v: int, lo: int, hi: int) -> int {
    let a = if v > lo {
        v
    } else {
        lo
    };
    if a < hi {
        a
    } else {
        hi
    }
}

/// Every value the placement computes is an `i32`.
pub open spec fn placement_fits(main: WindowPosition, chat_w: int, chat_h: int, m: MonitorArea) -> bool {
    let mw = (main.width as i32) as int;
    let mh = (main.height as i32) as int;
    let sw = (m.width as i32) as int;
    let sh = (m.height as i32) as int;
    &&& fits_i32(main.y - m.y)
    &&& fits_i32(mw - chat_w)
    &&& fits_i32(main.x + div_trunc(mw - chat_w, 2))
    &&& fits_i32(main.y + mh)
    &&& fits_i32(main.y + mh + WINDOW_GAP)
    &&& fits_i32(main.y - chat_h)
    &&& fits_i32(main.y - chat_h - WINDOW_GAP)
    &&& fits_i32(m.x + sw)
    &&& fits_i32(m.x + sw - chat_w)
    &&& fits_i32(m.y + sh)
    &&& fits_i32(m.y + sh - chat_h)
}

/// Where the chat window goes: centred horizontally on the main window; below it when the
/// main window's top is in the upper half of the monitor, above it otherwise, with a gap
/// of twelve pixels; then kept within the monitor.
pub open spec fn chat_placement(main: WindowPosition, chat_w: int, chat_h: int, m: MonitorArea) -> (
    int,
    int,
) {
    let mw = (main.width as i32) as int;
    let mh = (main.height as i32) as int;
    let sw = (m.width as i32) as int;
    let sh = (m.height as i32) as int;
    let x = main.x + div_trunc(mw - chat_w, 2);
    let y = if main.y - m.y < div_trunc(sh, 2) {
        main.y + mh + WINDOW_GAP
    } else {
        main.y - chat_h - WINDOW_GAP
    };
    (clamp(x, m.x as int, m.x + sw - chat_w), clamp(y, m.y as int, m.y + sh - chat_h))
}

/// The chat window's position (see [`chat_placement`]).
pub fn chat_window_position(main: WindowPosition, chat_width: u32, chat_height: u32, monitor: MonitorArea) -> (r: (i32, i32))
    requires
        placement_fits(main, (chat_width as i32) as int, (chat_height as i32) as int, monitor),
    ensures
        (r.0 as int, r.1 as int) == chat_placement(
            main,
            (chat_width as i32) as int,
            (chat_height as i32) as int,
            monitor,
        ),
{
    let chat_w = chat_width as i32;
    let chat_h = chat_height as i32;
    let a_y = main.y - monitor.y;
    let half = (monitor.height as i32) / 2;
    let chat_x = main.x + (main.width as i32 - chat_w) / 2;
    let chat_y = if a_y < half {
        main.y + main.height as i32 + WINDOW_GAP
    } else {
        main.y - chat_h - WINDOW_GAP
    };
    let min_x = monitor.x;
    let max_x = monitor.x + monitor.width as i32 - chat_w;
    let min_y = monitor.y;
    let max_y = monitor.y + monitor.height as i32 - chat_h;
    let x1 = if chat_x > min_x {
        chat_x
    } else {
        min_x
    };
    let x2 = if x1 < max_x {
        x1
    } else {
        max_x
    };
    let y1 = if chat_y > min_y {
        chat_y
    } else {
        min_y
    };
    let y2 = if y1 < max_y {
        y1
    } else {
        max_y
    };
    (x2, y2)
}

/// The centre of a window, by which the monitor it is on is found.
pub open spec fn center_of(main: WindowPosition) -> (int, int) {
    (main.x + div_trunc((main.width as i32) as int, 2), main.y + div_trunc((main.height as i32) as int, 2))
}

/// The monitor the chat window is placed on: the first holding the main window's
/// centre, else the main window's current monitor, else the first monitor.
pub open spec fn chosen_monitor(
    monitors: Seq<MonitorArea>,
    main: WindowPosition,
    current: Option<MonitorArea>,
) -> Option<MonitorArea> {
    let i = monitor_index(monitors, center_of(main).0, center_of(main).1);
    if i >= 0 {
        Some(monitors[i])
    } else if current is Some {
        current
    } else if monitors.len() > 0 {
        Some(monitors[0])
    } else {
        None
    }
}

/// Where the chat window goes when the main window moves: nowhere (`None`) unless it is
/// followed and shown; then the placement on the chosen monitor, or an error when there
/// is no monitor at all.
pub fn sync_target(
    follower: &WindowFollower,
    main: WindowPosition,
    chat_width: u32,
    chat_height: u32,
    monitors: &[MonitorArea],
    current: Option<MonitorArea>,
) -> (r: Result<Option<(i32, i32)>, String>)
    requires
        fits_i32(center_of(main).0),
        fits_i32(center_of(main).1),
        forall|i: int| 0 <= i < monitors@.len() ==> area_fits(#[trigger] monitors@[i]),
        chosen_monitor(monitors@, main, current) matches Some(m) ==> placement_fits(
            main,
            (chat_width as i32) as int,
            (chat_height as i32) as int,
            m,
        ),
    ensures
        !(follower.enabled && follower.chat_visible) ==> r matches Ok(None),
        follower.enabled && follower.chat_visible ==> match chosen_monitor(monitors@, main, current) {
            None => r matches Err(e) && e@ == "No monitor available"@,
            Some(m) => r matches Ok(Some(p)) && (p.0 as int, p.1 as int) == chat_placement(
                main,
                (chat_width as i32) as int,
                (chat_height as i32) as int,
                m,
            ),
        },
{
    if !follower.should_sync() {
        return Ok(None);
    }
    let cx = main.x + (main.width as i32) / 2;
    let cy = main.y + (main.height as i32) / 2;
    let monitor = match find_monitor_at_point(monitors, cx, cy) {
        Some(m) => m,
        None => match current {
            Some(c) => c,
            None => {
                if monitors.len() == 0 {
                    return Err(String::from_str("No monitor available"));
                }
                monitors[0]
            },
        },
    };
    Ok(Some(chat_window_position(main, chat_width, chat_height, monitor)))
}

/// Windows whose top level is managed (the main window always stays on top).
pub open spec fn managed_windows() -> Seq<Seq<char>> {
    seq!["chat"@, "preference"@, "comprehensive_function"@]
}

/// The managed windows other than the one being activated, in order.
pub fn windows_to_lower(target: &str) -> (r: Vec<String>)
    ensures
        r@.map_values(|s: String| s@) == managed_windows().filter(|l: Seq<char>| l != target@),
{
    let ghost pred = |l: Seq<char>| l != target@;
    let mut r: Vec<String> = Vec::new();
    let ghost m = managed_windows();
    assert(m.take(0).filter(pred) =~= Seq::<Seq<char>>::empty());
    let names = ["chat", "preference", "comprehensive_function"];
    let mut i: usize = 0;
    while i < 3
        invariant
            i <= 3,
            m == managed_windows(),
            names@ == seq!["chat", "preference", "comprehensive_function"],
            pred == (|l: Seq<char>| l != target@),
            r@.map_values(|s: String| s@) == m.take(i as int).filter(pred),
        decreases 3 - i,
    {
        let name: &str = names[i];
        assert(name@ == m[i as int]);
        proof {
            assert(m.take(i + 1) =~= m.take(i as int).push(m[i as int]));
            crate::keyed::lemma_filter_push(m.take(i as int), pred, m[i as int]);
        }
        let ghost before = r@;
        if !str_eq(name, target) {
            r.push(String::from_str(name));
            assert(r@.map_values(|s: String| s@) =~= before.map_values(|s: String| s@).push(name@));
        }
        i = i + 1;
    }
    assert(m.take(3) =~= m);
    r
}

/// What to do with the main window as a macOS panel.
pub enum MacOSPanelStatus {
    Show,
    Hide,
    SetAlwaysOnTop(bool),
}

/// When the chat window is no larger than the monitor, it is placed entirely on it.
pub proof fn lemma_chat_on_monitor(main: WindowPosition, chat_w: int, chat_h: int, m: MonitorArea)
    requires
        0 <= chat_w <= (m.width as i32) as int,
        0 <= chat_h <= (m.height as i32) as int,
    ensures
        m.x <= chat_placement(main, chat_w, chat_h, m).0,
        chat_placement(main, chat_w, chat_h, m).0 + chat_w <= m.x + (m.width as i32) as int,
        m.y <= chat_placement(main, chat_w, chat_h, m).1,
        chat_placement(main, chat_w, chat_h, m).1 + chat_h <= m.y + (m.height as i32) as int,
{
}

} // verus!
