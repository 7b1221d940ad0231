//! Window manager: windows, their order, keyboard focus, moving and resizing.
//!
//! A click anywhere in a window's frame gives it the keyboard focus and brings it
//! to the front; hovering changes neither; a click on the desktop takes the focus
//! away. What a click hits is decided in this order: the buttons, the resize
//! zone, the title bar, the client area.
use crate::gui::events::{GuiEvent, Key, Mods, MouseBtn};
use vstd::prelude::*;
use vstd::string::*;

verus! {

pub const TITLEBAR_H: u32 = 30;

pub const BORDER: u32 = 1;

pub const BTN_SIZE: u32 = 12;

pub const BTN_MARGIN: u32 = 10;

pub const BTN_GAP: u32 = 6;

pub const RESIZE_ZONE: u32 = 8;

pub const SHADOW_D: u32 = 4;

/// Pixels from the edge within which a window snaps.
pub const SNAP_THRESHOLD: i32 = 24;

/// What is painted where a window was.
pub const VACATED: u32 = 0x080C18;

/// What a point of a window belongs to.
#[derive(Debug, Clone, Copy, PartialEq, Eq, Structural)]
pub enum HitResult {
    Nothing,
    BtnClose,
    BtnMin,
    BtnMax,
    Titlebar,
    Resize,
    Client,
    Border,
}

/// What the mouse is dragging.
#[derive(Debug, Clone, Copy, PartialEq, Eq, Structural)]
pub enum DragState {
    Idle,
    Moving { wid: u32, off_x: i32, off_y: i32 },
    Resizing { wid: u32, orig_w: u32, orig_h: u32, start_x: i32, start_y: i32 },
}

/// An event for the program that owns a window.
#[derive(Debug, Clone, Copy, PartialEq, Eq, Structural)]
pub enum WindowEvent {
    Close,
    MouseButton { x: i32, y: i32, button: u8, down: bool },
    MouseMove { x: i32, y: i32, dx: i16, dy: i16 },
    Key { keycode: u32, ascii: u8, down: bool },
}

/// What is to be done outside the window manager.
#[derive(Debug, Clone, Copy, PartialEq, Eq, Structural)]
pub enum WmAction {
    MarkDirty { x: usize, y: usize, w: usize, h: usize },
    MarkAll,
    Fill { x: usize, y: usize, w: usize, h: usize, color: u32 },
    Send { wid: u32, event: WindowEvent },
    RedrawShell,
}

// ---------------------------------------------------------------------------
// A window
// ---------------------------------------------------------------------------

#[derive(Debug)]
pub struct Window {
    pub id: u32,
    pub title: String,
    pub x: i32,
    pub y: i32,
    pub w: u32,
    pub h: u32,
    pub z: u32,
    pub visible: bool,
    pub minimized: bool,
    pub maximized: bool,
    pub pre_max: Option<(i32, i32, u32, u32)>,
    pub pixels: Vec<u32>,
    pub dirty: bool,
    pub owner_tid: u64,
}

/// What a window is.
#[verifier::ext_equal]
pub struct Win {
    pub id: u32,
    pub title: Seq<char>,
    pub x: i32,
    pub y: i32,
    pub w: u32,
    pub h: u32,
    pub z: u32,
    pub visible: bool,
    pub minimized: bool,
    pub maximized: bool,
    pub pre_max: Option<(i32, i32, u32, u32)>,
    pub pixels: Seq<u32>,
    pub dirty: bool,
    pub owner_tid: u64,
}

impl View for Window {
    type V = Win;

    open spec fn view(&self) -> Win {
        Win {
            id: self.id,
            title: self.title@,
            x: self.x,
            y: self.y,
            w: self.w,
            h: self.h,
            z: self.z,
            visible: self.visible,
            minimized: self.minimized,
            maximized: self.maximized,
            pre_max: self.pre_max,
            pixels: self.pixels@,
            dirty: self.dirty,
            owner_tid: self.owner_tid,
        }
    }
}

/// The point is in the rectangle.
pub open spec fn within(px: int, py: int, x: int, y: int, w: int, h: int) -> bool {
    x <= px < x + w && y <= py < y + h
}

/// The point is on the round button whose square begins at `b`, or up to a
/// fraction of a pixel beside it.
pub open spec fn on_button(b: (int, int), px: int, py: int) -> bool {
    let dx = px - (b.0 + 6);
    let dy = py - (b.1 + 6);
    dx * dx + dy * dy <= 40
}

/// A window of that place and size can be handled with machine integers: its frame with
/// the shadow, its buttons and its resize corner have places, and its pixels a number.
pub open spec fn sound_place(x: i32, y: i32, w: u32, h: u32) -> bool {
    &&& i32::MIN + 8 <= x <= i32::MAX - 51
    &&& i32::MIN + 35 <= y
    &&& w <= i32::MAX - 2
    &&& h <= i32::MAX - 32
    &&& x + w + 1 <= i32::MAX
    &&& y + h + 1 <= i32::MAX
    &&& w * h <= u32::MAX
}

pub open spec fn at_least_0(n: int) -> int {
    if n < 0 {
        0
    } else {
        n
    }
}

/// `v`, not below `lo` nor above `hi`.
pub open spec fn held(v: int, lo: int, hi: int) -> int {
    if v < lo {
        lo
    } else if v > hi {
        hi
    } else {
        v
    }
}

/// The pixels with another number of them: cut off, or filled up.
pub open spec fn resized(pixels: Seq<u32>, n: int, color: u32) -> Seq<u32> {
    Seq::new(
        n as nat,
        |i: int|
            if i < pixels.len() {
                pixels[i]
            } else {
                color
            },
    )
}

impl Win {
    pub open spec fn sound(self) -> bool {
        &&& sound_place(self.x, self.y, self.w, self.h)
        &&& self.pre_max matches Some((x, y, w, h)) ==> sound_place(x, y, w, h)
    }

    /// Left edge of the frame.
    pub open spec fn left(self) -> int {
        self.x - 1
    }

    /// Top edge of the frame, which is that of the title bar.
    pub open spec fn top(self) -> int {
        self.y - 31
    }

    pub open spec fn frame_width(self) -> int {
        self.w + 2
    }

    pub open spec fn frame_height(self) -> int {
        self.h + 32
    }

    pub open spec fn close_at(self) -> (int, int) {
        (self.left() + 10, self.top() + 9)
    }

    pub open spec fn min_at(self) -> (int, int) {
        (self.left() + 28, self.top() + 9)
    }

    pub open spec fn max_at(self) -> (int, int) {
        (self.left() + 46, self.top() + 9)
    }

    pub open spec fn on_frame(self, px: int, py: int) -> bool {
        within(px, py, self.left(), self.top(), self.frame_width(), self.frame_height())
    }

    pub open spec fn on_resize(self, px: int, py: int) -> bool {
        within(px, py, self.x + self.w - 8, self.y + self.h - 8, 9, 9)
    }

    pub open spec fn on_titlebar(self, px: int, py: int) -> bool {
        within(px, py, self.left(), self.top(), self.frame_width(), 30)
    }

    pub open spec fn on_client(self, px: int, py: int) -> bool {
        within(px, py, self.x as int, self.y as int, self.w as int, self.h as int)
    }

    /// What the point hits.
    pub open spec fn hit(self, px: int, py: int) -> HitResult {
        if !self.visible || self.minimized || !self.on_frame(px, py) {
            HitResult::Nothing
        } else if on_button(self.close_at(), px, py) {
            HitResult::BtnClose
        } else if on_button(self.min_at(), px, py) {
            HitResult::BtnMin
        } else if on_button(self.max_at(), px, py) {
            HitResult::BtnMax
        } else if self.on_resize(px, py) {
            HitResult::Resize
        } else if self.on_titlebar(px, py) {
            HitResult::Titlebar
        } else if self.on_client(px, py) {
            HitResult::Client
        } else {
            HitResult::Border
        }
    }

    /// The frame with its shadow, as far as it is not beyond the left and top
    /// edges of the screen.
    pub open spec fn area(self) -> WmAction {
        WmAction::MarkDirty {
            x: at_least_0(self.left() - 4) as usize,
            y: at_least_0(self.top() - 4) as usize,
            w: (self.frame_width() + 8) as usize,
            h: (self.frame_height() + 8) as usize,
        }
    }

    /// The window changed over between its own size and that of the screen.
    pub open spec fn max_toggled(self, sw: usize, sh: usize, bg: u32) -> Win {
        let placed = if !self.maximized {
            Win {
                pre_max: Some((self.x, self.y, self.w, self.h)),
                x: 0,
                y: 30,
                w: sw as u32,
                h: (sh - 62) as u32,
                maximized: true,
                ..self
            }
        } else {
            match self.pre_max {
                Some((x, y, w, h)) => Win { x, y, w, h, maximized: false, pre_max: None, ..self },
                None => self,
            }
        };
        Win { pixels: resized(self.pixels, placed.w * placed.h, bg), dirty: true, ..placed }
    }

    /// The window moved, with its title bar kept on a screen of that size.
    pub open spec fn moved_to(self, x: int, y: int, sw: usize, sh: usize) -> Win {
        Win {
            x: held(x, 60 - self.w, sw - 60) as i32,
            y: held(y, 30, sh - 32) as i32,
            dirty: true,
            ..self
        }
    }

    /// The window with another size, not below a least one.
    pub open spec fn sized_to(self, w: int, h: int, bg: u32) -> Win {
        let nw = if w < 200 {
            200
        } else {
            w
        };
        let nh = if h < 100 {
            100
        } else {
            h
        };
        Win {
            w: nw as u32,
            h: nh as u32,
            pixels: resized(self.pixels, nw * nh, bg),
            dirty: true,
            ..self
        }
    }
}

fn in_rect(px: i32, py: i32, x: i64, y: i64, w: i64, h: i64) -> (r: bool)
    requires
        -0x2_0000_0000 <= x <= 0x2_0000_0000,
        -0x2_0000_0000 <= y <= 0x2_0000_0000,
        0 <= w <= 0x2_0000_0000,
        0 <= h <= 0x2_0000_0000,
    ensures
        r == within(px as int, py as int, x as int, y as int, w as int, h as int),
{
    let (qx, qy) = (px as i64, py as i64);
    x <= qx && qx < x + w && y <= qy && qy < y + h
}

impl Window {
    /// A visible window at the front of its own layer, filled with `bg`.
    pub fn new(
        id: u32,
        title: String,
        x: i32,
        y: i32,
        w: u32,
        h: u32,
        owner_tid: u64,
        bg: u32,
    ) -> (r: Self)
        requires
            w * h <= u32::MAX,
        ensures
            r@ == (Win {
                id,
                title: title@,
                x,
                y,
                w,
                h,
                z: id,
                visible: true,
                minimized: false,
                maximized: false,
                pre_max: None,
                pixels: Seq::new((w * h) as nat, |i: int| bg),
                dirty: true,
                owner_tid,
            }),
    {
        let n: usize = (w * h) as usize;
        let pixels = vec![bg; n];
        assert(pixels@ =~= Seq::new((w * h) as nat, |i: int| bg));
        Window {
            id,
            title,
            x,
            y,
            w,
            h,
            z: id,
            visible: true,
            minimized: false,
            maximized: false,
            pre_max: None,
            pixels,
            dirty: true,
            owner_tid,
        }
    }

    pub fn frame_x(&self) -> (r: i32)
        requires
            self@.sound(),
        ensures
            r == self@.left(),
    {
        self.x - 1
    }

    pub fn frame_y(&self) -> (r: i32)
        requires
            self@.sound(),
        ensures
            r == self@.top(),
    {
        self.y - 31
    }

    pub fn frame_w(&self) -> (r: u32)
        requires
            self.w + 2 <= u32::MAX,
        ensures
            r == self@.frame_width(),
    {
        self.w + 2 * BORDER
    }

    pub fn frame_h(&self) -> (r: u32)
        requires
            self.h + 32 <= u32::MAX,
        ensures
            r == self@.frame_height(),
    {
        self.h + TITLEBAR_H + 2 * BORDER
    }

    pub fn titlebar_rect(&self) -> (r: (i32, i32, u32, u32))
        requires
            self@.sound(),
        ensures
            r.0 == self@.left(),
            r.1 == self@.top(),
            r.2 == self@.frame_width(),
            r.3 == TITLEBAR_H,
    {
        (self.frame_x(), self.frame_y(), self.frame_w(), TITLEBAR_H)
    }

    pub fn btn_close(&self) -> (r: (i32, i32))
        requires
            self@.sound(),
        ensures
            (r.0 as int, r.1 as int) == self@.close_at(),
    {
        (self.frame_x() + 10, self.frame_y() + 9)
    }

    pub fn btn_min(&self) -> (r: (i32, i32))
        requires
            self@.sound(),
        ensures
            (r.0 as int, r.1 as int) == self@.min_at(),
    {
        let (bx, by) = self.btn_close();
        (bx + 18, by)
    }

    pub fn btn_max(&self) -> (r: (i32, i32))
        requires
            self@.sound(),
        ensures
            (r.0 as int, r.1 as int) == self@.max_at(),
    {
        let (bx, by) = self.btn_min();
        (bx + 18, by)
    }

    pub fn resize_rect(&self) -> (r: (i32, i32, u32, u32))
        requires
            self@.sound(),
        ensures
            r.0 == self.x + self.w - 8,
            r.1 == self.y + self.h - 8,
            r.2 == 9,
            r.3 == 9,
    {
        let rx: i64 = self.x as i64 + self.w as i64 - 8;
        let ry: i64 = self.y as i64 + self.h as i64 - 8;
        (rx as i32, ry as i32, RESIZE_ZONE + BORDER, RESIZE_ZONE + BORDER)
    }

    fn btn_hit(b: (i64, i64), px: i32, py: i32) -> (r: bool)
        requires
            -0x2_0000_0000 <= b.0 <= 0x2_0000_0000,
            -0x2_0000_0000 <= b.1 <= 0x2_0000_0000,
        ensures
            r == on_button((b.0 as int, b.1 as int), px as int, py as int),
    {
        let dx: i64 = px as i64 - (b.0 + 6);
        let dy: i64 = py as i64 - (b.1 + 6);
        // Beyond seven pixels the square alone is too large.
        if dx > 7 || dx < -7 || dy > 7 || dy < -7 {
            assert(dx * dx + dy * dy > 40) by (nonlinear_arith)
                requires
                    dx > 7 || dx < -7 || dy > 7 || dy < -7,
            ;
            return false;
        }
        assert(0 <= dx * dx <= 49 && 0 <= dy * dy <= 49) by (nonlinear_arith)
            requires
                -7 <= dx <= 7,
                -7 <= dy <= 7,
        ;
        dx * dx + dy * dy <= 40
    }

    fn close_place(&self) -> (r: (i64, i64))
        ensures
            (r.0 as int, r.1 as int) == self@.close_at(),
            -0x1_0000_0000 <= r.0 <= 0x1_0000_0000,
            -0x1_0000_0000 <= r.1 <= 0x1_0000_0000,
    {
        (self.x as i64 + 9, self.y as i64 - 22)
    }

    pub fn hit_close(&self, px: i32, py: i32) -> (r: bool)
        ensures
            r == on_button(self@.close_at(), px as int, py as int),
    {
        Self::btn_hit(self.close_place(), px, py)
    }

    pub fn hit_min(&self, px: i32, py: i32) -> (r: bool)
        ensures
            r == on_button(self@.min_at(), px as int, py as int),
    {
        let (bx, by) = self.close_place();
        Self::btn_hit((bx + 18, by), px, py)
    }

    pub fn hit_max(&self, px: i32, py: i32) -> (r: bool)
        ensures
            r == on_button(self@.max_at(), px as int, py as int),
    {
        let (bx, by) = self.close_place();
        Self::btn_hit((bx + 36, by), px, py)
    }

    pub fn hit_resize(&self, px: i32, py: i32) -> (r: bool)
        ensures
            r == self@.on_resize(px as int, py as int),
    {
        in_rect(
            px,
            py,
            self.x as i64 + self.w as i64 - 8,
            self.y as i64 + self.h as i64 - 8,
            9,
            9,
        )
    }

    pub fn hit_titlebar(&self, px: i32, py: i32) -> (r: bool)
        ensures
            r == self@.on_titlebar(px as int, py as int),
    {
        in_rect(px, py, self.x as i64 - 1, self.y as i64 - 31, self.w as i64 + 2, 30)
    }

    pub fn hit_client(&self, px: i32, py: i32) -> (r: bool)
        ensures
            r == self@.on_client(px as int, py as int),
    {
        in_rect(px, py, self.x as i64, self.y as i64, self.w as i64, self.h as i64)
    }

    pub fn hit_frame(&self, px: i32, py: i32) -> (r: bool)
        ensures
            r == self@.on_frame(px as int, py as int),
    {
        in_rect(
            px,
            py,
            self.x as i64 - 1,
            self.y as i64 - 31,
            self.w as i64 + 2,
            self.h as i64 + 32,
        )
    }

    /// What the point hits.
    pub fn hit_detail(&self, px: i32, py: i32) -> (r: HitResult)
        ensures
            r == self@.hit(px as int, py as int),
    {
        if !self.visible || self.minimized {
            return HitResult::Nothing;
        }
        if !self.hit_frame(px, py) {
            return HitResult::Nothing;
        }
        if self.hit_close(px, py) {
            return HitResult::BtnClose;
        }
        if self.hit_min(px, py) {
            return HitResult::BtnMin;
        }
        if self.hit_max(px, py) {
            return HitResult::BtnMax;
        }
        if self.hit_resize(px, py) {
            return HitResult::Resize;
        }
        if self.hit_titlebar(px, py) {
            return HitResult::Titlebar;
        }
        if self.hit_client(px, py) {
            return HitResult::Client;
        }
        HitResult::Border
    }

    /// The frame with its shadow: x, y, width and height.
    pub fn frame_dirty_rect(&self) -> (r: (usize, usize, usize, usize))
        requires
            self@.sound(),
        ensures
            (WmAction::MarkDirty { x: r.0, y: r.1, w: r.2, h: r.3 }) == self@.area(),
    {
        let fx: i32 = self.frame_x() - SHADOW_D as i32;
        let fy: i32 = self.frame_y() - SHADOW_D as i32;
        (
            not_negative(fx),
            not_negative(fy),
            self.frame_w() as usize + SHADOW_D as usize * 2,
            self.frame_h() as usize + SHADOW_D as usize * 2,
        )
    }

    fn mark(&self) -> (r: WmAction)
        requires
            self@.sound(),
        ensures
            r == self@.area(),
    {
        let (x, y, w, h) = self.frame_dirty_rect();
        WmAction::MarkDirty { x, y, w, h }
    }
}

fn not_negative(n: i32) -> (r: usize)
    ensures
        r == at_least_0(n as int),
{
    if n < 0 {
        0
    } else {
        n as usize
    }
}

/// The place of an unsigned machine integer with the bits of `n`, sign extended.
pub open spec fn unsigned(n: i32) -> usize {
    if n < 0 {
        (usize::MAX + 1 + n) as usize
    } else {
        n as usize
    }
}

fn to_unsigned(n: i32) -> (r: usize)
    ensures
        r == unsigned(n),
{
    if n < 0 {
        usize::MAX - ((-(n + 1)) as usize)
    } else {
        n as usize
    }
}

/// A window that is maximised and changed back has its place and size again.
pub proof fn law_maximise_twice_restores(w: Win, sw: usize, sh: usize, bg: u32)
    requires
        !w.maximized,
        62 <= sh,
    ensures
        ({
            let back = w.max_toggled(sw, sh, bg).max_toggled(sw, sh, bg);
            &&& back.x == w.x
            &&& back.y == w.y
            &&& back.w == w.w
            &&& back.h == w.h
            &&& !back.maximized
            &&& back.pre_max is None
            &&& back.pixels.len() == w.w * w.h
        }),
{
    assert(0 <= w.w * w.h) by (nonlinear_arith)
        requires
            0 <= w.w,
            0 <= w.h,
    ;
}

/// Wherever a window is dragged, part of its title bar stays on the screen.
pub proof fn law_dragged_titlebar_stays_visible(w: Win, x: int, y: int, sw: usize, sh: usize)
    requires
        w.sound(),
        62 <= sh <= i32::MAX,
        sw <= i32::MAX,
        120 <= w.w + sw,
    ensures
        ({
            let m = w.moved_to(x, y, sw, sh);
            &&& 30 <= m.y <= sh - 32
            &&& m.x + m.w >= 60
            &&& m.x <= sw - 60
            &&& m.w == w.w
            &&& m.h == w.h
        }),
{
}

// ---------------------------------------------------------------------------
// All windows
// ---------------------------------------------------------------------------

/// The state of the window manager.
#[derive(Debug)]
pub struct WmState {
    /// Ascending by their number.
    pub windows: Vec<Window>,
    /// Front to back.
    pub z_order: Vec<u32>,
    /// Who gets the keyboard.
    pub focused: Option<u32>,
    /// Whom the mouse is over.
    pub hovered: Option<u32>,
    pub next_id: u32,
    pub drag: DragState,
    pub last_cursor: (i32, i32),
    /// What new parts of a window are filled with.
    pub window_bg: u32,
}

/// What the window manager knows.
#[verifier::ext_equal]
pub struct Desk {
    pub windows: Seq<Win>,
    pub z_order: Seq<u32>,
    pub focused: Option<u32>,
    pub hovered: Option<u32>,
    pub next_id: u32,
    pub drag: DragState,
    pub last_cursor: (i32, i32),
    pub window_bg: u32,
}

impl View for WmState {
    type V = Desk;

    open spec fn view(&self) -> Desk {
        Desk {
            windows: Seq::new(self.windows@.len(), |i: int| self.windows@[i]@),
            z_order: self.z_order@,
            focused: self.focused,
            hovered: self.hovered,
            next_id: self.next_id,
            drag: self.drag,
            last_cursor: self.last_cursor,
            window_bg: self.window_bg,
        }
    }
}

/// The index of the first window from `i` on with that number.
pub open spec fn index_from(windows: Seq<Win>, id: u32, i: int) -> Option<int>
    decreases windows.len() - i,
{
    if i >= windows.len() {
        None
    } else if windows[i].id == id {
        Some(i)
    } else {
        index_from(windows, id, i + 1)
    }
}

/// The numbers without one of them.
pub open spec fn without(ids: Seq<u32>, id: u32) -> Seq<u32>
    decreases ids.len(),
{
    if ids.len() == 0 {
        Seq::empty()
    } else if ids.last() == id {
        without(ids.drop_last(), id)
    } else {
        without(ids.drop_last(), id).push(ids.last())
    }
}

/// The last place before `n` at which a number stands.
pub open spec fn last_below(ids: Seq<u32>, id: u32, n: int) -> Option<int>
    decreases n,
{
    if n <= 0 {
        None
    } else if ids[n - 1] == id {
        Some(n - 1)
    } else {
        last_below(ids, id, n - 1)
    }
}

/// The windows with their layers set by the first `n` places of the order: the
/// front has the highest.
pub open spec fn ranked(windows: Seq<Win>, order: Seq<u32>, n: int) -> Seq<Win> {
    Seq::new(
        windows.len(),
        |i: int|
            match last_below(order, windows[i].id, n) {
                Some(k) => Win { z: (order.len() - k) as u32, ..windows[i] },
                None => windows[i],
            },
    )
}

impl Desk {
    /// Windows are in the order of their numbers, all below the next one, and can
    /// be handled with machine integers.
    pub open spec fn wf(self) -> bool {
        &&& forall|i: int, j: int|
            0 <= i < j < self.windows.len() ==> (#[trigger] self.windows[i]).id < (
            #[trigger] self.windows[j]).id
        &&& forall|i: int|
            0 <= i < self.windows.len() ==> (#[trigger] self.windows[i]).id < self.next_id
                && self.windows[i].sound()
    }

    pub open spec fn get(self, id: u32) -> Option<Win> {
        match index_from(self.windows, id, 0) {
            Some(i) => Some(self.windows[i]),
            None => None,
        }
    }

    /// The window of that number changed by `f`.
    pub open spec fn with(self, id: u32, f: spec_fn(Win) -> Win) -> Desk {
        match index_from(self.windows, id, 0) {
            Some(i) => Desk { windows: self.windows.update(i, f(self.windows[i])), ..self },
            None => self,
        }
    }

    pub open spec fn dirtied(self, id: u32) -> Desk {
        self.with(id, |w: Win| Win { dirty: true, ..w })
    }

    /// The first window from place `i` of the order on that shows at the point.
    pub open spec fn top_from(self, px: int, py: int, i: int) -> Option<u32>
        decreases self.z_order.len() - i,
    {
        if i >= self.z_order.len() {
            None
        } else {
            let id = self.z_order[i];
            if self.get(id) is Some && self.get(id)->0.visible && !self.get(id)->0.minimized
                && self.get(id)->0.on_frame(px, py) {
                Some(id)
            } else {
                self.top_from(px, py, i + 1)
            }
        }
    }

    /// A window brought to the front of the order, and all layers set by the order.
    pub open spec fn fronted(self, wid: u32) -> Desk {
        let order = seq![wid] + without(self.z_order, wid);
        Desk {
            z_order: order,
            windows: ranked(self.windows, order, order.len() as int),
            ..self
        }
    }

    /// Keyboard focus passed on; who loses and who gets it are to be redrawn.
    pub open spec fn focus_set(self, new_focus: Option<u32>) -> Desk {
        if self.focused == new_focus {
            self
        } else {
            let a = match self.focused {
                Some(id) => self.dirtied(id),
                None => self,
            };
            let b = match new_focus {
                Some(id) => a.dirtied(id),
                None => a,
            };
            Desk { focused: new_focus, ..b }
        }
    }

    pub open spec fn closed(self, wid: u32) -> Desk {
        let order = without(self.z_order, wid);
        Desk {
            windows: match index_from(self.windows, wid, 0) {
                Some(i) => self.windows.remove(i),
                None => self.windows,
            },
            z_order: order,
            focused: if self.focused == Some(wid) {
                if order.len() > 0 {
                    Some(order[0])
                } else {
                    None
                }
            } else {
                self.focused
            },
            hovered: if self.hovered == Some(wid) {
                None
            } else {
                self.hovered
            },
            ..self
        }
    }

    /// What closing a window leads to: its place is painted over, and everything
    /// is drawn anew.
    pub open spec fn close_actions(self, wid: u32) -> Seq<WmAction> {
        (match self.get(wid) {
            Some(w) => {
                let x = at_least_0(w.left()) as usize;
                let y = at_least_0(w.top()) as usize;
                let (fw, fh) = (w.frame_width() as usize, w.frame_height() as usize);
                seq![
                    WmAction::Fill { x, y, w: fw, h: fh, color: VACATED },
                    WmAction::MarkDirty { x, y, w: fw, h: fh },
                ]
            },
            None => Seq::empty(),
        }) + seq![WmAction::MarkAll, WmAction::RedrawShell]
    }

    /// A left click there makes a window as large as the screen.
    pub open spec fn enlarges(self, px: i32, py: i32) -> bool {
        &&& self.top_from(px as int, py as int, 0) matches Some(wid)
        &&& self.get(wid)->0.hit(px as int, py as int) == HitResult::BtnMax
        &&& !self.get(wid)->0.maximized
    }

    /// The state after a left click, on a screen of that size.
    pub open spec fn after_left(self, px: i32, py: i32, sw: usize, sh: usize) -> Desk {
        match self.top_from(px as int, py as int, 0) {
            None => Desk { drag: DragState::Idle, ..self.focus_set(None) },
            Some(wid) => {
                let s = self.fronted(wid).focus_set(Some(wid));
                let win = s.get(wid)->0;
                match win.hit(px as int, py as int) {
                    HitResult::BtnClose => s.closed(wid),
                    HitResult::BtnMin => s.with(
                        wid,
                        |w: Win| Win { minimized: !w.minimized, dirty: true, ..w },
                    ),
                    HitResult::BtnMax => s.with(
                        wid,
                        |w: Win| w.max_toggled(sw, sh, self.window_bg),
                    ),
                    HitResult::Resize => Desk {
                        drag: DragState::Resizing {
                            wid,
                            orig_w: win.w,
                            orig_h: win.h,
                            start_x: px,
                            start_y: py,
                        },
                        ..s
                    },
                    HitResult::Titlebar => Desk {
                        drag: DragState::Moving {
                            wid,
                            off_x: (px - win.x) as i32,
                            off_y: (py - win.top()) as i32,
                        },
                        ..s
                    },
                    _ => s,
                }
            },
        }
    }

    /// What a left click leads to.
    pub open spec fn left_actions(self, px: i32, py: i32) -> Seq<WmAction> {
        match self.top_from(px as int, py as int, 0) {
            None => Seq::empty(),
            Some(wid) => {
                let s = self.fronted(wid).focus_set(Some(wid));
                let win = s.get(wid)->0;
                (if self.focused != Some(wid) {
                    seq![WmAction::MarkAll]
                } else {
                    Seq::empty()
                }) + match win.hit(px as int, py as int) {
                    HitResult::BtnClose => seq![
                        WmAction::Send { wid, event: WindowEvent::Close },
                    ] + s.close_actions(wid),
                    HitResult::BtnMin => seq![WmAction::MarkAll],
                    HitResult::BtnMax => seq![WmAction::MarkAll],
                    HitResult::Client => seq![
                        WmAction::Send {
                            wid,
                            event: WindowEvent::MouseButton { x: px, y: py, button: 0, down: true },
                        },
                    ],
                    _ => Seq::empty(),
                }
            },
        }
    }

    /// The state after the mouse was moved.
    pub open spec fn after_move(self, px: i32, py: i32, sw: usize, sh: usize) -> Desk {
        match self.drag {
            DragState::Moving { wid, off_x, off_y } => match self.get(wid) {
                Some(w) => if w.maximized {
                    self
                } else {
                    self.with(
                        wid,
                        |w: Win| w.moved_to(px - off_x, py - off_y + 30, sw, sh),
                    )
                },
                None => self,
            },
            DragState::Resizing { wid, orig_w, orig_h, start_x, start_y } => self.with(
                wid,
                |w: Win| w.sized_to(orig_w + px - start_x, orig_h + py - start_y, self.window_bg),
            ),
            DragState::Idle => Desk { hovered: self.top_from(px as int, py as int, 0), ..self },
        }
    }

    /// What moving the mouse leads to.
    pub open spec fn move_actions(
        self,
        px: i32,
        py: i32,
        dx: i16,
        dy: i16,
        sw: usize,
        sh: usize,
    ) -> Seq<WmAction> {
        match self.drag {
            DragState::Moving { wid, off_x, off_y } => match self.get(wid) {
                Some(w) => if w.maximized {
                    Seq::empty()
                } else {
                    seq![w.area(), w.moved_to(px - off_x, py - off_y + 30, sw, sh).area()]
                },
                None => Seq::empty(),
            },
            DragState::Resizing { wid, orig_w, orig_h, start_x, start_y } => match self.get(wid) {
                Some(w) => seq![
                    w.area(),
                    w.sized_to(orig_w + px - start_x, orig_h + py - start_y, self.window_bg).area(),
                ],
                None => Seq::empty(),
            },
            DragState::Idle => match self.focused {
                Some(wid) => match self.get(wid) {
                    Some(w) => if w.on_client(px as int, py as int) {
                        seq![
                            WmAction::Send {
                                wid,
                                event: WindowEvent::MouseMove { x: px, y: py, dx, dy },
                            },
                        ]
                    } else {
                        Seq::empty()
                    },
                    None => Seq::empty(),
                },
                None => Seq::empty(),
            },
        }
    }

    /// The client area of a window, to be redrawn.
    pub open spec fn client_area(self, wid: u32) -> Seq<WmAction> {
        match self.get(wid) {
            Some(win) => seq![
                WmAction::MarkDirty {
                    x: unsigned(win.x),
                    y: unsigned(win.y),
                    w: win.w as usize,
                    h: win.h as usize,
                },
            ],
            None => Seq::empty(),
        }
    }

    /// The title bar of a window, to be redrawn.
    pub open spec fn title_area(self, wid: u32) -> Seq<WmAction> {
        match self.get(wid) {
            Some(w) => seq![
                WmAction::MarkDirty {
                    x: at_least_0(w.left()) as usize,
                    y: at_least_0(w.top()) as usize,
                    w: w.frame_width() as usize,
                    h: TITLEBAR_H as usize,
                },
            ],
            None => Seq::empty(),
        }
    }

    /// What the release of the left button leads to.
    pub open spec fn up_actions(self, px: i32, py: i32) -> Seq<WmAction> {
        match self.focused {
            Some(wid) => seq![
                WmAction::Send {
                    wid,
                    event: WindowEvent::MouseButton { x: px, y: py, button: 0, down: false },
                },
            ],
            None => Seq::empty(),
        }
    }

    /// What a right click leads to.
    pub open spec fn right_actions(self, px: i32, py: i32) -> Seq<WmAction> {
        match self.top_from(px as int, py as int, 0) {
            Some(wid) => seq![
                WmAction::Send {
                    wid,
                    event: WindowEvent::MouseButton { x: px, y: py, button: 1, down: true },
                },
            ],
            None => Seq::empty(),
        }
    }

    /// What a key leads to: the focused window is told, and no other.
    pub open spec fn key_actions(self, key: Key, ch: Option<char>) -> Seq<WmAction> {
        match self.focused {
            Some(wid) => seq![
                WmAction::Send {
                    wid,
                    event: WindowEvent::Key {
                        keycode: spec_key_code(key),
                        ascii: ascii_of(ch),
                        down: true,
                    },
                },
            ],
            None => Seq::empty(),
        }
    }

    /// What is being dragged can go where the mouse goes: the new place and size
    /// are numbers that a machine can handle, and the screen has room for a title
    /// bar.
    pub open spec fn can_move(self, px: i32, py: i32, sw: usize, sh: usize) -> bool {
        match self.drag {
            DragState::Moving { wid, off_x, off_y } => self.get(wid) is Some
                && !self.get(wid)->0.maximized ==> {
                &&& i32::MIN <= px - off_x <= i32::MAX
                &&& i32::MIN <= py - off_y <= i32::MAX - 30
                &&& sw <= i32::MAX - 64
                &&& 62 <= sh <= i32::MAX
                &&& 120 <= self.get(wid)->0.w + sw
                &&& sh + self.get(wid)->0.h + 64 <= i32::MAX
                &&& sw + self.get(wid)->0.w + 64 <= i32::MAX
            },
            DragState::Resizing { wid, orig_w, orig_h, start_x, start_y } => self.get(wid) is Some
                ==> {
                let w = self.get(wid)->0;
                let to = w.sized_to(orig_w + px - start_x, orig_h + py - start_y, 0);
                &&& orig_w <= i32::MAX
                &&& orig_h <= i32::MAX
                &&& i32::MIN <= orig_w + px <= i32::MAX
                &&& i32::MIN <= orig_h + py <= i32::MAX
                &&& i32::MIN <= orig_w + px - start_x <= i32::MAX
                &&& i32::MIN <= orig_h + py - start_y <= i32::MAX
                &&& sound_place(w.x, w.y, to.w, to.h)
            },
            DragState::Idle => true,
        }
    }

    /// A screen on which windows can be maximised.
    pub open spec fn screen_ok(sw: usize, sh: usize) -> bool {
        &&& 62 <= sh
        &&& sound_place(0, 30, sw as u32, (sh - 62) as u32)
        &&& sw <= u32::MAX
        &&& sh <= u32::MAX
    }
}

proof fn lemma_index(windows: Seq<Win>, id: u32, i: int)
    requires
        0 <= i,
    ensures
        match index_from(windows, id, i) {
            Some(k) => i <= k < windows.len() && windows[k].id == id,
            None => forall|k: int| i <= k < windows.len() ==> (#[trigger] windows[k]).id != id,
        },
    decreases windows.len() - i,
{
    if i < windows.len() && windows[i].id != id {
        lemma_index(windows, id, i + 1);
    }
}

/// Changing a window without changing its number keeps the state well formed, if
/// it keeps the window sound.
proof fn lemma_with_wf(d: Desk, id: u32, f: spec_fn(Win) -> Win)
    requires
        d.wf(),
        d.get(id) matches Some(w) ==> f(w).id == w.id && f(w).sound(),
    ensures
        d.with(id, f).wf(),
        d.get(id) matches Some(w) ==> d.with(id, f).get(id) == Some(f(w)),
        d.get(id) is None ==> d.with(id, f) == d,
{
    lemma_index(d.windows, id, 0);
    match index_from(d.windows, id, 0) {
        Some(k) => {
            let e = d.with(id, f);
            assert forall|i: int| 0 <= i < e.windows.len() implies (#[trigger] e.windows[i]).id
                == d.windows[i].id by {}
            assert forall|i: int, j: int| 0 <= i < j < e.windows.len() implies (
            #[trigger] e.windows[i]).id < (#[trigger] e.windows[j]).id by {
                assert(d.windows[i].id < d.windows[j].id);
            }
            lemma_same_index(d.windows, e.windows, id, 0);
        },
        None => {},
    }
}

/// Windows with the same numbers are found at the same places.
proof fn lemma_same_index(a: Seq<Win>, b: Seq<Win>, id: u32, i: int)
    requires
        0 <= i,
        a.len() == b.len(),
        forall|k: int| 0 <= k < a.len() ==> (#[trigger] a[k]).id == b[k].id,
    ensures
        index_from(a, id, i) == index_from(b, id, i),
    decreases a.len() - i,
{
    if i < a.len() && a[i].id != id {
        lemma_same_index(a, b, id, i + 1);
    }
}

/// Ranking changes nothing but the layers.
proof fn lemma_ranked(d: Desk, order: Seq<u32>, n: int, id: u32)
    ensures
        ranked(d.windows, order, n).len() == d.windows.len(),
        forall|i: int|
            0 <= i < d.windows.len() ==> (#[trigger] ranked(d.windows, order, n)[i]).id
                == d.windows[i].id && ranked(d.windows, order, n)[i].sound()
                == d.windows[i].sound(),
        index_from(ranked(d.windows, order, n), id, 0) == index_from(d.windows, id, 0),
{
    lemma_same_index(d.windows, ranked(d.windows, order, n), id, 0);
}

proof fn lemma_fronted_wf(d: Desk, wid: u32)
    requires
        d.wf(),
    ensures
        d.fronted(wid).wf(),
        d.fronted(wid).get(wid) is Some == d.get(wid) is Some,
        d.get(wid) matches Some(w) ==> d.fronted(wid).get(wid) == Some(
            Win { z: d.fronted(wid).get(wid)->0.z, ..w },
        ),
{
    let order = seq![wid] + without(d.z_order, wid);
    let n = order.len() as int;
    lemma_ranked(d, order, n, wid);
    lemma_index(d.windows, wid, 0);
    let e = d.fronted(wid);
    assert forall|i: int, j: int| 0 <= i < j < e.windows.len() implies (#[trigger] e.windows[i]).id
        < (#[trigger] e.windows[j]).id by {
        assert(d.windows[i].id < d.windows[j].id);
    }
}

proof fn lemma_focus_wf(d: Desk, f: Option<u32>, wid: u32)
    requires
        d.wf(),
    ensures
        d.focus_set(f).wf(),
        d.focus_set(f).focused == f,
        d.focus_set(f).z_order == d.z_order,
        d.get(wid) matches Some(w) ==> d.focus_set(f).get(wid) == Some(
            Win { dirty: d.focus_set(f).get(wid)->0.dirty, ..w },
        ),
        d.get(wid) is None ==> d.focus_set(f).get(wid) is None,
{
    if d.focused != f {
        let set = |w: Win| Win { dirty: true, ..w };
        let a = match d.focused {
            Some(id) => {
                lemma_index(d.windows, id, 0);
                lemma_with_wf(d, id, set);
                lemma_with_other(d, id, wid, set);
                d.dirtied(id)
            },
            None => d,
        };
        match f {
            Some(id) => {
                lemma_index(a.windows, id, 0);
                lemma_with_wf(a, id, set);
                lemma_with_other(a, id, wid, set);
            },
            None => {},
        }
    }
}

/// Changing one window leaves the others alone.
proof fn lemma_with_other(d: Desk, id: u32, other: u32, f: spec_fn(Win) -> Win)
    requires
        d.wf(),
        d.get(id) matches Some(w) ==> f(w).id == w.id,
    ensures
        other != id ==> d.with(id, f).get(other) == d.get(other),
{
    lemma_index(d.windows, id, 0);
    lemma_index(d.windows, other, 0);
    match index_from(d.windows, id, 0) {
        Some(k) => {
            let e = d.with(id, f);
            lemma_same_index(d.windows, e.windows, other, 0);
        },
        None => {},
    }
}

proof fn lemma_closed_wf(d: Desk, wid: u32)
    requires
        d.wf(),
    ensures
        d.closed(wid).wf(),
        d.closed(wid).get(wid) is None,
{
    lemma_index(d.windows, wid, 0);
    let e = d.closed(wid);
    match index_from(d.windows, wid, 0) {
        Some(k) => {
            assert forall|i: int| 0 <= i < e.windows.len() implies #[trigger] e.windows[i]
                == d.windows[if i < k {
                i
            } else {
                i + 1
            }] by {}
            assert forall|i: int| 0 <= i < e.windows.len() implies (#[trigger] e.windows[i]).id
                != wid by {
                if i < k {
                    assert(d.windows[i].id < d.windows[k].id);
                } else {
                    assert(d.windows[k].id < d.windows[i + 1].id);
                }
            }
        },
        None => {},
    }
    lemma_index(e.windows, wid, 0);
}

proof fn lemma_top(d: Desk, px: int, py: int, i: int)
    requires
        0 <= i,
    ensures
        d.top_from(px, py, i) matches Some(id) ==> d.get(id) is Some && d.get(id)->0.visible
            && !d.get(id)->0.minimized && d.get(id)->0.on_frame(px, py),
    decreases d.z_order.len() - i,
{
    if i < d.z_order.len() {
        lemma_top(d, px, py, i + 1);
    }
}

impl WmState {
    /// A desktop without windows.
    pub fn new(window_bg: u32) -> (r: Self)
        ensures
            r@.wf(),
            r@ == (Desk {
                windows: Seq::empty(),
                z_order: Seq::empty(),
                focused: None,
                hovered: None,
                next_id: 1,
                drag: DragState::Idle,
                last_cursor: (400, 300),
                window_bg,
            }),
    {
        let s = WmState {
            windows: Vec::new(),
            z_order: Vec::new(),
            focused: None,
            hovered: None,
            next_id: 1,
            drag: DragState::Idle,
            last_cursor: (400, 300),
            window_bg,
        };
        assert(s@.windows =~= Seq::<Win>::empty());
        s
    }

    /// The index of the window with that number.
    fn position(&self, id: u32) -> (r: Option<usize>)
        ensures
            match r {
                Some(i) => i < self.windows@.len() && index_from(self@.windows, id, 0) == Some(
                    i as int,
                ) && self@.get(id) == Some(self.windows@[i as int]@),
                None => index_from(self@.windows, id, 0) is None && self@.get(id) is None,
            },
    {
        let mut i: usize = 0;
        while i < self.windows.len()
            invariant
                i <= self.windows@.len(),
                index_from(self@.windows, id, 0) == index_from(self@.windows, id, i as int),
            decreases self.windows@.len() - i,
        {
            if self.windows[i].id == id {
                return Some(i);
            }
            i += 1;
        }
        None
    }

    /// The frontmost window at a point.
    pub fn top_at(&self, px: i32, py: i32) -> (r: Option<u32>)
        ensures
            r == self@.top_from(px as int, py as int, 0),
    {
        let mut i: usize = 0;
        while i < self.z_order.len()
            invariant
                i <= self.z_order@.len(),
                self@.top_from(px as int, py as int, 0) == self@.top_from(
                    px as int,
                    py as int,
                    i as int,
                ),
            decreases self.z_order@.len() - i,
        {
            let wid: u32 = self.z_order[i];
            match self.position(wid) {
                Some(k) => {
                    let w = &self.windows[k];
                    if w.visible && !w.minimized && w.hit_frame(px, py) {
                        return Some(wid);
                    }
                },
                None => {},
            }
            i += 1;
        }
        None
    }

    /// Takes a number out of the order.
    fn drop_from_order(&mut self, wid: u32)
        ensures
            final(self)@ == (Desk { z_order: without(old(self)@.z_order, wid), ..old(self)@ }),
    {
        let ghost all = self.z_order@;
        let mut kept: Vec<u32> = Vec::new();
        let mut i: usize = 0;
        assert(all.take(0) =~= Seq::<u32>::empty());
        while i < self.z_order.len()
            invariant
                i <= self.z_order@.len(),
                all == self.z_order@,
                *self == *old(self),
                kept@ == without(all.take(i as int), wid),
            decreases self.z_order@.len() - i,
        {
            let id: u32 = self.z_order[i];
            proof {
                assert(all.take(i + 1).drop_last() =~= all.take(i as int));
                assert(all.take(i + 1).last() == id);
            }
            if id != wid {
                kept.push(id);
            }
            i += 1;
        }
        assert(all.take(i as int) =~= all);
        self.z_order = kept;
    }

    /// Brings a window to the front of the order.
    pub fn bring_to_front(&mut self, wid: u32)
        requires
            old(self)@.wf(),
            old(self).z_order@.len() < u32::MAX,
        ensures
            final(self)@ == old(self)@.fronted(wid),
            final(self)@.wf(),
    {
        proof {
            lemma_fronted_wf(self@, wid);
            lemma_without_len(self@.z_order, wid);
        }
        self.drop_from_order(wid);
        self.z_order.insert(0, wid);
        let ghost order = self.z_order@;
        assert(order =~= seq![wid] + without(old(self)@.z_order, wid));
        let n: usize = self.z_order.len();
        let ghost start = self@.windows;
        assert(ranked(start, order, 0) =~= start);
        let mut i: usize = 0;
        while i < n
            invariant
                i <= n,
                n == order.len(),
                n <= u32::MAX,
                order == self.z_order@,
                old(self)@.wf(),
                start == old(self)@.windows,
                self@ == (Desk {
                    z_order: order,
                    windows: ranked(start, order, i as int),
                    ..old(self)@
                }),
            decreases n - i,
        {
            let id: u32 = self.z_order[i];
            let ghost before = self@.windows;
            proof {
                lemma_ranked(old(self)@, order, i as int, id);
                lemma_index(start, id, 0);
            }
            match self.position(id) {
                Some(k) => {
                    self.windows[k].z = (n - i) as u32;
                    proof {
                        let after = ranked(start, order, i + 1);
                        assert forall|j: int| 0 <= j < start.len() implies #[trigger] self@.windows[j]
                            == after[j] by {
                            if j != k {
                                if j < k {
                                    assert(start[j].id < start[k as int].id);
                                } else {
                                    assert(start[k as int].id < start[j].id);
                                }
                                assert(self@.windows[j] == before[j]);
                            } else {
                                assert(self@.windows[j] == (Win {
                                    z: (n - i) as u32,
                                    ..before[j]
                                }));
                            }
                        }
                        assert(self@.windows =~= after);
                    }
                },
                None => {
                    assert(ranked(start, order, i + 1) =~= ranked(start, order, i as int));
                },
            }
            i += 1;
        }
    }

    /// Marks a window for redrawing.
    fn set_dirty(&mut self, id: u32)
        ensures
            final(self)@ == old(self)@.dirtied(id),
    {
        match self.position(id) {
            Some(k) => {
                self.windows[k].dirty = true;
                assert(self@.windows =~= old(self)@.dirtied(id).windows);
            },
            None => {},
        }
    }

    /// Passes the keyboard focus on.
    pub fn set_focus(&mut self, new_focus: Option<u32>)
        requires
            old(self)@.wf(),
        ensures
            final(self)@ == old(self)@.focus_set(new_focus),
            final(self)@.wf(),
    {
        proof {
            lemma_focus_wf(self@, new_focus, 0);
        }
        if same_id(self.focused, new_focus) {
            return;
        }
        if let Some(id) = self.focused {
            self.set_dirty(id);
        }
        if let Some(id) = new_focus {
            self.set_dirty(id);
        }
        self.focused = new_focus;
    }
}

fn same_id(a: Option<u32>, b: Option<u32>) -> (r: bool)
    ensures
        r == (a == b),
{
    match (a, b) {
        (Some(x), Some(y)) => x == y,
        (None, None) => true,
        _ => false,
    }
}

proof fn lemma_without_len(ids: Seq<u32>, id: u32)
    ensures
        without(ids, id).len() <= ids.len(),
    decreases ids.len(),
{
    if ids.len() > 0 {
        lemma_without_len(ids.drop_last(), id);
    }
}

/// Nothing to do at start-up: the state is made with [`WmState::new`].
pub fn init(window_bg: u32) -> (r: WmState)
    ensures
        r@.wf(),
        r@ == (Desk {
            windows: Seq::empty(),
            z_order: Seq::empty(),
            focused: None,
            hovered: None,
            next_id: 1,
            drag: DragState::Idle,
            last_cursor: (400, 300),
            window_bg,
        }),
{
    WmState::new(window_bg)
}

/// Opens a window at the front, with the focus; returns its number and what is to
/// be redrawn.
pub fn create_window(
    wm: &mut WmState,
    title: &str,
    x: i32,
    y: i32,
    w: u32,
    h: u32,
    owner_tid: u64,
) -> (r: (u32, WmAction))
    requires
        old(wm)@.wf(),
        old(wm).next_id < u32::MAX,
        sound_place(x, y, w, h),
    ensures
        final(wm)@.wf(),
        r.0 == old(wm).next_id,
        ({
            let win = Win {
                id: r.0,
                title: title@,
                x,
                y,
                w,
                h,
                z: r.0,
                visible: true,
                minimized: false,
                maximized: false,
                pre_max: None,
                pixels: Seq::new((w * h) as nat, |i: int| old(wm).window_bg),
                dirty: true,
                owner_tid,
            };
            &&& final(wm)@ == (Desk {
                windows: old(wm)@.windows.push(win),
                z_order: seq![r.0] + old(wm)@.z_order,
                focused: Some(r.0),
                next_id: (old(wm).next_id + 1) as u32,
                ..old(wm)@
            })
            &&& r.1 == win.area()
        }),
{
    let id: u32 = wm.next_id;
    wm.next_id = wm.next_id + 1;
    let win = Window::new(id, title.to_owned(), x, y, w, h, owner_tid, wm.window_bg);
    let ghost seen = win@;
    let area = win.mark();
    wm.z_order.insert(0, id);
    wm.windows.push(win);
    wm.focused = Some(id);
    proof {
        assert(wm@.windows =~= old(wm)@.windows.push(seen));
        assert(wm@.z_order =~= seq![id] + old(wm)@.z_order);
        assert forall|i: int| 0 <= i < old(wm)@.windows.len() implies wm@.windows[i]
            == #[trigger] old(wm)@.windows[i] by {}
        assert forall|i: int, j: int| 0 <= i < j < wm@.windows.len() implies (
        #[trigger] wm@.windows[i]).id < (#[trigger] wm@.windows[j]).id by {
            assert(old(wm)@.windows[i].id < id);
            if j < old(wm)@.windows.len() {
                assert(old(wm)@.windows[i].id < old(wm)@.windows[j].id);
            }
        }
        assert forall|i: int| 0 <= i < wm@.windows.len() implies (#[trigger] wm@.windows[i]).id
            < wm.next_id && wm@.windows[i].sound() by {
            if i < old(wm)@.windows.len() {
                assert(old(wm)@.windows[i].id < id);
            }
        }
    }
    (id, area)
}

/// Closes a window; returns what is to be done.
pub fn close_window(wm: &mut WmState, wid: u32) -> (r: Vec<WmAction>)
    requires
        old(wm)@.wf(),
    ensures
        final(wm)@.wf(),
        final(wm)@ == old(wm)@.closed(wid),
        r@ == old(wm)@.close_actions(wid),
{
    let mut actions: Vec<WmAction> = Vec::new();
    proof {
        lemma_closed_wf(wm@, wid);
        lemma_index(wm@.windows, wid, 0);
    }
    match wm.position(wid) {
        Some(k) => {
            let win = wm.windows.remove(k);
            assert(wm@.windows =~= old(wm)@.windows.remove(k as int));
            let fx: usize = not_negative(win.frame_x());
            let fy: usize = not_negative(win.frame_y());
            let fw: usize = win.frame_w() as usize;
            let fh: usize = win.frame_h() as usize;
            actions.push(WmAction::Fill { x: fx, y: fy, w: fw, h: fh, color: VACATED });
            actions.push(WmAction::MarkDirty { x: fx, y: fy, w: fw, h: fh });
        },
        None => {},
    }
    wm.drop_from_order(wid);
    if same_id(wm.focused, Some(wid)) {
        wm.focused = if wm.z_order.len() > 0 {
            Some(wm.z_order[0])
        } else {
            None
        };
    }
    if same_id(wm.hovered, Some(wid)) {
        wm.hovered = None;
    }
    actions.push(WmAction::MarkAll);
    actions.push(WmAction::RedrawShell);
    assert(actions@ =~= old(wm)@.close_actions(wid));
    actions
}

/// How many pixels of a row of `w` fit into a row of `stride` from `x` on.
pub open spec fn fitting(stride: int, x: int, w: int) -> int {
    if x >= stride {
        0
    } else if w < stride - x {
        w
    } else {
        stride - x
    }
}

/// Pixel `k` of a window after an update of the rectangle `x`, `y`, `w`, `h`.
/// Rows below the window are left out, and so is a row for which there are not
/// enough new pixels, or which would go beyond the window's pixels.
pub open spec fn updated_pixel(
    win: Win,
    x: int,
    y: int,
    w: int,
    h: int,
    new: Seq<u32>,
    k: int,
) -> u32 {
    let stride = win.w as int;
    let n = fitting(stride, x, w);
    let row = k / stride - y;
    let col = k % stride - x;
    if stride > 0 && 0 <= row < h && row + y < win.h && 0 <= col < n && row * w + n <= new.len()
        && (row + y) * stride + x + n <= win.pixels.len() {
        new[row * w + col]
    } else {
        win.pixels[k]
    }
}

pub open spec fn updated(win: Win, x: int, y: int, w: int, h: int, new: Seq<u32>) -> Win {
    Win {
        pixels: Seq::new(
            win.pixels.len(),
            |k: int| updated_pixel(win, x, y, w, h, new, k),
        ),
        dirty: true,
        ..win
    }
}

/// Copies rows of pixels.
fn copy_rows(
    pixels: &mut Vec<u32>,
    Ghost(win): Ghost<Win>,
    stride: usize,
    height: usize,
    x: usize,
    y: usize,
    w: usize,
    h: usize,
    new: &Vec<u32>,
)
    requires
        old(pixels)@ == win.pixels,
        stride == win.w,
        height == win.h,
        x <= 0xFFFF && y <= 0xFFFF && w <= 0xFFFF && h <= 0xFFFF,
        (height + 1) * stride + 0xFFFF <= usize::MAX,
        h * w + w <= usize::MAX,
    ensures
        final(pixels)@ == updated(
            win,
            x as int,
            y as int,
            w as int,
            h as int,
            new@,
        ).pixels,
{
    let n: usize = if x >= stride {
        0
    } else if w < stride - x {
        w
    } else {
        stride - x
    };
    assert(n == fitting(stride as int, x as int, w as int));
    let mut row: usize = 0;
    let ghost (xi, yi, wi) = (x as int, y as int, w as int);
    assert(pixels@ =~= updated(win, xi, yi, wi, 0, new@).pixels);
    while row < h && y + row < height
        invariant
            n == fitting(stride as int, xi, wi),
            xi == x,
            yi == y,
            wi == w,
            x <= 0xFFFF && y <= 0xFFFF && w <= 0xFFFF && h <= 0xFFFF,
            stride == win.w,
            height == win.h,
            (height + 1) * stride + 0xFFFF <= usize::MAX,
            h * w + w <= usize::MAX,
            row <= h,
            row > 0 ==> y + row <= height,
            pixels@.len() == win.pixels.len(),
            pixels@ == updated(win, xi, yi, wi, row as int, new@).pixels,
        decreases h - row,
    {
        let ghost before = pixels@;
        assert(0 <= row * w && row * w + w <= h * w && 0 <= (y + row) * stride && (y + row) * stride
            <= height * stride && (height + 1) * stride == height * stride + stride)
            by (nonlinear_arith)
            requires
                row + 1 <= h,
                0 <= w,
                0 <= row,
                0 <= y,
                y + row <= height,
                0 <= stride,
        ;
        let src: usize = row * w;
        let dst: usize = (y + row) * stride + x;
        if src <= new.len() && n <= new.len() - src && dst <= pixels.len() && n <= pixels.len()
            - dst {
            let mut col: usize = 0;
            while col < n
                invariant
                    col <= n,
                    src + n <= new@.len(),
                    dst + n <= pixels@.len(),
                    pixels@.len() == before.len(),
                    before.len() <= usize::MAX,
                    new@.len() <= usize::MAX,
                    forall|k: int|
                        0 <= k < before.len() ==> #[trigger] pixels@[k] == (if dst <= k < dst
                            + col {
                            new@[src + (k - dst)]
                        } else {
                            before[k]
                        }),
                decreases n - col,
            {
                pixels.set(dst + col, new[src + col]);
                col += 1;
            }
            assert forall|k: int| 0 <= k < before.len() implies #[trigger] pixels@[k]
                == updated_pixel(win, xi, yi, wi, row + 1, new@, k) by {
                lemma_row(win, xi, yi, wi, row as int, new@, n as int, k);
            }
        } else {
            assert forall|k: int| 0 <= k < before.len() implies #[trigger] pixels@[k]
                == updated_pixel(win, xi, yi, wi, row + 1, new@, k) by {
                lemma_row(win, xi, yi, wi, row as int, new@, n as int, k);
            }
        }
        assert(pixels@ =~= updated(win, xi, yi, wi, row + 1, new@).pixels);
        row += 1;
    }
    assert(pixels@ =~= updated(win, xi, yi, wi, h as int, new@).pixels) by {
        assert forall|k: int| 0 <= k < win.pixels.len() implies updated_pixel(
            win,
            xi,
            yi,
            wi,
            row as int,
            new@,
            k,
        ) == updated_pixel(win, xi, yi, wi, h as int, new@, k) by {}
    }
}

/// One more row of an update changes just the pixels of that row.
proof fn lemma_row(win: Win, x: int, y: int, w: int, row: int, new: Seq<u32>, n: int, k: int)
    requires
        n == fitting(win.w as int, x, w),
        0 <= x,
        0 <= y,
        0 <= w,
        0 <= row,
        y + row < win.h,
        0 <= k < win.pixels.len(),
    ensures
        ({
            let dst = (y + row) * win.w + x;
            updated_pixel(win, x, y, w, row + 1, new, k) == if dst <= k < dst + n && row * w + n
                <= new.len() && dst + n <= win.pixels.len() {
                new[row * w + (k - dst)]
            } else {
                updated_pixel(win, x, y, w, row, new, k)
            }
        }),
{
    let s = win.w as int;
    let dst = (y + row) * s + x;
    if s > 0 {
        let q = k / s;
        let r = k % s;
        assert(k == q * s + r && 0 <= r < s && 0 <= q) by (nonlinear_arith)
            requires
                q == k / s,
                r == k % s,
                s > 0,
                k >= 0,
        ;
        if dst <= k < dst + n {
            assert(q == y + row) by (nonlinear_arith)
                requires
                    (y + row) * s + x <= k < (y + row) * s + x + n,
                    x + n <= s,
                    0 <= x,
                    k == q * s + r,
                    0 <= r < s,
                    s > 0,
            ;
            assert(r == k - dst + x);
        } else if q == y + row {
            assert(q * s == (y + row) * s);
            assert(!(0 <= r - x < n));
        }
    }
}

/// Replaces part of a window's picture.
pub fn update_pixels(
    wm: &mut WmState,
    wid: u32,
    x: u16,
    y: u16,
    w: u16,
    h: u16,
    pixels: &Vec<u32>,
) -> (r: Vec<WmAction>)
    requires
        old(wm)@.wf(),
        old(wm)@.get(wid) matches Some(win) ==> (win.h + 1) * win.w + 0xFFFF <= usize::MAX,
        h * w + w <= usize::MAX,
    ensures
        final(wm)@.wf(),
        final(wm)@ == old(wm)@.with(
            wid,
            |win: Win| updated(win, x as int, y as int, w as int, h as int, pixels@),
        ),
        r@ == old(wm)@.client_area(wid),
{
    let mut actions: Vec<WmAction> = Vec::new();
    let ghost f = |win: Win| updated(win, x as int, y as int, w as int, h as int, pixels@);
    proof {
        lemma_index(wm@.windows, wid, 0);
        lemma_with_wf(wm@, wid, f);
    }
    match wm.position(wid) {
        Some(k) => {
            let ghost win = wm.windows@[k as int]@;
            let stride: usize = wm.windows[k].w as usize;
            let height: usize = wm.windows[k].h as usize;
            let mut own: Vec<u32> = Vec::new();
            std::mem::swap(&mut own, &mut wm.windows[k].pixels);
            copy_rows(
                &mut own,
                Ghost(win),
                stride,
                height,
                x as usize,
                y as usize,
                w as usize,
                h as usize,
                pixels,
            );
            std::mem::swap(&mut own, &mut wm.windows[k].pixels);
            wm.windows[k].dirty = true;
            assert(wm.windows@[k as int]@ =~= f(win));
            assert(wm@.windows =~= old(wm)@.with(wid, f).windows);
            actions.push(
                WmAction::MarkDirty {
                    x: to_unsigned(wm.windows[k].x),
                    y: to_unsigned(wm.windows[k].y),
                    w: stride,
                    h: height,
                },
            );
        },
        None => {},
    }
    assert(actions@ =~= old(wm)@.client_area(wid));
    actions
}

/// Gives a window another title.
pub fn set_title(wm: &mut WmState, wid: u32, title: String) -> (r: Vec<WmAction>)
    requires
        old(wm)@.wf(),
    ensures
        final(wm)@.wf(),
        final(wm)@ == old(wm)@.with(wid, |w: Win| Win { title: title@, dirty: true, ..w }),
        r@ == old(wm)@.title_area(wid),
{
    let mut actions: Vec<WmAction> = Vec::new();
    let ghost f = |w: Win| Win { title: title@, dirty: true, ..w };
    proof {
        lemma_index(wm@.windows, wid, 0);
        lemma_with_wf(wm@, wid, f);
    }
    match wm.position(wid) {
        Some(k) => {
            let ghost win = wm.windows@[k as int]@;
            assert(win.sound()) by {
                assert(wm@.windows[k as int] == win);
            }
            let (fx, fy, fw, _) = wm.windows[k].titlebar_rect();
            wm.windows[k].title = title;
            wm.windows[k].dirty = true;
            assert(wm.windows@[k as int]@ =~= f(win));
            assert(wm@.windows =~= old(wm)@.with(wid, f).windows);
            actions.push(
                WmAction::MarkDirty {
                    x: not_negative(fx),
                    y: not_negative(fy),
                    w: fw as usize,
                    h: TITLEBAR_H as usize,
                },
            );
        },
        None => {},
    }
    assert(actions@ =~= old(wm)@.title_area(wid));
    actions
}

pub fn focused_window(wm: &WmState) -> (r: Option<u32>)
    ensures
        r == wm@.focused,
{
    wm.focused
}

// ---------------------------------------------------------------------------
// Events
// ---------------------------------------------------------------------------

/// The window of that number can be handled with machine integers.
proof fn lemma_get(d: Desk, id: u32)
    requires
        d.wf(),
    ensures
        d.get(id) matches Some(w) ==> w.id == id && w.sound(),
{
    lemma_index(d.windows, id, 0);
}

/// Changes a window over between its own size and that of the screen.
fn toggle_max(wm: &mut WmState, wid: u32, sw: usize, sh: usize)
    requires
        old(wm)@.wf(),
        old(wm)@.get(wid) matches Some(w) ==> !w.maximized ==> Desk::screen_ok(sw, sh),
    ensures
        final(wm)@.wf(),
        final(wm)@ == old(wm)@.with(
            wid,
            |w: Win| w.max_toggled(sw, sh, old(wm)@.window_bg),
        ),
{
    let ghost f = |w: Win| w.max_toggled(sw, sh, old(wm)@.window_bg);
    proof {
        lemma_get(wm@, wid);
        if let Some(w) = wm@.get(wid) {
            assert(f(w).sound());
        }
        lemma_with_wf(wm@, wid, f);
    }
    match wm.position(wid) {
        Some(k) => {
            let ghost before = wm.windows@[k as int]@;
            let bg: u32 = wm.window_bg;
            if !wm.windows[k].maximized {
                let w = &wm.windows[k];
                let place: (i32, i32, u32, u32) = (w.x, w.y, w.w, w.h);
                wm.windows[k].pre_max = Some(place);
                wm.windows[k].x = 0;
                wm.windows[k].y = TITLEBAR_H as i32;
                wm.windows[k].w = sw as u32;
                wm.windows[k].h = sh as u32 - TITLEBAR_H - 32;
                wm.windows[k].maximized = true;
            } else {
                match wm.windows[k].pre_max {
                    Some((x, y, w, h)) => {
                        wm.windows[k].pre_max = None;
                        wm.windows[k].x = x;
                        wm.windows[k].y = y;
                        wm.windows[k].w = w;
                        wm.windows[k].h = h;
                        wm.windows[k].maximized = false;
                    },
                    None => {},
                }
            }
            let n: usize = (wm.windows[k].w * wm.windows[k].h) as usize;
            wm.windows[k].pixels.resize(n, bg);
            wm.windows[k].dirty = true;
            assert(wm.windows@[k as int]@.pixels =~= f(before).pixels);
            assert(wm.windows@[k as int]@ =~= f(before));
            assert(wm@.windows =~= old(wm)@.with(wid, f).windows);
        },
        None => {},
    }
}

/// Handles a left click on a screen of that size; returns what is to be done.
pub fn on_ldown(wm: &mut WmState, px: i32, py: i32, sw: usize, sh: usize) -> (r: Vec<WmAction>)
    requires
        old(wm)@.wf(),
        old(wm).z_order@.len() < u32::MAX,
        old(wm)@.enlarges(px, py) ==> Desk::screen_ok(sw, sh),
    ensures
        final(wm)@.wf(),
        final(wm)@ == old(wm)@.after_left(px, py, sw, sh),
        r@ == old(wm)@.left_actions(px, py),
{
    let mut actions: Vec<WmAction> = Vec::new();
    let ghost d = wm@;
    let ghost (x, y) = (px as int, py as int);
    let wid: u32 = match wm.top_at(px, py) {
        None => {
            wm.set_focus(None);
            wm.drag = DragState::Idle;
            assert(actions@ =~= d.left_actions(px, py));
            return actions;
        },
        Some(wid) => wid,
    };
    proof {
        lemma_top(d, x, y, 0);
        lemma_get(d, wid);
        lemma_index(d.windows, wid, 0);
        lemma_fronted_wf(d, wid);
        lemma_focus_wf(d.fronted(wid), Some(wid), wid);
    }
    let ghost s = d.fronted(wid).focus_set(Some(wid));
    let ghost win = s.get(wid)->0;
    let changed: bool = !same_id(wm.focused, Some(wid));
    wm.bring_to_front(wid);
    wm.set_focus(Some(wid));
    assert(wm@ == s);
    assert(win == (Win { z: win.z, dirty: win.dirty, ..d.get(wid)->0 }));
    if changed {
        actions.push(WmAction::MarkAll);
    }
    let ghost first = actions@;
    assert(first =~= if d.focused != Some(wid) {
        seq![WmAction::MarkAll]
    } else {
        Seq::empty()
    });
    let k: usize = match wm.position(wid) {
        Some(k) => k,
        None => {
            return actions;
        },
    };
    match wm.windows[k].hit_detail(px, py) {
        HitResult::BtnClose => {
            actions.push(WmAction::Send { wid, event: WindowEvent::Close });
            let mut more = close_window(wm, wid);
            actions.append(&mut more);
            assert(actions@ =~= d.left_actions(px, py));
        },
        HitResult::BtnMin => {
            let ghost f = |w: Win| Win { minimized: !w.minimized, dirty: true, ..w };
            proof {
                lemma_get(s, wid);
                lemma_with_wf(s, wid, f);
            }
            let hidden: bool = !wm.windows[k].minimized;
            wm.windows[k].minimized = hidden;
            wm.windows[k].dirty = true;
            assert(wm.windows@[k as int]@ =~= f(win));
            assert(wm@.windows =~= s.with(wid, f).windows);
            actions.push(WmAction::MarkAll);
            assert(actions@ =~= d.left_actions(px, py));
        },
        HitResult::BtnMax => {
            toggle_max(wm, wid, sw, sh);
            actions.push(WmAction::MarkAll);
            assert(actions@ =~= d.left_actions(px, py));
        },
        HitResult::Resize => {
            wm.drag = DragState::Resizing {
                wid,
                orig_w: wm.windows[k].w,
                orig_h: wm.windows[k].h,
                start_x: px,
                start_y: py,
            };
            assert(actions@ =~= d.left_actions(px, py));
        },
        HitResult::Titlebar => {
            let off_x: i32 = px - wm.windows[k].x;
            let off_y: i32 = py - wm.windows[k].frame_y();
            wm.drag = DragState::Moving { wid, off_x, off_y };
            assert(actions@ =~= d.left_actions(px, py));
        },
        HitResult::Client => {
            actions.push(
                WmAction::Send {
                    wid,
                    event: WindowEvent::MouseButton { x: px, y: py, button: 0, down: true },
                },
            );
            assert(actions@ =~= d.left_actions(px, py));
        },
        _ => {
            assert(actions@ =~= d.left_actions(px, py));
        },
    }
    actions
}

/// Handles the release of the left button: ends a drag, and tells the focused
/// window.
pub fn on_lup(wm: &mut WmState, px: i32, py: i32) -> (r: Vec<WmAction>)
    requires
        old(wm)@.wf(),
    ensures
        final(wm)@.wf(),
        final(wm)@ == (Desk { drag: DragState::Idle, ..old(wm)@ }),
        r@ == old(wm)@.up_actions(px, py),
{
    let mut actions: Vec<WmAction> = Vec::new();
    wm.drag = DragState::Idle;
    if let Some(wid) = wm.focused {
        actions.push(
            WmAction::Send {
                wid,
                event: WindowEvent::MouseButton { x: px, y: py, button: 0, down: false },
            },
        );
    }
    assert(actions@ =~= old(wm)@.up_actions(px, py));
    actions
}

fn hold(v: i32, lo: i32, hi: i32) -> (r: i32)
    requires
        lo <= hi,
    ensures
        r == held(v as int, lo as int, hi as int),
{
    if v < lo {
        lo
    } else if v > hi {
        hi
    } else {
        v
    }
}

/// Moves a window that is being dragged.
fn drag_window(wm: &mut WmState, wid: u32, x: i32, y: i32, sw: usize, sh: usize) -> (r: Vec<
    WmAction,
>)
    requires
        old(wm)@.wf(),
        old(wm)@.get(wid) matches Some(w) ==> !w.maximized ==> {
            &&& sw <= i32::MAX - 64
            &&& 62 <= sh <= i32::MAX
            &&& 120 <= w.w + sw
            &&& sh + w.h + 64 <= i32::MAX
            &&& sw + w.w + 64 <= i32::MAX
        },
    ensures
        final(wm)@.wf(),
        match old(wm)@.get(wid) {
            Some(w) => if w.maximized {
                final(wm)@ == old(wm)@ && r@.len() == 0
            } else {
                &&& final(wm)@ == old(wm)@.with(
                    wid,
                    |w: Win| w.moved_to(x as int, y as int, sw, sh),
                )
                &&& r@ == seq![w.area(), w.moved_to(x as int, y as int, sw, sh).area()]
            },
            None => final(wm)@ == old(wm)@ && r@.len() == 0,
        },
{
    let mut actions: Vec<WmAction> = Vec::new();
    let ghost f = |w: Win| w.moved_to(x as int, y as int, sw, sh);
    proof {
        lemma_get(wm@, wid);
    }
    match wm.position(wid) {
        Some(k) => {
            if !wm.windows[k].maximized {
                let ghost win = wm.windows@[k as int]@;
                proof {
                    assert(f(win).sound());
                    lemma_with_wf(wm@, wid, f);
                }
                actions.push(wm.windows[k].mark());
                let w: u32 = wm.windows[k].w;
                wm.windows[k].x = hold(x, 60 - w as i32, sw as i32 - 60);
                wm.windows[k].y = hold(y, TITLEBAR_H as i32, sh as i32 - 32);
                assert(wm.windows@[k as int]@.sound());
                actions.push(wm.windows[k].mark());
                wm.windows[k].dirty = true;
                assert(wm.windows@[k as int]@ =~= f(win));
                assert(wm@.windows =~= old(wm)@.with(wid, f).windows);
                assert(actions@ =~= seq![win.area(), f(win).area()]);
            }
        },
        None => {},
    }
    actions
}

/// Gives a window another size, not below a least one.
fn stretch_window(wm: &mut WmState, wid: u32, w: i32, h: i32) -> (r: Vec<WmAction>)
    requires
        old(wm)@.wf(),
        old(wm)@.get(wid) matches Some(win) ==> {
            let to = win.sized_to(w as int, h as int, 0);
            sound_place(win.x, win.y, to.w, to.h)
        },
    ensures
        final(wm)@.wf(),
        final(wm)@ == old(wm)@.with(
            wid,
            |win: Win| win.sized_to(w as int, h as int, old(wm)@.window_bg),
        ),
        match old(wm)@.get(wid) {
            Some(win) => r@ == seq![
                win.area(),
                win.sized_to(w as int, h as int, old(wm)@.window_bg).area(),
            ],
            None => r@.len() == 0,
        },
{
    let mut actions: Vec<WmAction> = Vec::new();
    let ghost f = |win: Win| win.sized_to(w as int, h as int, old(wm)@.window_bg);
    proof {
        lemma_get(wm@, wid);
        lemma_with_wf(wm@, wid, f);
    }
    match wm.position(wid) {
        Some(k) => {
            let ghost win = wm.windows@[k as int]@;
            actions.push(wm.windows[k].mark());
            let new_w: u32 = if w < 200 {
                200
            } else {
                w as u32
            };
            let new_h: u32 = if h < 100 {
                100
            } else {
                h as u32
            };
            let bg: u32 = wm.window_bg;
            wm.windows[k].w = new_w;
            wm.windows[k].h = new_h;
            wm.windows[k].pixels.resize((new_w * new_h) as usize, bg);
            wm.windows[k].dirty = true;
            assert(wm.windows@[k as int]@.pixels =~= f(win).pixels);
            assert(wm.windows@[k as int]@ =~= f(win));
            assert(wm@.windows =~= old(wm)@.with(wid, f).windows);
            actions.push(wm.windows[k].mark());
            assert(actions@ =~= seq![win.area(), f(win).area()]);
        },
        None => {},
    }
    actions
}

/// Handles a movement of the mouse: what is being dragged follows; otherwise the
/// hovered window is noted, and the focused one is told.
pub fn on_move(
    wm: &mut WmState,
    px: i32,
    py: i32,
    dx: i16,
    dy: i16,
    sw: usize,
    sh: usize,
) -> (r: Vec<WmAction>)
    requires
        old(wm)@.wf(),
        old(wm)@.can_move(px, py, sw, sh),
    ensures
        final(wm)@.wf(),
        final(wm)@ == old(wm)@.after_move(px, py, sw, sh),
        r@ == old(wm)@.move_actions(px, py, dx, dy, sw, sh),
{
    let ghost d = wm@;
    match wm.drag {
        DragState::Moving { wid, off_x, off_y } => {
            let movable: bool = match wm.position(wid) {
                Some(k) => !wm.windows[k].maximized,
                None => false,
            };
            if !movable {
                let none: Vec<WmAction> = Vec::new();
                assert(none@ =~= d.move_actions(px, py, dx, dy, sw, sh));
                return none;
            }
            let ghost f = |w: Win| w.moved_to(px - off_x, py - off_y + 30, sw, sh);
            let new_x: i32 = px - off_x;
            let new_y: i32 = py - off_y + TITLEBAR_H as i32;
            let actions = drag_window(wm, wid, new_x, new_y, sw, sh);
            assert(actions@ =~= d.move_actions(px, py, dx, dy, sw, sh));
            assert(d.with(wid, f) =~= d.with(
                wid,
                |w: Win| w.moved_to(new_x as int, new_y as int, sw, sh),
            ));
            actions
        },
        DragState::Resizing { wid, orig_w, orig_h, start_x, start_y } => {
            let present: bool = match wm.position(wid) {
                Some(_) => true,
                None => false,
            };
            if !present {
                let none: Vec<WmAction> = Vec::new();
                assert(none@ =~= d.move_actions(px, py, dx, dy, sw, sh));
                return none;
            }
            let w: i32 = orig_w as i32 + px - start_x;
            let h: i32 = orig_h as i32 + py - start_y;
            let actions = stretch_window(wm, wid, w, h);
            assert(actions@ =~= d.move_actions(px, py, dx, dy, sw, sh));
            assert(d.after_move(px, py, sw, sh) =~= d.with(
                wid,
                |win: Win| win.sized_to(w as int, h as int, d.window_bg),
            ));
            actions
        },
        DragState::Idle => {
            let mut actions: Vec<WmAction> = Vec::new();
            wm.hovered = wm.top_at(px, py);
            if let Some(wid) = wm.focused {
                match wm.position(wid) {
                    Some(k) => {
                        if wm.windows[k].hit_client(px, py) {
                            actions.push(
                                WmAction::Send {
                                    wid,
                                    event: WindowEvent::MouseMove { x: px, y: py, dx, dy },
                                },
                            );
                        }
                    },
                    None => {},
                }
            }
            assert(actions@ =~= d.move_actions(px, py, dx, dy, sw, sh));
            actions
        },
    }
}

/// Handles a right click: tells the window under the mouse.
pub fn on_rdown(wm: &WmState, px: i32, py: i32) -> (r: Vec<WmAction>)
    ensures
        r@ == wm@.right_actions(px, py),
{
    let mut actions: Vec<WmAction> = Vec::new();
    if let Some(wid) = wm.top_at(px, py) {
        actions.push(
            WmAction::Send {
                wid,
                event: WindowEvent::MouseButton { x: px, y: py, button: 1, down: true },
            },
        );
    }
    assert(actions@ =~= wm@.right_actions(px, py));
    actions
}

/// The code of a key; 0 for one without a code.
pub open spec fn spec_key_code(key: Key) -> u32 {
    match key {
        Key::Char(c) => c as u32,
        Key::Enter => 0x0D,
        Key::Backspace => 0x08,
        Key::Escape => 0x1B,
        Key::Tab => 0x09,
        Key::Left => 0x25,
        Key::Right => 0x27,
        Key::Up => 0x26,
        Key::Down => 0x28,
        Key::Home => 0x24,
        Key::End => 0x23,
        Key::Delete => 0x2E,
        Key::F1 => 0x70,
        Key::F2 => 0x71,
        Key::F3 => 0x72,
        Key::F4 => 0x73,
        Key::F5 => 0x74,
        Key::F11 => 0x7A,
        _ => 0,
    }
}

pub fn key_code(key: Key) -> (r: u32)
    ensures
        r == spec_key_code(key),
{
    match key {
        Key::Char(c) => c as u32,
        Key::Enter => 0x0D,
        Key::Backspace => 0x08,
        Key::Escape => 0x1B,
        Key::Tab => 0x09,
        Key::Left => 0x25,
        Key::Right => 0x27,
        Key::Up => 0x26,
        Key::Down => 0x28,
        Key::Home => 0x24,
        Key::End => 0x23,
        Key::Delete => 0x2E,
        Key::F1 => 0x70,
        Key::F2 => 0x71,
        Key::F3 => 0x72,
        Key::F4 => 0x73,
        Key::F5 => 0x74,
        Key::F11 => 0x7A,
        _ => 0,
    }
}

/// The low eight bits of a character, 0 where there is none.
pub open spec fn ascii_of(ch: Option<char>) -> u8 {
    match ch {
        Some(c) => (c as u32 % 256) as u8,
        None => 0,
    }
}

/// Handles a key: tells the focused window, and no other.
pub fn on_key(wm: &WmState, key: Key, ch: Option<char>, mods: Mods) -> (r: Vec<WmAction>)
    ensures
        r@ == wm@.key_actions(key, ch),
{
    let mut actions: Vec<WmAction> = Vec::new();
    if let Some(wid) = wm.focused {
        let ascii: u8 = match ch {
            Some(c) => (c as u32 % 256) as u8,
            None => 0,
        };
        actions.push(
            WmAction::Send {
                wid,
                event: WindowEvent::Key { keycode: key_code(key), ascii, down: true },
            },
        );
    }
    assert(actions@ =~= wm@.key_actions(key, ch));
    actions
}

/// The event can be handled: see what the handlers ask for.
pub open spec fn can_handle(d: Desk, ev: GuiEvent, sw: usize, sh: usize) -> bool {
    match ev {
        GuiEvent::MouseDown { x, y, button: MouseBtn::Left } => {
            &&& d.z_order.len() < u32::MAX
            &&& d.enlarges(x, y) ==> Desk::screen_ok(sw, sh)
        },
        GuiEvent::MouseMove { x, y, dx, dy } => d.can_move(x, y, sw, sh),
        GuiEvent::AppDraw { wid, x, y, w, h, pixels } => {
            &&& d.get(wid) matches Some(win) ==> (win.h + 1) * win.w + 0xFFFF <= usize::MAX
            &&& h * w + w <= usize::MAX
        },
        _ => true,
    }
}

/// The state after an event.
pub open spec fn handled(d: Desk, ev: GuiEvent, sw: usize, sh: usize) -> Desk {
    match ev {
        GuiEvent::MouseDown { x, y, button: MouseBtn::Left } => d.after_left(x, y, sw, sh),
        GuiEvent::MouseUp { x, y, button: MouseBtn::Left } => Desk { drag: DragState::Idle, ..d },
        GuiEvent::MouseMove { x, y, dx, dy } => d.after_move(x, y, sw, sh),
        GuiEvent::AppDraw { wid, x, y, w, h, pixels } => d.with(
            wid,
            |win: Win| updated(win, x as int, y as int, w as int, h as int, pixels@),
        ),
        GuiEvent::AppTitle { wid, title } => d.with(
            wid,
            |w: Win| Win { title: title@, dirty: true, ..w },
        ),
        GuiEvent::AppClose { wid } => d.closed(wid),
        _ => d,
    }
}

/// What an event leads to.
pub open spec fn actions_of(d: Desk, ev: GuiEvent, sw: usize, sh: usize) -> Seq<WmAction> {
    match ev {
        GuiEvent::MouseDown { x, y, button: MouseBtn::Left } => d.left_actions(x, y),
        GuiEvent::MouseDown { x, y, button: MouseBtn::Right } => d.right_actions(x, y),
        GuiEvent::MouseUp { x, y, button: MouseBtn::Left } => d.up_actions(x, y),
        GuiEvent::MouseMove { x, y, dx, dy } => d.move_actions(x, y, dx, dy, sw, sh),
        GuiEvent::KeyDown { key, ch, mods } => d.key_actions(key, ch),
        GuiEvent::AppDraw { wid, x, y, w, h, pixels } => d.client_area(wid),
        GuiEvent::AppTitle { wid, title } => d.title_area(wid),
        GuiEvent::AppClose { wid } => d.close_actions(wid),
        _ => Seq::empty(),
    }
}

fn nothing() -> (r: Vec<WmAction>)
    ensures
        r@ == Seq::<WmAction>::empty(),
{
    Vec::new()
}

/// Handles an event; returns what is to be done.
pub fn dispatch_event(wm: &mut WmState, ev: GuiEvent, sw: usize, sh: usize) -> (r: Vec<WmAction>)
    requires
        old(wm)@.wf(),
        can_handle(old(wm)@, ev, sw, sh),
    ensures
        final(wm)@.wf(),
        final(wm)@ == handled(old(wm)@, ev, sw, sh),
        r@ == actions_of(old(wm)@, ev, sw, sh),
{
    match ev {
        GuiEvent::MouseDown { x, y, button } => match button {
            MouseBtn::Left => on_ldown(wm, x, y, sw, sh),
            MouseBtn::Right => on_rdown(wm, x, y),
            MouseBtn::Middle => nothing(),
        },
        GuiEvent::MouseUp { x, y, button } => match button {
            MouseBtn::Left => on_lup(wm, x, y),
            _ => nothing(),
        },
        GuiEvent::MouseMove { x, y, dx, dy } => on_move(wm, x, y, dx, dy, sw, sh),
        GuiEvent::KeyDown { key, ch, mods } => on_key(wm, key, ch, mods),
        GuiEvent::KeyUp { key, mods } => nothing(),
        GuiEvent::AppDraw { wid, x, y, w, h, pixels } => update_pixels(
            wm,
            wid,
            x,
            y,
            w,
            h,
            &pixels,
        ),
        GuiEvent::AppTitle { wid, title } => set_title(wm, wid, title),
        GuiEvent::AppClose { wid } => close_window(wm, wid),
    }
}

// ---------------------------------------------------------------------------
// Snapping, minimising, focus
// ---------------------------------------------------------------------------

/// The screen and the bars around the area for windows, in pixels.
#[derive(Debug, Clone, Copy, PartialEq, Eq)]
pub struct ShellLayout {
    pub screen_w: i32,
    pub screen_h: i32,
    pub topbar_h: i32,
    pub sidebar_w: i32,
    pub taskbar_h: i32,
}

impl ShellLayout {
    /// Sizes of a real screen: bars and screen are not negative, and small enough
    /// to be added up.
    pub open spec fn wf(self) -> bool {
        &&& 0 <= self.screen_w <= 0x1000_0000
        &&& 0 <= self.screen_h <= 0x1000_0000
        &&& 0 <= self.topbar_h <= 0x1000_0000
        &&& 0 <= self.sidebar_w <= 0x1000_0000
        &&& 0 <= self.taskbar_h <= 0x1000_0000
    }

    /// The bars leave room on a screen of at most 0xF000 pixels either way.
    pub open spec fn roomy(self) -> bool {
        &&& self.sidebar_w <= self.screen_w <= 0xF000
        &&& self.topbar_h <= self.screen_h <= 0xF000
    }

    /// Width of the area for windows.
    pub open spec fn area_w(self) -> int {
        self.screen_w - self.sidebar_w
    }

    /// Height of the area for windows.
    pub open spec fn area_h(self) -> int {
        self.screen_h - self.taskbar_h - self.topbar_h
    }
}

/// Half of a number, rounded towards 0.
pub open spec fn half(n: int) -> int {
    if n < 0 {
        -((-n) / 2)
    } else {
        n / 2
    }
}

/// The unsigned number with the low 32 bits of `n`.
pub open spec fn unsigned32(n: int) -> u32 {
    if n < 0 {
        (n + 0x1_0000_0000) as u32
    } else {
        n as u32
    }
}

pub open spec fn at_least(n: int, least: int) -> int {
    if n < least {
        least
    } else {
        n
    }
}

/// A window snapped to the edge that it is near to: to the left or the right half
/// of the area for windows, or, at the top, to all of it.
pub open spec fn snapped(w: Win, l: ShellLayout) -> Win {
    let y = (l.topbar_h + 31) as i32;
    let h = at_least(l.area_h() - 32, 100) as u32;
    if w.left() <= l.sidebar_w + SNAP_THRESHOLD {
        Win {
            x: (l.sidebar_w + 1) as i32,
            y,
            w: unsigned32(half(l.area_w())),
            h,
            ..w
        }
    } else if w.left() + w.frame_width() >= l.screen_w - SNAP_THRESHOLD {
        Win {
            x: (l.sidebar_w + half(l.area_w()) + 1) as i32,
            y,
            w: unsigned32(half(l.area_w())),
            h,
            ..w
        }
    } else if w.top() <= l.topbar_h + SNAP_THRESHOLD {
        Win {
            x: (l.sidebar_w + 1) as i32,
            y,
            w: at_least(l.area_w() - 2, 200) as u32,
            h,
            ..w
        }
    } else {
        w
    }
}

/// Snaps a window to the edge that it is near to.
pub fn snap_to_edge(wm: &mut WmState, wid: u32, l: &ShellLayout)
    requires
        old(wm)@.wf(),
        l.wf(),
    ensures
        final(wm)@ == old(wm)@.with(wid, |w: Win| snapped(w, *l)),
        l.roomy() ==> final(wm)@.wf(),
{
    let k: usize = match wm.position(wid) {
        Some(k) => k,
        None => {
            return;
        },
    };
    let ghost win = wm.windows@[k as int]@;
    let ghost f = |w: Win| snapped(w, *l);
    proof {
        lemma_get(wm@, wid);
    }
    let fx: i32 = wm.windows[k].frame_x();
    let fy: i32 = wm.windows[k].frame_y();
    let fw: i32 = wm.windows[k].frame_w() as i32;
    let cx0: i32 = l.sidebar_w;
    let cy0: i32 = l.topbar_h;
    let cx1: i32 = l.screen_w;
    let cw: i32 = cx1 - cx0;
    let ch: i32 = l.screen_h - l.taskbar_h - cy0;
    let half_w: i32 = if cw < 0 {
        -((-cw) / 2)
    } else {
        cw / 2
    };
    let y: i32 = cy0 + 31;
    let h: u32 = if ch - 32 < 100 {
        100
    } else {
        (ch - 32) as u32
    };
    let w_half: u32 = if half_w < 0 {
        (half_w as i64 + 0x1_0000_0000) as u32
    } else {
        half_w as u32
    };
    if fx <= cx0 + SNAP_THRESHOLD {
        wm.windows[k].x = cx0 + 1;
        wm.windows[k].y = y;
        wm.windows[k].w = w_half;
        wm.windows[k].h = h;
    } else if fx as i64 + fw as i64 >= cx1 as i64 - SNAP_THRESHOLD as i64 {
        wm.windows[k].x = cx0 + half_w + 1;
        wm.windows[k].y = y;
        wm.windows[k].w = w_half;
        wm.windows[k].h = h;
    } else if fy <= cy0 + SNAP_THRESHOLD {
        wm.windows[k].x = cx0 + 1;
        wm.windows[k].y = y;
        wm.windows[k].w = if cw - 2 < 200 {
            200
        } else {
            (cw - 2) as u32
        };
        wm.windows[k].h = h;
    }
    assert(wm.windows@[k as int]@ =~= f(win));
    assert(wm@.windows =~= old(wm)@.with(wid, f).windows);
    proof {
        if l.roomy() {
            let s = f(win);
            assert(s.w * s.h <= u32::MAX || s == win) by (nonlinear_arith)
                requires
                    s == win || s.w <= 0xF000 && s.h <= 0xF000,
            ;
            lemma_with_wf(old(wm)@, wid, f);
        }
    }
}

/// Which edge a frame at that place would snap to.
pub fn snap_zone(fx: i32, fy: i32, l: &ShellLayout) -> (r: Option<&'static str>)
    requires
        l.wf(),
        fx <= i32::MAX - 400,
    ensures
        if fx <= l.sidebar_w + SNAP_THRESHOLD {
            r matches Some(s) && s@ == "left"@
        } else if fx + 400 >= l.screen_w - SNAP_THRESHOLD {
            r matches Some(s) && s@ == "right"@
        } else if fy <= l.topbar_h + SNAP_THRESHOLD {
            r matches Some(s) && s@ == "maximize"@
        } else {
            r is None
        },
{
    if fx <= l.sidebar_w + SNAP_THRESHOLD {
        return Some("left");
    }
    if fx + 400 >= l.screen_w - SNAP_THRESHOLD {
        return Some("right");
    }
    if fy <= l.topbar_h + SNAP_THRESHOLD {
        return Some("maximize");
    }
    None
}

/// Hides a window.
pub fn minimize_window(wm: &mut WmState, wid: u32)
    requires
        old(wm)@.wf(),
    ensures
        final(wm)@.wf(),
        final(wm)@ == old(wm)@.with(wid, |w: Win| Win { minimized: true, visible: false, ..w }),
{
    let ghost f = |w: Win| Win { minimized: true, visible: false, ..w };
    proof {
        lemma_get(wm@, wid);
        lemma_with_wf(wm@, wid, f);
    }
    match wm.position(wid) {
        Some(k) => {
            let ghost win = wm.windows@[k as int]@;
            wm.windows[k].minimized = true;
            wm.windows[k].visible = false;
            assert(wm.windows@[k as int]@ =~= f(win));
            assert(wm@.windows =~= old(wm)@.with(wid, f).windows);
        },
        None => {},
    }
}

/// Shows a hidden window again, at the front and with the focus.
pub fn restore_window(wm: &mut WmState, wid: u32)
    requires
        old(wm)@.wf(),
        old(wm).z_order@.len() < u32::MAX,
    ensures
        final(wm)@.wf(),
        final(wm)@ == old(wm)@.with(
            wid,
            |w: Win| Win { minimized: false, visible: true, ..w },
        ).fronted(wid).focus_set(Some(wid)),
{
    let ghost f = |w: Win| Win { minimized: false, visible: true, ..w };
    proof {
        lemma_get(wm@, wid);
        lemma_with_wf(wm@, wid, f);
    }
    match wm.position(wid) {
        Some(k) => {
            let ghost win = wm.windows@[k as int]@;
            wm.windows[k].minimized = false;
            wm.windows[k].visible = true;
            assert(wm.windows@[k as int]@ =~= f(win));
            assert(wm@.windows =~= old(wm)@.with(wid, f).windows);
        },
        None => {},
    }
    wm.bring_to_front(wid);
    wm.set_focus(Some(wid));
}

/// Gives the focus to the topmost window at a point; where there is none, it stays.
pub fn focus_under_cursor(wm: &mut WmState, mx: i32, my: i32)
    requires
        old(wm)@.wf(),
    ensures
        final(wm)@.wf(),
        final(wm)@ == (match old(wm)@.top_from(mx as int, my as int, 0) {
            Some(wid) => old(wm)@.focus_set(Some(wid)),
            None => old(wm)@,
        }),
{
    match wm.top_at(mx, my) {
        Some(wid) => {
            wm.set_focus(Some(wid));
        },
        None => {},
    }
}

/// Passes the focus to the next window in the order of their numbers, and from the
/// last to the first.
pub fn focus_next_window(wm: &mut WmState)
    requires
        old(wm)@.wf(),
    ensures
        final(wm)@.wf(),
        final(wm)@ == ({
            let d = old(wm)@;
            let n = d.windows.len() as int;
            let at = match d.focused {
                Some(id) => match index_from(d.windows, id, 0) {
                    Some(i) => i,
                    None => 0,
                },
                None => 0,
            };
            if n == 0 {
                d
            } else {
                Desk { focused: Some(d.windows[(at + 1) % n].id), ..d }
            }
        }),
{
    let n: usize = wm.windows.len();
    if n == 0 {
        return;
    }
    let at: usize = match wm.focused {
        Some(id) => match wm.position(id) {
            Some(i) => i,
            None => 0,
        },
        None => 0,
    };
    let next: usize = if at + 1 == n {
        0
    } else {
        at + 1
    };
    assert(next == (at + 1) % n as int) by (nonlinear_arith)
        requires
            at < n,
            next == (if at + 1 == n {
                0
            } else {
                at + 1
            }),
    ;
    wm.focused = Some(wm.windows[next].id);
}

// ---------------------------------------------------------------------------
// Laws
// ---------------------------------------------------------------------------

/// A click on a window gives it the keyboard and brings it to the front, unless
/// the click closes it; a click on the desktop takes the keyboard from whoever
/// has it.
pub proof fn law_click_focuses(d: Desk, px: i32, py: i32, sw: usize, sh: usize)
    requires
        d.wf(),
    ensures
        match d.top_from(px as int, py as int, 0) {
            Some(wid) => {
                let after = d.after_left(px, py, sw, sh);
                d.get(wid)->0.hit(px as int, py as int) != HitResult::BtnClose ==> after.focused
                    == Some(wid) && after.z_order.len() > 0 && after.z_order[0] == wid
            },
            None => d.after_left(px, py, sw, sh).focused is None,
        },
{
    let (x, y) = (px as int, py as int);
    lemma_top(d, x, y, 0);
    match d.top_from(x, y, 0) {
        Some(wid) => {
            lemma_get(d, wid);
            lemma_fronted_wf(d, wid);
            lemma_focus_wf(d.fronted(wid), Some(wid), wid);
            let s = d.fronted(wid).focus_set(Some(wid));
            assert(s.get(wid)->0.hit(x, y) == d.get(wid)->0.hit(x, y));
        },
        None => {
            lemma_focus_wf(d, None, 0);
        },
    }
}

/// Moving the mouse changes neither the keyboard focus nor the order of the
/// windows.
pub proof fn law_hover_keeps_focus(d: Desk, px: i32, py: i32, sw: usize, sh: usize)
    ensures
        d.after_move(px, py, sw, sh).focused == d.focused,
        d.after_move(px, py, sw, sh).z_order == d.z_order,
{
}

/// A closed window is nowhere: not among the windows, not in the order, neither
/// focused nor hovered.
pub proof fn law_closed_window_is_gone(d: Desk, wid: u32)
    requires
        d.wf(),
    ensures
        d.closed(wid).get(wid) is None,
        !d.closed(wid).z_order.contains(wid),
        d.closed(wid).focused != Some(wid),
        d.closed(wid).hovered != Some(wid),
{
    lemma_closed_wf(d, wid);
    lemma_without(d.z_order, wid);
    let order = without(d.z_order, wid);
    if order.len() > 0 {
        assert(order.contains(order[0]));
    }
}

proof fn lemma_without(ids: Seq<u32>, id: u32)
    ensures
        !without(ids, id).contains(id),
    decreases ids.len(),
{
    if ids.len() > 0 {
        lemma_without(ids.drop_last(), id);
        let w = without(ids.drop_last(), id);
        if ids.last() != id {
            assert forall|i: int| 0 <= i < w.push(ids.last()).len() implies w.push(ids.last())[i]
                != id by {
                if i < w.len() {
                    assert(w.contains(w[i]));
                }
            }
        }
    }
}

/// What a point hits inside a window is decided in a fixed order: the buttons to close,
/// to hide and to enlarge come first, then the corner to resize, the title bar and the
/// contents; and a point of the frame always hits something.
pub proof fn law_hits_are_ordered(w: Win, px: int, py: int)
    requires
        w.visible,
        !w.minimized,
    ensures
        w.on_frame(px, py) <==> w.hit(px, py) != HitResult::Nothing,
        w.on_frame(px, py) ==> ({
            let close = on_button(w.close_at(), px, py);
            let min = on_button(w.min_at(), px, py);
            let max = on_button(w.max_at(), px, py);
            let corner = w.on_resize(px, py);
            let bar = w.on_titlebar(px, py);
            let hit = w.hit(px, py);
            &&& close ==> hit == HitResult::BtnClose
            &&& !close && min ==> hit == HitResult::BtnMin
            &&& !close && !min && max ==> hit == HitResult::BtnMax
            &&& !close && !min && !max && corner ==> hit == HitResult::Resize
            &&& hit == HitResult::Titlebar <==> !close && !min && !max && !corner && bar
            &&& hit == HitResult::Client ==> !close && !min && !max && !corner && !bar
        }),
{
}

/// A drag starts where a window is grasped: at its title bar it is moved, at its corner
/// it is resized. No other click on a window that stays starts one, and a click on the
/// desktop ends it.
pub proof fn law_drag_starts_at_the_grip(d: Desk, px: i32, py: i32, sw: usize, sh: usize)
    requires
        d.wf(),
    ensures
        ({
            let after = d.after_left(px, py, sw, sh);
            match d.top_from(px as int, py as int, 0) {
                Some(wid) => match d.get(wid)->0.hit(px as int, py as int) {
                    HitResult::Titlebar => after.drag matches DragState::Moving { wid: w, .. } && w
                        == wid,
                    HitResult::Resize => after.drag matches DragState::Resizing { wid: w, .. } && w
                        == wid,
                    HitResult::BtnClose => true,
                    _ => after.drag == d.drag,
                },
                None => after.drag == DragState::Idle,
            }
        }),
{
    let (x, y) = (px as int, py as int);
    lemma_top(d, x, y, 0);
    match d.top_from(x, y, 0) {
        Some(wid) => {
            lemma_get(d, wid);
            lemma_fronted_wf(d, wid);
            lemma_focus_wf(d.fronted(wid), Some(wid), wid);
            let s = d.fronted(wid).focus_set(Some(wid));
            assert(s.get(wid)->0.hit(x, y) == d.get(wid)->0.hit(x, y));
        },
        None => {},
    }
}

/// Keys go to the window that has the keyboard, and to no other.
pub proof fn law_keys_go_to_the_focused(d: Desk, key: Key, ch: Option<char>, i: int)
    requires
        0 <= i < d.key_actions(key, ch).len(),
    ensures
        d.key_actions(key, ch)[i] matches WmAction::Send { wid, .. } && d.focused == Some(wid),
{
}

proof fn lemma_without_absent(ids: Seq<u32>, id: u32)
    requires
        !ids.contains(id),
    ensures
        without(ids, id) == ids,
    decreases ids.len(),
{
    if ids.len() > 0 {
        assert forall|i: int| 0 <= i < ids.len() - 1 implies ids.drop_last()[i] != id by {
            assert(ids.contains(ids[i]));
        }
        assert(ids.contains(ids[ids.len() - 1]));
        lemma_without_absent(ids.drop_last(), id);
        assert(ids.drop_last().push(ids.last()) =~= ids);
    }
}

/// Leaving out a number that is there once takes it from its place.
proof fn lemma_without_once(ids: Seq<u32>, id: u32, k: int)
    requires
        ids.no_duplicates(),
        0 <= k < ids.len(),
        ids[k] == id,
    ensures
        without(ids, id) == ids.remove(k),
    decreases ids.len(),
{
    let last = ids.len() - 1;
    if k == last {
        assert forall|i: int| 0 <= i < last implies ids.drop_last()[i] != id by {}
        lemma_without_absent(ids.drop_last(), id);
        assert(ids.remove(k) =~= ids.drop_last());
    } else {
        assert(ids[last] != id);
        assert(ids.drop_last().no_duplicates());
        lemma_without_once(ids.drop_last(), id, k);
        assert(ids.remove(k) =~= ids.drop_last().remove(k).push(ids.last()));
    }
}

proof fn lemma_last_below(ids: Seq<u32>, id: u32, n: int)
    requires
        0 <= n <= ids.len(),
        ids.no_duplicates(),
    ensures
        forall|i: int| 0 <= i < n && ids[i] == id ==> last_below(ids, id, n) == Some(i),
    decreases n,
{
    if n > 0 {
        lemma_last_below(ids, id, n - 1);
        assert forall|i: int| 0 <= i < n && ids[i] == id implies last_below(ids, id, n)
            == Some(i) by {
            if i < n - 1 {
                assert(ids[n - 1] != id);
            }
        }
    }
}

/// A window that is brought to the front stands before all others, which keep their
/// order. The order holds the same windows as before, each once, and layers fall
/// strictly from the front to the back. Nothing else changes, and bringing the window
/// to the front again changes nothing.
pub proof fn law_front_keeps_the_order(d: Desk, wid: u32)
    requires
        d.wf(),
        d.z_order.no_duplicates(),
        d.z_order.contains(wid),
        d.z_order.len() <= u32::MAX,
    ensures
        ({
            let e = d.fronted(wid);
            let n = d.z_order.len() as int;
            &&& e.z_order == seq![wid] + d.z_order.remove(d.z_order.index_of(wid))
            &&& e.z_order.len() == n
            &&& e.z_order.no_duplicates()
            &&& e.z_order.to_multiset() == d.z_order.to_multiset()
            &&& forall|i: int|
                0 <= i < n ==> (e.get(#[trigger] e.z_order[i]) matches Some(w) ==> w.z == n - i)
            &&& forall|id: u32| #[trigger]
                e.get(id) == (match d.get(id) {
                    Some(w) => Some(Win { z: e.get(id)->0.z, ..w }),
                    None => None,
                })
            &&& e == (Desk { windows: e.windows, z_order: e.z_order, ..d })
            &&& e.fronted(wid) == e
        }),
{
    broadcast use vstd::seq_lib::group_to_multiset_ensures;

    let e = d.fronted(wid);
    let order = e.z_order;
    let n = d.z_order.len() as int;
    let k = d.z_order.index_of(wid);
    let rest = d.z_order.remove(k);
    lemma_without_once(d.z_order, wid, k);
    assert(order == seq![wid] + rest);
    assert forall|i: int, j: int| 0 <= i < n && 0 <= j < n && i != j implies order[i]
        != order[j] by {
        if i > 0 {
            assert(order[i] == rest[i - 1]);
        }
        if j > 0 {
            assert(order[j] == rest[j - 1]);
        }
    }
    assert(order.to_multiset() == d.z_order.to_multiset()) by {
        assert(order.remove(0) =~= rest);
        let a = order.to_multiset();
        let b = d.z_order.to_multiset();
        assert(order[0] == wid);
        assert(order.contains(order[0]));
        vstd::seq_lib::to_multiset_remove(order, 0);
        vstd::seq_lib::to_multiset_remove(d.z_order, k);
        assert(a.remove(wid) == b.remove(wid));
        assert(a =~= a.remove(wid).insert(wid));
        assert(b =~= b.remove(wid).insert(wid));
    }
    assert forall|id: u32| #[trigger]
        e.get(id) == (match d.get(id) {
            Some(w) => Some(Win { z: e.get(id)->0.z, ..w }),
            None => None,
        }) by {
        lemma_ranked(d, order, n, id);
        lemma_index(d.windows, id, 0);
    }
    assert forall|i: int| 0 <= i < n implies (e.get(#[trigger] order[i]) matches Some(w) ==> w.z
        == n - i) by {
        let id = order[i];
        lemma_ranked(d, order, n, id);
        lemma_index(d.windows, id, 0);
        lemma_last_below(order, id, n);
    }
    lemma_without_once(order, wid, 0);
    assert(order.remove(0) =~= rest);
    assert(e.fronted(wid).z_order =~= order);
    assert(e.fronted(wid).windows =~= e.windows) by {
        assert forall|i: int| 0 <= i < e.windows.len() implies e.fronted(wid).windows[i]
            == e.windows[i] by {
            assert(e.windows[i].id == d.windows[i].id);
        }
    }
}

/// A window of the desktop is found by its id.
proof fn lemma_found(d: Desk, k: int)
    requires
        d.wf(),
        0 <= k < d.windows.len(),
    ensures
        index_from(d.windows, d.windows[k].id, 0) == Some(k),
        d.get(d.windows[k].id) == Some(d.windows[k]),
        d.windows[k].sound(),
{
    lemma_index(d.windows, d.windows[k].id, 0);
}

/// While a window is resized from a size that it had when the mouse grasped it, moving
/// the mouse makes it wider and higher by as much as the mouse is away from where it
/// grasped, down to the least size of 200 by 100. So moving the mouse back gives the size
/// back. The picture keeps what it had and goes on in the background colour; place, title
/// and layer stay, and no other window changes.
pub proof fn law_window_is_resized_with_the_mouse(
    wm: &mut WmState,
    px: i32,
    py: i32,
    dx: i16,
    dy: i16,
    sw: usize,
    sh: usize,
    r: Vec<WmAction>,
    k: int,
    j: int,
    w0: u32,
    h0: u32,
    sx: i32,
    sy: i32,
)
    requires
        old(wm)@.wf(),
        old(wm)@.can_move(px, py, sw, sh),
        0 <= k < old(wm)@.windows.len(),
        old(wm)@.drag == (DragState::Resizing {
            wid: old(wm)@.windows[k].id,
            orig_w: w0,
            orig_h: h0,
            start_x: sx,
            start_y: sy,
        }),
        call_ensures(on_move, (wm, px, py, dx, dy, sw, sh), r),
    ensures
        ({
            let was = old(wm)@.windows[k];
            let now = final(wm)@.windows[k];
            let w = w0 + px - sx;
            let h = h0 + py - sy;
            &&& w >= 200 ==> now.w == w
            &&& w < 200 ==> now.w == 200
            &&& h >= 100 ==> now.h == h
            &&& h < 100 ==> now.h == 100
            &&& px == sx && w0 >= 200 ==> now.w == w0
            &&& py == sy && h0 >= 100 ==> now.h == h0
            &&& now.pixels.len() == now.w * now.h
            &&& 0 <= j < now.pixels.len() ==> now.pixels[j] == (if j < was.pixels.len() {
                was.pixels[j]
            } else {
                old(wm)@.window_bg
            })
            &&& now.x == was.x && now.y == was.y && now.z == was.z && now.id == was.id
            &&& now.title == was.title && now.maximized == was.maximized
            &&& now.dirty
            &&& 0 <= j < old(wm)@.windows.len() && j != k ==> final(wm)@.windows[j] == old(
                wm)@.windows[j]
            &&& final(wm)@.drag == old(wm)@.drag
            &&& final(wm)@.focused == old(wm)@.focused
            &&& r@.len() == 2
            &&& covers(r@[0], was)
            &&& covers(r@[1], now)
        }),
{
    let d = old(wm)@;
    lemma_found(d, k);
    let w = w0 + px - sx;
    let h = h0 + py - sy;
    let nw: int = if w < 200 {
        200
    } else {
        w
    };
    let nh: int = if h < 100 {
        100
    } else {
        h
    };
    assert(nw * nh >= 0) by (nonlinear_arith)
        requires
            nw >= 0,
            nh >= 0,
    ;
    let now = final(wm)@.windows[k];
    assert(now == d.windows[k].sized_to(w, h, d.window_bg));
    assert(now.w == nw && now.h == nh);
}

/// What is marked holds the frame of a window with a shadow of four pixels round it, as
/// far as it is not left of the screen or above it.
pub open spec fn covers(a: WmAction, win: Win) -> bool {
    &&& a is MarkDirty
    &&& a->MarkDirty_w == win.w + 10
    &&& a->MarkDirty_h == win.h + 40
    &&& a->MarkDirty_x == (if win.x >= 5 {
        win.x - 5
    } else {
        0
    })
    &&& a->MarkDirty_y == (if win.y >= 35 {
        win.y - 35
    } else {
        0
    })
}

/// While a window is moved, it follows the mouse: its left edge stays as far from the
/// mouse as where it was grasped, and so does its top, as far as 60 pixels of its title
/// stay on the screen between the bars. A window that fills the screen does not move. Its
/// size and its picture stay, and no other window changes.
pub proof fn law_window_follows_the_mouse(
    wm: &mut WmState,
    px: i32,
    py: i32,
    dx: i16,
    dy: i16,
    sw: usize,
    sh: usize,
    r: Vec<WmAction>,
    k: int,
    j: int,
    off_x: i32,
    off_y: i32,
)
    requires
        old(wm)@.wf(),
        old(wm)@.can_move(px, py, sw, sh),
        0 <= k < old(wm)@.windows.len(),
        old(wm)@.drag == (DragState::Moving { wid: old(wm)@.windows[k].id, off_x, off_y }),
        call_ensures(on_move, (wm, px, py, dx, dy, sw, sh), r),
    ensures
        ({
            let was = old(wm)@.windows[k];
            let now = final(wm)@.windows[k];
            let x = px - off_x;
            let y = py - off_y + 30;
            &&& was.maximized ==> final(wm)@ == old(wm)@ && r@.len() == 0
            &&& !was.maximized ==> {
                &&& 60 - was.w <= x <= sw - 60 ==> now.x == x
                &&& x < 60 - was.w ==> now.x + now.w == 60
                &&& x > sw - 60 && x >= 60 - was.w ==> now.x == sw - 60
                &&& 30 <= y <= sh - 32 ==> now.y == y
                &&& y < 30 ==> now.y == 30
                &&& y > sh - 32 ==> now.y == sh - 32
                &&& now.dirty
                &&& r@.len() == 2
                &&& covers(r@[0], was)
                &&& covers(r@[1], now)
            }
            &&& now.w == was.w && now.h == was.h && now.z == was.z && now.id == was.id
            &&& now.title == was.title && now.pixels == was.pixels
            &&& 0 <= j < old(wm)@.windows.len() && j != k ==> final(wm)@.windows[j] == old(
                wm)@.windows[j]
            &&& final(wm)@.drag == old(wm)@.drag
            &&& final(wm)@.focused == old(wm)@.focused
        }),
{
    lemma_found(old(wm)@, k);
}

/// What the mouse grasps by pressing at a point is what it is told to drag. At the title
/// bar it is the window that is moved, by the distance of the point from the window's left
/// edge and from the top of its frame; so moving it on from there by some pixels to the
/// side moves the window by as many. At the corner it is the window's size, from the point
/// on.
pub proof fn law_grip_is_where_the_mouse_was_pressed(
    wm: &mut WmState,
    px: i32,
    py: i32,
    sw: usize,
    sh: usize,
    r: Vec<WmAction>,
    k: int,
)
    requires
        old(wm)@.wf(),
        0 <= k < old(wm)@.windows.len(),
        old(wm)@.top_from(px as int, py as int, 0) == Some(old(wm)@.windows[k].id),
        call_ensures(on_ldown, (wm, px, py, sw, sh), r),
    ensures
        ({
            let win = old(wm)@.windows[k];
            let id = win.id;
            match win.hit(px as int, py as int) {
                HitResult::Titlebar => {
                    &&& final(wm)@.drag matches DragState::Moving { wid, off_x, off_y } && wid == id
                        && win.x + off_x == px && win.y - 31 + off_y == py
                },
                HitResult::Resize => {
                    &&& final(wm)@.drag matches DragState::Resizing {
                        wid,
                        orig_w,
                        orig_h,
                        start_x,
                        start_y,
                    } && wid == id && orig_w == win.w && orig_h == win.h && start_x == px && start_y
                        == py
                },
                _ => final(wm)@.drag == old(wm)@.drag,
            }
        }),
{
    let d = old(wm)@;
    let wid = d.windows[k].id;
    lemma_found(d, k);
    lemma_top(d, px as int, py as int, 0);
    lemma_fronted_wf(d, wid);
    lemma_focus_wf(d.fronted(wid), Some(wid), wid);
    let s = d.fronted(wid).focus_set(Some(wid));
    let win = s.get(wid)->0;
    assert(win == (Win { z: win.z, dirty: win.dirty, ..d.windows[k] }));
    assert(win.hit(px as int, py as int) == d.windows[k].hit(px as int, py as int));
    assert(s.drag == d.drag);
    let f = |w: Win| Win { minimized: !w.minimized, dirty: true, ..w };
    let g = |w: Win| w.max_toggled(sw, sh, d.window_bg);
    assert(s.with(wid, f).drag == s.drag);
    assert(s.with(wid, g).drag == s.drag);
    assert(s.closed(wid).drag == s.drag);
}

/// The window at a point is one that is shown, not minimised, and whose frame holds the
/// point: a border of one pixel round the contents with a title bar of 30 above. Of those
/// it is the foremost. There is none only where no window in the order is such a one.
pub proof fn law_foremost_window_is_at_the_point(
    wm: &WmState,
    px: i32,
    py: i32,
    r: Option<u32>,
    k: int,
    i: int,
)
    requires
        wm@.wf(),
        call_ensures(WmState::top_at, (wm, px, py), r),
        0 <= k < wm@.windows.len(),
        0 <= i < wm@.z_order.len(),
        wm@.z_order[i] == wm@.windows[k].id,
    ensures
        ({
            let win = wm@.windows[k];
            let shown = win.visible && !win.minimized && win.x - 1 <= px <= win.x + win.w && win.y
                - 31 <= py <= win.y + win.h;
            &&& shown ==> r is Some && exists|j: int| 0 <= j <= i && #[trigger] wm@.z_order[j] == r->0
            &&& r == Some(win.id) ==> shown
        }),
{
    lemma_found(wm@, k);
    lemma_top(wm@, px as int, py as int, 0);
    let win = wm@.windows[k];
    if win.visible && !win.minimized && win.on_frame(px as int, py as int) {
        lemma_top_before(wm@, px as int, py as int, 0, i);
    }
}

proof fn lemma_top_before(d: Desk, px: int, py: int, from: int, i: int)
    requires
        0 <= from <= i < d.z_order.len(),
        d.get(d.z_order[i]) is Some,
        d.get(d.z_order[i])->0.visible,
        !d.get(d.z_order[i])->0.minimized,
        d.get(d.z_order[i])->0.on_frame(px, py),
    ensures
        d.top_from(px, py, from) is Some,
        exists|j: int| from <= j <= i && #[trigger] d.z_order[j] == d.top_from(px, py, from)->0,
    decreases i - from,
{
    let id = d.z_order[from];
    if d.get(id) is Some && d.get(id)->0.visible && !d.get(id)->0.minimized && d.get(
        id,
    )->0.on_frame(px, py) {
        assert(d.z_order[from] == d.top_from(px, py, from)->0);
    } else {
        lemma_top_before(d, px, py, from + 1, i);
    }
}

/// What a point of a shown window belongs to, by where it lies from the window's place.
/// The three buttons are circles in the title bar, 18 pixels apart from the left: close,
/// minimise, maximise. The corner takes nine pixels each way; then come the title bar of
/// 30 pixels, the contents and, in what is left of the frame, the border.
pub proof fn law_parts_of_a_window(win: &Window, px: i32, py: i32, r: HitResult)
    requires
        call_ensures(Window::hit_detail, (win, px, py), r),
    ensures
        ({
            let (dx, dy) = (px - win.x, py - win.y);
            let (w, h) = (win.w as int, win.h as int);
            let framed = win.visible && !win.minimized && -1 <= dx <= w && -31 <= dy <= h;
            let close = (dx - 15) * (dx - 15) + (dy + 16) * (dy + 16) <= 40;
            let min = (dx - 33) * (dx - 33) + (dy + 16) * (dy + 16) <= 40;
            let max = (dx - 51) * (dx - 51) + (dy + 16) * (dy + 16) <= 40;
            let corner = w - 8 <= dx <= w && h - 8 <= dy <= h;
            let bar = dy < -1;
            let contents = 0 <= dx < w && 0 <= dy < h;
            &&& !framed <==> r == HitResult::Nothing
            &&& framed && close ==> r == HitResult::BtnClose
            &&& framed && !close && min ==> r == HitResult::BtnMin
            &&& framed && !close && !min && max ==> r == HitResult::BtnMax
            &&& framed && !close && !min && !max && corner ==> r == HitResult::Resize
            &&& framed && !close && !min && !max && !corner && bar ==> r == HitResult::Titlebar
            &&& framed && !close && !min && !max && !corner && !bar && contents ==> r
                == HitResult::Client
            &&& framed && !close && !min && !max && !corner && !bar && !contents ==> r
                == HitResult::Border
        }),
{
    let w = win@;
    let dx = px - win.x;
    let dy = py - win.y;
    assert(px - (w.close_at().0 + 6) == dx - 15);
    assert(py - (w.close_at().1 + 6) == dy + 16);
    assert(px - (w.min_at().0 + 6) == dx - 33);
    assert(px - (w.max_at().0 + 6) == dx - 51);
}

/// The middle of each button is on it: a press there closes, minimises or maximises.
pub proof fn law_buttons_are_where_they_are_told(
    win: &Window,
    close: (i32, i32),
    min: (i32, i32),
    max: (i32, i32),
    px: i32,
    py: i32,
    r: (bool, bool, bool),
)
    requires
        call_ensures(Window::btn_close, (win,), close),
        call_ensures(Window::btn_min, (win,), min),
        call_ensures(Window::btn_max, (win,), max),
        call_ensures(Window::hit_close, (win, px, py), r.0),
        call_ensures(Window::hit_min, (win, px, py), r.1),
        call_ensures(Window::hit_max, (win, px, py), r.2),
    ensures
        px == close.0 + 6 && py == close.1 + 6 ==> r.0 && !r.1 && !r.2,
        px == min.0 + 6 && py == min.1 + 6 ==> !r.0 && r.1 && !r.2,
        px == max.0 + 6 && py == max.1 + 6 ==> !r.0 && !r.1 && r.2,
        close.1 == min.1 == max.1,
        close.0 + 18 == min.0,
        min.0 + 18 == max.0,
        close.0 == win.x + 9,
        close.1 == win.y - 22,
{
    lemma_squares();
    let w = win@;
    assert(w.min_at().0 == w.close_at().0 + 18);
    assert(w.max_at().0 == w.close_at().0 + 36);
}

proof fn lemma_squares()
    ensures
        forall|d: int| d == 0 ==> #[trigger] (d * d) == 0,
        forall|d: int| d == 18 || d == -18 ==> #[trigger] (d * d) == 324,
        forall|d: int| d == 36 || d == -36 ==> #[trigger] (d * d) == 1296,
{
    assert forall|d: int| d == 18 || d == -18 implies #[trigger] (d * d) == 324 by {
        assert(d * d == 324) by (nonlinear_arith)
            requires
                d == 18 || d == -18,
        ;
    }
    assert forall|d: int| d == 36 || d == -36 implies #[trigger] (d * d) == 1296 by {
        assert(d * d == 1296) by (nonlinear_arith)
            requires
                d == 36 || d == -36,
        ;
    }
}

/// A window that is made to fill the screen starts below the top bar at the left edge, has
/// the screen's width, and ends 32 pixels above the bottom; the place it had is kept.
pub proof fn law_maximised_fills_the_screen(w: Win, sw: usize, sh: usize, bg: u32, j: int)
    requires
        !w.maximized,
        62 <= sh <= u32::MAX,
        sw <= u32::MAX,
    ensures
        ({
            let big = w.max_toggled(sw, sh, bg);
            &&& big.maximized
            &&& big.x == 0 && big.y == 30
            &&& big.w == sw
            &&& big.y + big.h + 32 == sh
            &&& big.pre_max == Some((w.x, w.y, w.w, w.h))
            &&& big.pixels.len() == big.w * big.h
            &&& 0 <= j < big.pixels.len() ==> big.pixels[j] == (if j < w.pixels.len() {
                w.pixels[j]
            } else {
                bg
            })
            &&& big.id == w.id && big.title == w.title && big.z == w.z
        }),
{
    assert(sw * (sh - 62) >= 0) by (nonlinear_arith)
        requires
            sw >= 0,
            sh >= 62,
    ;
}

/// Releasing the button ends a drag and changes nothing else; the focused window is told.
pub proof fn law_release_ends_the_drag(wm: &mut WmState, px: i32, py: i32, r: Vec<WmAction>)
    requires
        call_ensures(on_lup, (wm, px, py), r),
    ensures
        final(wm)@.drag == DragState::Idle,
        final(wm)@.windows == old(wm)@.windows,
        final(wm)@.z_order == old(wm)@.z_order,
        final(wm)@.focused == old(wm)@.focused,
        final(wm)@.hovered == old(wm)@.hovered,
        old(wm)@.focused is None ==> r@.len() == 0,
        old(wm)@.focused matches Some(id) ==> r@.len() == 1 && r@[0] == (WmAction::Send {
            wid: id,
            event: WindowEvent::MouseButton { x: px, y: py, button: 0, down: false },
        }),
{
}

/// A right press is told to the foremost window at the point, and to no other.
pub proof fn law_right_press_is_told(wm: &WmState, px: i32, py: i32, r: Vec<WmAction>, at: Option<u32>)
    requires
        call_ensures(on_rdown, (wm, px, py), r),
        call_ensures(WmState::top_at, (wm, px, py), at),
    ensures
        at is None ==> r@.len() == 0,
        at matches Some(id) ==> r@.len() == 1 && r@[0] == (WmAction::Send {
            wid: id,
            event: WindowEvent::MouseButton { x: px, y: py, button: 1, down: true },
        }),
{
}

/// A new window has an id that no window had, is the foremost and the focused one, and is
/// all background at the place and of the size it was asked for. Every other window stays
/// as it is, and their order too.
pub proof fn law_new_window_is_in_front(
    wm: &mut WmState,
    title: &str,
    x: i32,
    y: i32,
    w: u32,
    h: u32,
    owner: u64,
    r: (u32, WmAction),
    k: int,
)
    requires
        old(wm)@.wf(),
        old(wm).next_id < u32::MAX,
        sound_place(x, y, w, h),
        call_ensures(create_window, (wm, title, x, y, w, h, owner), r),
    ensures
        ({
            let d = old(wm)@;
            let e = final(wm)@;
            let n = d.windows.len() as int;
            let win = e.windows[n];
            &&& e.windows.len() == n + 1
            &&& 0 <= k < n ==> e.windows[k] == d.windows[k] && d.windows[k].id != r.0
            &&& win.id == r.0 && win.title == title@ && win.owner_tid == owner
            &&& win.x == x && win.y == y && win.w == w && win.h == h
            &&& win.visible && !win.minimized && !win.maximized && win.pre_max is None
            &&& win.pixels.len() == w * h
            &&& 0 <= k < win.pixels.len() ==> win.pixels[k] == d.window_bg
            &&& e.focused == Some(r.0)
            &&& e.z_order.len() == d.z_order.len() + 1
            &&& e.z_order[0] == r.0
            &&& 0 <= k < d.z_order.len() ==> e.z_order[k + 1] == d.z_order[k]
            &&& e.next_id > r.0
            &&& e.drag == d.drag && e.hovered == d.hovered
            &&& covers(r.1, win)
        }),
{
    assert(w * h >= 0) by (nonlinear_arith);
}

/// Ids without one of them: the others, in their order.
proof fn lemma_without_others(ids: Seq<u32>, id: u32)
    ensures
        without(ids, id) == ids.filter(|x: u32| x != id),
    decreases ids.len(),
{
    reveal(Seq::filter);
    if ids.len() > 0 {
        lemma_without_others(ids.drop_last(), id);
    }
}

/// Closing a window takes it, and no other, from the windows and from the order, which
/// both keep the others as they were. The focus goes to the foremost of these where the
/// window had it, and else stays. Where the window was is painted over.
pub proof fn law_closing_leaves_the_others(wm: &mut WmState, wid: u32, r: Vec<WmAction>, k: int)
    requires
        old(wm)@.wf(),
        call_ensures(close_window, (wm, wid), r),
        0 <= k < old(wm)@.windows.len(),
    ensures
        ({
            let d = old(wm)@;
            let e = final(wm)@;
            let win = d.windows[k];
            &&& win.id != wid ==> e.windows.contains(win)
            &&& e.z_order == d.z_order.filter(|x: u32| x != wid)
            &&& d.focused != Some(wid) ==> e.focused == d.focused
            &&& d.focused == Some(wid) && e.z_order.len() > 0 ==> e.focused == Some(e.z_order[0])
            &&& d.focused == Some(wid) && e.z_order.len() == 0 ==> e.focused is None
            &&& d.hovered != Some(wid) ==> e.hovered == d.hovered
            &&& e.next_id == d.next_id
            &&& win.id == wid ==> {
                &&& e.windows == d.windows.remove(k)
                &&& r@.len() == 4
                &&& r@[0] matches WmAction::Fill { x, y, w, h, color } && color == 0x080C18 && w
                    == win.w + 2 && h == win.h + 32 && x == (if win.x >= 1 {
                    win.x - 1
                } else {
                    0
                }) && y == (if win.y >= 31 {
                    win.y - 31
                } else {
                    0
                })
                &&& r@[1] matches WmAction::MarkDirty { x, y, w, h } && x == r@[0]->Fill_x && y
                    == r@[0]->Fill_y && w == win.w + 2 && h == win.h + 32
                &&& r@[2] is MarkAll
                &&& r@[3] is RedrawShell
            }
        }),
{
    let d = old(wm)@;
    let e = final(wm)@;
    lemma_found(d, k);
    lemma_without_others(d.z_order, wid);
    lemma_index(d.windows, wid, 0);
    match index_from(d.windows, wid, 0) {
        Some(i) => {
            if d.windows[k].id != wid {
                let to = if k < i {
                    k
                } else {
                    k - 1
                };
                assert(e.windows[to] == d.windows[k]);
            }
        },
        None => {
            assert(e.windows[k] == d.windows[k]);
        },
    }
}

/// Pixels that a program draws as a rectangle stand in its window where the rectangle is:
/// the one in row `i` and column `j` of it at its row and column from the corner of the
/// rectangle, as far as the window goes and whole rows were given. Every other pixel stays,
/// and so does every other window.
pub proof fn law_drawn_rectangle_is_in_place(
    wm: &mut WmState,
    wid: u32,
    x: u16,
    y: u16,
    w: u16,
    h: u16,
    new: &Vec<u32>,
    r: Vec<WmAction>,
    k: int,
    row: int,
    col: int,
    other: int,
)
    requires
        old(wm)@.wf(),
        call_ensures(update_pixels, (wm, wid, x, y, w, h, new), r),
        0 <= k < old(wm)@.windows.len(),
        old(wm)@.windows[k].id == wid,
        old(wm)@.windows[k].pixels.len() == old(wm)@.windows[k].w * old(wm)@.windows[k].h,
        0 <= row < old(wm)@.windows[k].h,
        0 <= col < old(wm)@.windows[k].w,
        new@.len() == w * h,
    ensures
        ({
            let was = old(wm)@.windows[k];
            let now = final(wm)@.windows[k];
            let at = row * was.w + col;
            let inside = y <= row < y + h && x <= col < x + w;
            &&& inside ==> now.pixels[at] == new@[(row - y) * w + (col - x)]
            &&& !inside ==> now.pixels[at] == was.pixels[at]
            &&& now.pixels.len() == was.pixels.len()
            &&& now.w == was.w && now.h == was.h && now.x == was.x && now.y == was.y
            &&& now.dirty
            &&& 0 <= other < old(wm)@.windows.len() && other != k ==> final(wm)@.windows[other]
                == old(wm)@.windows[other]
            &&& was.x >= 0 && was.y >= 0 ==> r@ == seq![
                WmAction::MarkDirty {
                    x: was.x as usize,
                    y: was.y as usize,
                    w: was.w as usize,
                    h: was.h as usize,
                },
            ]
        }),
{
    let was = old(wm)@.windows[k];
    lemma_found(old(wm)@, k);
    let stride = was.w as int;
    let height = was.h as int;
    let at = row * stride + col;
    assert(0 <= at < stride * height) by (nonlinear_arith)
        requires
            at == row * stride + col,
            0 <= row < height,
            0 <= col < stride,
    ;
    vstd::arithmetic::div_mod::lemma_fundamental_div_mod_converse(at, stride, row, col);
    let now = final(wm)@.windows[k];
    assert(now == updated(was, x as int, y as int, w as int, h as int, new@));
    assert(now.pixels[at] == updated_pixel(was, x as int, y as int, w as int, h as int, new@, at));
    let n = fitting(stride, x as int, w as int);
    if y <= row < y + h && x <= col < x + w {
        let i = row - y;
        let hh = h as int;
        let ww = w as int;
        let nn = n;
        assert(i * ww + nn <= ww * hh) by (nonlinear_arith)
            requires
                0 <= i < hh,
                nn <= ww,
                ww >= 0,
        ;
        let xx = x as int;
        assert(row * stride + xx + nn <= stride * height) by (nonlinear_arith)
            requires
                0 <= row < height,
                xx + nn <= stride,
                stride >= 0,
        ;
    }
}

/// A window that snaps stands beside the bars: in the left or the right half, or over the
/// whole of what the bars leave free. It snaps left or right where its frame is within 24
/// pixels of that side, above where its frame is within 24 of the top bar, and else not
/// at all.
pub proof fn law_snapped_window_fills_its_part(
    wm: &mut WmState,
    l: &ShellLayout,
    wid: u32,
    k: int,
)
    requires
        old(wm)@.wf(),
        l.wf(),
        call_ensures(snap_to_edge, (wm, wid, l), ()),
        0 <= k < old(wm)@.windows.len(),
        l.sidebar_w <= l.screen_w,
    ensures
        ({
            let was = old(wm)@.windows[k];
            let now = final(wm)@.windows[k];
            let free_w = l.screen_w - l.sidebar_w;
            let free_h = l.screen_h - l.topbar_h - l.taskbar_h;
            let left = was.x - 1 <= l.sidebar_w + 24;
            let right = !left && was.x + was.w + 1 >= l.screen_w - 24;
            let above = !left && !right && was.y - 31 <= l.topbar_h + 24;
            &&& was.id != wid || !(left || right || above) ==> now == was
            &&& was.id == wid && (left || right || above) ==> {
                &&& now.y == l.topbar_h + 31
                &&& free_h >= 132 ==> now.h + 32 == free_h
                &&& free_h < 132 ==> now.h == 100
            }
            &&& was.id == wid && left ==> now.x == l.sidebar_w + 1 && now.w == free_w / 2
            &&& was.id == wid && right ==> now.x == l.sidebar_w + free_w / 2 + 1 && now.w == free_w
                / 2
            &&& was.id == wid && above ==> now.x == l.sidebar_w + 1 && (free_w >= 202 ==> now.w + 2
                == free_w) && (free_w < 202 ==> now.w == 200)
            &&& now.id == was.id && now.title == was.title && now.pixels == was.pixels
        }),
{
    lemma_found(old(wm)@, k);
    lemma_index(old(wm)@.windows, wid, 0);
}

/// The zone that is shown while a window is dragged is the side it would snap to.
pub proof fn law_zone_is_the_side(
    fx: i32,
    fy: i32,
    l: &ShellLayout,
    r: Option<&'static str>,
)
    requires
        call_ensures(snap_zone, (fx, fy, l), r),
    ensures
        fx <= l.sidebar_w + 24 ==> r is Some && r->0@ == "left"@,
        fx > l.sidebar_w + 24 && fx + 400 >= l.screen_w - 24 ==> r is Some && r->0@ == "right"@,
        fx > l.sidebar_w + 24 && fx + 400 < l.screen_w - 24 && fy <= l.topbar_h + 24 ==> r is Some
            && r->0@ == "maximize"@,
        fx > l.sidebar_w + 24 && fx + 400 < l.screen_w - 24 && fy > l.topbar_h + 24 ==> r is None,
{
}

/// A minimised window is not shown; once it is restored it is shown, in front, and has the
/// focus. Its place, its size and its picture are as before, and so is every other window
/// but for its layer and whether it has to be drawn.
pub proof fn law_restored_window_is_back(a: &mut WmState, b: &mut WmState, wid: u32, k: int)
    requires
        old(a)@.wf(),
        old(b)@ == final(a)@,
        call_ensures(minimize_window, (a, wid), ()),
        call_ensures(restore_window, (b, wid), ()),
        0 <= k < old(a)@.windows.len(),
    ensures
        ({
            let was = old(a)@.windows[k];
            let away = final(a)@.windows[k];
            let back = final(b)@.windows[k];
            &&& was.id == wid ==> away.minimized && !away.visible
            &&& was.id == wid ==> back.visible && !back.minimized
            &&& was.id != wid ==> away == was && back.visible == was.visible && back.minimized
                == was.minimized
            &&& back.x == was.x && back.y == was.y && back.w == was.w && back.h == was.h
            &&& back.pixels == was.pixels && back.title == was.title && back.id == was.id
            &&& final(a)@.focused == old(a)@.focused && final(a)@.z_order == old(a)@.z_order
            &&& final(b)@.focused == Some(wid)
            &&& final(b)@.z_order.len() > 0 && final(b)@.z_order[0] == wid
        }),
{
    let d = old(a)@;
    lemma_found(d, k);
    lemma_index(d.windows, wid, 0);
    let e = final(a)@;
    lemma_index(e.windows, wid, 0);
    assert(e.windows[k].id == d.windows[k].id);
    let f = |w: Win| Win { minimized: false, visible: true, ..w };
    let g = e.with(wid, f);
    lemma_index(g.windows, wid, 0);
    let h = g.fronted(wid);
    assert(h.windows[k] == (Win { z: h.windows[k].z, ..g.windows[k] }));
    assert(forall|i: int| 0 <= i < d.windows.len() ==> (#[trigger] h.windows[i]).id == d.windows[i].id);
    let set = |w: Win| Win { dirty: true, ..w };
    assert forall|x: Desk, id: u32|
        k < x.windows.len() implies (#[trigger] x.dirtied(id)).windows.len() == x.windows.len()
        && x.dirtied(id).windows[k] == (Win { dirty: x.dirtied(id).windows[k].dirty, ..x.windows[k]
    }) by {
        lemma_index(x.windows, id, 0);
    }
}

/// The focus goes from each window to the one made next, and from the last to the first.
/// Nothing else changes.
pub proof fn law_focus_goes_round(wm: &mut WmState, k: int)
    requires
        old(wm)@.wf(),
        call_ensures(focus_next_window, (wm,), ()),
        0 <= k < old(wm)@.windows.len(),
        old(wm)@.focused == Some(old(wm)@.windows[k].id),
    ensures
        k + 1 < old(wm)@.windows.len() ==> final(wm)@.focused == Some(
            old(wm)@.windows[k + 1].id,
        ),
        k + 1 == old(wm)@.windows.len() ==> final(wm)@.focused == Some(old(wm)@.windows[0].id),
        final(wm)@.windows == old(wm)@.windows,
        final(wm)@.z_order == old(wm)@.z_order,
{
    lemma_found(old(wm)@, k);
    let n = old(wm)@.windows.len() as int;
    if k + 1 < n {
        vstd::arithmetic::div_mod::lemma_small_mod((k + 1) as nat, n as nat);
    } else {
        vstd::arithmetic::div_mod::lemma_mod_self_0(n);
    }
}

/// With the focus following the mouse, the foremost window at the point gets it, and where
/// there is none the focus stays.
pub proof fn law_focus_follows_the_mouse(wm: &mut WmState, px: i32, py: i32)
    requires
        old(wm)@.wf(),
        call_ensures(focus_under_cursor, (wm, px, py), ()),
    ensures
        old(wm)@.top_from(px as int, py as int, 0) matches Some(id) ==> final(wm)@.focused == Some(id),
        old(wm)@.top_from(px as int, py as int, 0) is None ==> final(wm)@ == old(wm)@,
        final(wm)@.z_order == old(wm)@.z_order,
{
    match old(wm)@.top_from(px as int, py as int, 0) {
        Some(id) => {
            lemma_focus_wf(old(wm)@, Some(id), id);
        },
        None => {},
    }
}

/// A window that is given a title has that title, and nothing else of it changes but that
/// it has to be drawn; no other window changes.
pub proof fn law_title_is_set(wm: &mut WmState, wid: u32, title: String, r: Vec<WmAction>, k: int)
    requires
        old(wm)@.wf(),
        call_ensures(set_title, (wm, wid, title), r),
        0 <= k < old(wm)@.windows.len(),
    ensures
        ({
            let was = old(wm)@.windows[k];
            let now = final(wm)@.windows[k];
            &&& was.id == wid ==> now.title == title@ && now.dirty && now.pixels == was.pixels
                && now.x == was.x && now.y == was.y && now.w == was.w && now.h == was.h
            &&& was.id != wid ==> now == was
            &&& was.id == wid ==> r@.len() == 1 && (r@[0] matches WmAction::MarkDirty { x, y, w, h }
                && w == was.w + 2 && h == 30 && x == (if was.x >= 1 {
                was.x - 1
            } else {
                0
            }) && y == (if was.y >= 31 {
                was.y - 31
            } else {
                0
            }))
        }),
{
    lemma_found(old(wm)@, k);
    lemma_index(old(wm)@.windows, wid, 0);
}

/// A key is told to the focused window by its code and its character's low byte. A
/// character's code is its own, control keys have their ASCII codes, and the arrows and the
/// first function keys have codes in a row.
pub proof fn law_key_is_told_by_its_code(
    wm: &WmState,
    key: Key,
    ch: Option<char>,
    mods: Mods,
    r: Vec<WmAction>,
    code: u32,
    left: u32,
    up: u32,
    right: u32,
    down: u32,
    f1: u32,
    f2: u32,
    f3: u32,
    f4: u32,
    f5: u32,
)
    requires
        call_ensures(on_key, (wm, key, ch, mods), r),
        call_ensures(key_code, (key,), code),
        call_ensures(key_code, (Key::Left,), left),
        call_ensures(key_code, (Key::Up,), up),
        call_ensures(key_code, (Key::Right,), right),
        call_ensures(key_code, (Key::Down,), down),
        call_ensures(key_code, (Key::F1,), f1),
        call_ensures(key_code, (Key::F2,), f2),
        call_ensures(key_code, (Key::F3,), f3),
        call_ensures(key_code, (Key::F4,), f4),
        call_ensures(key_code, (Key::F5,), f5),
    ensures
        wm@.focused is None ==> r@.len() == 0,
        wm@.focused matches Some(id) ==> r@.len() == 1 && (r@[0] matches WmAction::Send {
            wid,
            event: WindowEvent::Key { keycode, ascii, down },
        } && wid == id && keycode == code && down && (ch matches Some(c) ==> ascii == c as u32
            % 256) && (ch is None ==> ascii == 0)),
        key matches Key::Char(c) ==> code == c as u32,
        key == Key::Enter ==> code == 13,
        key == Key::Backspace ==> code == 8,
        key == Key::Tab ==> code == 9,
        key == Key::Escape ==> code == 27,
        key == Key::End ==> code == 0x23,
        key == Key::Home ==> code == 0x24,
        key == Key::Delete ==> code == 0x2E,
        key == Key::F11 ==> code == 0x7A,
        left == 0x25 && up == left + 1 && right == up + 1 && down == right + 1,
        f1 == 0x70 && f2 == f1 + 1 && f3 == f2 + 1 && f4 == f3 + 1 && f5 == f4 + 1,
{
}

/// Moving the mouse with no drag tells the focused window where its contents are under the
/// mouse, remembers the foremost window there, and changes nothing else.
pub proof fn law_hover_is_told(
    wm: &mut WmState,
    px: i32,
    py: i32,
    dx: i16,
    dy: i16,
    sw: usize,
    sh: usize,
    r: Vec<WmAction>,
    k: int,
)
    requires
        old(wm)@.wf(),
        old(wm)@.drag == DragState::Idle,
        call_ensures(on_move, (wm, px, py, dx, dy, sw, sh), r),
        0 <= k < old(wm)@.windows.len(),
        old(wm)@.focused == Some(old(wm)@.windows[k].id),
    ensures
        final(wm)@.hovered == old(wm)@.top_from(px as int, py as int, 0),
        final(wm)@.windows == old(wm)@.windows,
        final(wm)@.focused == old(wm)@.focused,
        final(wm)@.z_order == old(wm)@.z_order,
        ({
            let win = old(wm)@.windows[k];
            let over = win.x <= px < win.x + win.w && win.y <= py < win.y + win.h;
            &&& !over ==> r@.len() == 0
            &&& over ==> r@ == seq![
                WmAction::Send {
                    wid: win.id,
                    event: WindowEvent::MouseMove { x: px, y: py, dx, dy },
                },
            ]
        }),
{
    lemma_found(old(wm)@, k);
}

/// A press on a window's button does what the button is for: the window is closed and told
/// so, minimised, or made to fill the screen and back. A press on its contents is told to
/// the window. The press marks the whole screen where the focus changes.
pub proof fn law_press_does_what_it_hits(
    wm: &mut WmState,
    px: i32,
    py: i32,
    sw: usize,
    sh: usize,
    r: Vec<WmAction>,
    k: int,
)
    requires
        old(wm)@.wf(),
        0 <= k < old(wm)@.windows.len(),
        old(wm)@.top_from(px as int, py as int, 0) == Some(old(wm)@.windows[k].id),
        call_ensures(on_ldown, (wm, px, py, sw, sh), r),
    ensures
        ({
            let win = old(wm)@.windows[k];
            let id = win.id;
            let now = final(wm)@.get(id);
            let press = WmAction::Send {
                wid: id,
                event: WindowEvent::MouseButton { x: px, y: py, button: 0, down: true },
            };
            let first = if old(wm)@.focused == Some(id) {
                0int
            } else {
                1
            };
            &&& old(wm)@.focused != Some(id) ==> r@.len() > 0 && r@[0] is MarkAll
            &&& match win.hit(px as int, py as int) {
                HitResult::BtnClose => now is None && r@[first] == (WmAction::Send {
                    wid: id,
                    event: WindowEvent::Close,
                }),
                HitResult::BtnMin => now is Some && now->0.minimized && now->0.pixels == win.pixels
                    && r@[first] is MarkAll,
                HitResult::BtnMax => now is Some && (now->0.maximized <==> !win.maximized
                    || win.pre_max is None) && r@[first] is MarkAll,
                HitResult::Client => now is Some && now->0.pixels == win.pixels && now->0.minimized
                    == win.minimized && r@.len() == first + 1 && r@[first] == press,
                _ => now is Some && now->0.pixels == win.pixels && r@.len() == first,
            }
        }),
{
    let d = old(wm)@;
    let wid = d.windows[k].id;
    lemma_found(d, k);
    lemma_top(d, px as int, py as int, 0);
    lemma_fronted_wf(d, wid);
    lemma_focus_wf(d.fronted(wid), Some(wid), wid);
    let s = d.fronted(wid).focus_set(Some(wid));
    let win = s.get(wid)->0;
    assert(win == (Win { z: win.z, dirty: win.dirty, ..d.windows[k] }));
    assert(win.hit(px as int, py as int) == d.windows[k].hit(px as int, py as int));
    lemma_closed_wf(s, wid);
    let f = |w: Win| Win { minimized: !w.minimized, dirty: true, ..w };
    let g = |w: Win| w.max_toggled(sw, sh, d.window_bg);
    assert(!win.minimized);
    lemma_index(s.windows, wid, 0);
    lemma_same_index(s.windows, s.with(wid, f).windows, wid, 0);
    lemma_same_index(s.windows, s.with(wid, g).windows, wid, 0);
    let drag = final(wm)@.drag;
    assert((Desk { drag, ..s }).get(wid) == s.get(wid));
}

} // verus!
