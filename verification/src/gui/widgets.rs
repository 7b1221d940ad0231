//! Widgets: buttons, text fields, lists, menus, dialogs and tabs.
//!
//! A widget holds its state, answers the mouse and the keyboard, and draws itself
//! as a list of drawing operations.
use crate::gui::canvas::{self, blank, put, DrawOp, Ink};
use crate::gui::events::Key;
use crate::gui::theme::{Palette, COLOR_BTN_TEXT_PRESS};
use crate::io::framebuffer::{FONT_HEIGHT, FONT_WIDTH};
use crate::text;
use vstd::prelude::*;
use vstd::utf8::*;

verus! {

pub const COLOR_DISABLED: u32 = 0x0A1020;

pub const COLOR_EDGE: u32 = 0x2A3A5A;

pub const COLOR_CHOSEN: u32 = 0x1A3A7A;

pub const COLOR_LIST: u32 = 0x0D1626;

pub const COLOR_LINE: u32 = 0x1A2A4A;

pub const COLOR_TIP_EDGE: u32 = 0x3A4A6A;

pub const COLOR_DIALOG_EDGE: u32 = 0x3A4A7A;

pub const COLOR_KNOB: u32 = 0xCCDDFF;

/// Width of a scroll bar.
pub const SCROLL_W: usize = 10;

/// Height of a row of a list or a menu.
pub const ITEM_H: usize = 22;

/// How wide a menu is at least.
pub const MENU_W: usize = 160;

/// The text of a menu item that is drawn as a line and cannot be chosen.
pub const SEPARATOR: &'static str = "---";

/// The signed number with the low 32 bits of `n`.
pub open spec fn low_i32(n: int) -> int {
    let m = n % 0x1_0000_0000;
    if m < 0x8000_0000 {
        m
    } else {
        m - 0x1_0000_0000
    }
}

fn to_i32(n: usize) -> (r: i32)
    ensures
        r == low_i32(n as int),
{
    let m: u64 = n as u64 % 0x1_0000_0000;
    if m < 0x8000_0000 {
        m as i32
    } else {
        (m as i64 - 0x1_0000_0000) as i32
    }
}

/// `a` minus `b`, and 0 where that is negative.
pub open spec fn gap(a: int, b: int) -> int {
    if a < b {
        0
    } else {
        a - b
    }
}

pub open spec fn larger(a: int, b: int) -> int {
    if a < b {
        b
    } else {
        a
    }
}

fn max_of(a: usize, b: usize) -> (r: usize)
    ensures
        r == larger(a as int, b as int),
{
    if a < b {
        b
    } else {
        a
    }
}

/// The length of a text in bytes.
pub open spec fn bytes(s: Seq<char>) -> int {
    encode_utf8(s).len() as int
}

/// The width of a text in pixels: eight for each byte.
pub open spec fn text_w(s: Seq<char>) -> int {
    bytes(s) * FONT_WIDTH
}

/// Several strings.
pub open spec fn texts(v: Seq<String>) -> Seq<Seq<char>> {
    Seq::new(v.len(), |i: int| v[i]@)
}

/// A rectangle of pixels.
#[derive(Clone, Copy, Debug, PartialEq, Eq)]
pub struct Rect {
    pub x: usize,
    pub y: usize,
    pub w: usize,
    pub h: usize,
}

impl Rect {
    /// The right and the lower edge can be written down.
    pub open spec fn wf(self) -> bool {
        &&& self.x + self.w <= usize::MAX
        &&& self.y + self.h <= usize::MAX
    }

    /// The point is inside; edges are compared as 32-bit numbers.
    pub open spec fn has(self, px: int, py: int) -> bool {
        &&& low_i32(self.x as int) <= px < low_i32(self.x + self.w)
        &&& low_i32(self.y as int) <= py < low_i32(self.y + self.h)
    }

    pub open spec fn fill(self, color: u32) -> Ink {
        Ink::Fill {
            x: self.x as int,
            y: self.y as int,
            w: self.w as int,
            h: self.h as int,
            color,
        }
    }

    pub open spec fn rounded(self, color: u32, radius: int) -> Ink {
        Ink::FillRounded {
            x: self.x as int,
            y: self.y as int,
            w: self.w as int,
            h: self.h as int,
            color,
            radius,
        }
    }

    pub open spec fn edge(self, color: u32) -> Ink {
        Ink::Outline {
            x: self.x as int,
            y: self.y as int,
            w: self.w as int,
            h: self.h as int,
            color,
        }
    }

    /// Is the point inside?
    pub fn contains(&self, px: i32, py: i32) -> (r: bool)
        requires
            self.wf(),
        ensures
            r == self.has(px as int, py as int),
    {
        px >= to_i32(self.x) && px < to_i32(self.x + self.w) && py >= to_i32(self.y) && py < to_i32(
            self.y + self.h,
        )
    }

    fn put_fill(&self, ops: &mut Vec<DrawOp>, color: u32)
        ensures
            canvas::inks(final(ops)@) == canvas::inks(old(ops)@).push(self.fill(color)),
    {
        put(ops, DrawOp::Fill { x: self.x, y: self.y, w: self.w, h: self.h, color });
    }

    fn put_rounded(&self, ops: &mut Vec<DrawOp>, color: u32, radius: usize)
        ensures
            canvas::inks(final(ops)@) == canvas::inks(old(ops)@).push(self.rounded(color, radius as int)),
    {
        put(ops, DrawOp::FillRounded { x: self.x, y: self.y, w: self.w, h: self.h, color, radius });
    }

    fn put_edge(&self, ops: &mut Vec<DrawOp>, color: u32)
        ensures
            canvas::inks(final(ops)@) == canvas::inks(old(ops)@).push(self.edge(color)),
    {
        put(ops, DrawOp::Outline { x: self.x, y: self.y, w: self.w, h: self.h, color });
    }
}

fn put_text(ops: &mut Vec<DrawOp>, s: &str, x: usize, y: usize, fg: u32, bg: u32)
    ensures
        canvas::inks(final(ops)@) == canvas::inks(old(ops)@).push(
            Ink::Text { text: s@, x: x as int, y: y as int, fg, bg },
        ),
{
    put(ops, DrawOp::Text { text: s.to_owned(), x, y, fg, bg });
}

/// The width of a text in pixels.
fn width_of(s: &str) -> (r: usize)
    requires
        text_w(s@) <= usize::MAX,
    ensures
        r == text_w(s@),
{
    text::byte_len(s) * FONT_WIDTH
}

// ---------------------------------------------------------------------------
// Button
// ---------------------------------------------------------------------------

#[derive(Clone, Copy, Debug, PartialEq, Eq, Structural)]
pub enum BtnState {
    Normal,
    Hover,
    Pressed,
    Disabled,
}

/// A rectangle with a label that can be clicked.
#[derive(Debug)]
pub struct Button {
    pub rect: Rect,
    pub label: String,
    pub state: BtnState,
}

/// The state of a button after the mouse was seen inside or outside, up or down.
pub open spec fn button_after(state: BtnState, inside: bool, pressed: bool) -> BtnState {
    if state is Disabled {
        state
    } else if !inside {
        BtnState::Normal
    } else if pressed {
        BtnState::Pressed
    } else {
        BtnState::Hover
    }
}

/// Whether that completes a click: the button was held down inside and is let go
/// inside.
pub open spec fn button_clicked(state: BtnState, inside: bool, pressed: bool) -> bool {
    state is Pressed && inside && !pressed
}

/// The colour behind a button's label.
pub open spec fn button_fill(state: BtnState, p: Palette) -> u32 {
    match state {
        BtnState::Normal => p.glass,
        BtnState::Hover => p.glass_hover,
        BtnState::Pressed => p.accent,
        BtnState::Disabled => COLOR_DISABLED,
    }
}

/// What a button looks like; the label is in the middle.
pub open spec fn button_look(rect: Rect, label: Seq<char>, state: BtnState, p: Palette) -> Seq<Ink> {
    seq![
        rect.rounded(button_fill(state, p), 6),
        rect.edge(p.glass_border),
        Ink::Text {
            text: label,
            x: rect.x + gap(rect.w as int, text_w(label)) / 2,
            y: rect.y + gap(rect.h as int, FONT_HEIGHT as int) / 2,
            fg: if state is Pressed {
                COLOR_BTN_TEXT_PRESS
            } else {
                p.text_primary
            },
            bg: button_fill(state, p),
        },
    ]
}

impl Button {
    pub open spec fn look(self, p: Palette) -> Seq<Ink> {
        button_look(self.rect, self.label@, self.state, p)
    }

    pub fn new(x: usize, y: usize, w: usize, h: usize, label: &str) -> (r: Self)
        ensures
            r.rect == (Rect { x, y, w, h }),
            r.label@ == label@,
            r.state is Normal,
    {
        Button { rect: Rect { x, y, w, h }, label: label.to_owned(), state: BtnState::Normal }
    }

    pub fn draw(&self, p: &Palette) -> (r: Vec<DrawOp>)
        requires
            self.rect.wf(),
            text_w(self.label@) <= usize::MAX,
        ensures
            canvas::inks(r@) == self.look(*p),
    {
        let fill: u32 = match self.state {
            BtnState::Normal => p.glass,
            BtnState::Hover => p.glass_hover,
            BtnState::Pressed => p.accent,
            BtnState::Disabled => COLOR_DISABLED,
        };
        let mut ops = blank();
        self.rect.put_rounded(&mut ops, fill, 6);
        self.rect.put_edge(&mut ops, p.glass_border);
        let tw: usize = width_of(&self.label);
        let tx: usize = self.rect.x + self.rect.w.saturating_sub(tw) / 2;
        let ty: usize = self.rect.y + self.rect.h.saturating_sub(FONT_HEIGHT) / 2;
        let fg: u32 = if self.state == BtnState::Pressed {
            COLOR_BTN_TEXT_PRESS
        } else {
            p.text_primary
        };
        put_text(&mut ops, &self.label, tx, ty, fg, fill);
        assert(canvas::inks(ops@) =~= self.look(*p));
        ops
    }

    /// The mouse is at that point, its button down or not; says whether the button
    /// was clicked.
    pub fn on_mouse(&mut self, px: i32, py: i32, pressed: bool) -> (r: bool)
        requires
            old(self).rect.wf(),
        ensures
            final(self).rect == old(self).rect,
            final(self).label == old(self).label,
            final(self).state == button_after(
                old(self).state,
                old(self).rect.has(px as int, py as int),
                pressed,
            ),
            r == button_clicked(old(self).state, old(self).rect.has(px as int, py as int), pressed),
    {
        if self.state == BtnState::Disabled {
            return false;
        }
        let inside: bool = self.rect.contains(px, py);
        let clicked: bool = inside && self.state == BtnState::Pressed && !pressed;
        self.state = if !inside {
            BtnState::Normal
        } else if pressed {
            BtnState::Pressed
        } else {
            BtnState::Hover
        };
        clicked
    }
}

/// A click is a press inside that is followed by a release inside; a release
/// anywhere else, or without the press, is none.
pub proof fn law_click_is_press_and_release(state: BtnState, down_inside: bool, up_inside: bool)
    requires
        state !is Disabled,
    ensures
        !button_clicked(state, down_inside, true),
        button_clicked(button_after(state, down_inside, true), up_inside, false) <==> (down_inside
            && up_inside),
        !button_clicked(
            button_after(button_after(state, down_inside, true), up_inside, false),
            up_inside,
            false,
        ),
{
}

// ---------------------------------------------------------------------------
// Text field
// ---------------------------------------------------------------------------

/// A single-line text editor. The cursor is a byte position between two characters.
#[derive(Debug)]
pub struct TextInput {
    pub rect: Rect,
    pub value: String,
    pub cursor: usize,
    pub sel_start: Option<usize>,
    pub focused: bool,
    pub placeholder: String,
    /// When the cursor last changed between shown and not shown, in milliseconds.
    pub cursor_blink: u64,
    pub cursor_on: bool,
}

/// The text and the cursor after a key: the cursor moves by the bytes of the character
/// that it passes, that is put in before it or that is taken out before it.
pub open spec fn edited(s: Seq<char>, cursor: int, key: Key) -> (Seq<char>, int) {
    let at = text::place(s, cursor);
    match key {
        Key::Char(c) => (s.insert(at, c), cursor + text::width(c)),
        Key::Backspace => if at > 0 {
            (s.remove(at - 1), cursor - text::width(s[at - 1]))
        } else {
            (s, cursor)
        },
        Key::Delete => if at < s.len() {
            (s.remove(at), cursor)
        } else {
            (s, cursor)
        },
        Key::Left => if at > 0 {
            (s, cursor - text::width(s[at - 1]))
        } else {
            (s, cursor)
        },
        Key::Right => if at < s.len() {
            (s, cursor + text::width(s[at]))
        } else {
            (s, cursor)
        },
        Key::Home => (s, 0),
        Key::End => (s, bytes(s)),
        _ => (s, cursor),
    }
}

/// How many columns a field of that width shows.
pub open spec fn columns(w: int) -> int {
    gap(w, 12) / 8
}

/// The byte at which the shown part starts.
pub open spec fn shown_from(s: Seq<char>, cursor: int, w: int) -> int {
    let start = gap(cursor, columns(w));
    if start < bytes(s) {
        start
    } else {
        bytes(s)
    }
}

/// The byte before which the shown part ends.
pub open spec fn shown_to(s: Seq<char>, cursor: int, w: int) -> int {
    let end = shown_from(s, cursor, w) + columns(w);
    if end < bytes(s) {
        end
    } else {
        bytes(s)
    }
}

/// The part of the text that fits, a column for each byte, with the cursor in it.
pub open spec fn shown(s: Seq<char>, cursor: int, w: int) -> Seq<char> {
    s.subrange(
        text::place(s, shown_from(s, cursor, w)),
        text::place(s, shown_to(s, cursor, w)),
    )
}

impl TextInput {
    /// The cursor stands between two characters, or at an end of the text.
    pub open spec fn wf(self) -> bool {
        text::is_boundary(self.value@, self.cursor as int)
    }

    /// Nothing was typed and nothing is about to be: the placeholder is shown.
    pub open spec fn idle(self) -> bool {
        self.value@.len() == 0 && !self.focused
    }

    /// Whether the cursor changes between shown and not shown at time `now`.
    pub open spec fn blinks(self, now: u64) -> bool {
        self.focused && now - self.cursor_blink > 500
    }

    pub open spec fn cursor_shown(self, now: u64) -> bool {
        if self.blinks(now) {
            !self.cursor_on
        } else {
            self.cursor_on
        }
    }

    pub open spec fn look(self, now: u64, p: Palette) -> Seq<Ink> {
        let frame = seq![
            self.rect.fill(p.glass_dark),
            self.rect.edge(
                if self.focused {
                    p.accent
                } else {
                    p.glass_border
                },
            ),
            Ink::Text {
                text: if self.idle() {
                    self.placeholder@
                } else {
                    shown(self.value@, self.cursor as int, self.rect.w as int)
                },
                x: self.rect.x + 6,
                y: self.rect.y + 4,
                fg: if self.idle() {
                    p.text_muted
                } else {
                    p.text_primary
                },
                bg: p.glass_dark,
            },
        ];
        if self.focused && self.cursor_shown(now) {
            let columns = columns(self.rect.w as int);
            let column = if self.cursor < columns {
                self.cursor as int
            } else {
                columns
            };
            frame.push(
                Ink::VLine {
                    x: self.rect.x + 6 + column * FONT_WIDTH,
                    y: self.rect.y + 4,
                    h: FONT_HEIGHT as int,
                    color: p.accent,
                },
            )
        } else {
            frame
        }
    }

    pub fn new(x: usize, y: usize, w: usize, placeholder: &str) -> (r: Self)
        ensures
            r.rect == (Rect { x, y, w, h: 24 }),
            r.wf(),
            r.value@ == Seq::<char>::empty(),
            r.cursor == 0,
            r.sel_start is None,
            !r.focused,
            r.placeholder@ == placeholder@,
            r.cursor_blink == 0,
            r.cursor_on,
    {
        proof {
            text::lemma_place(Seq::empty(), 0);
            assert(Seq::<char>::empty().take(0) =~= Seq::<char>::empty());
        }
        TextInput {
            rect: Rect { x, y, w, h: FONT_HEIGHT + 8 },
            value: String::new(),
            cursor: 0,
            sel_start: None,
            focused: false,
            placeholder: placeholder.to_owned(),
            cursor_blink: 0,
            cursor_on: true,
        }
    }

    fn is_empty(&self) -> (r: bool)
        ensures
            r == (self.value@.len() == 0),
    {
        proof {
            text::lemma_encoded_len(self.value@);
        }
        text::byte_len(&self.value) == 0
    }

    /// Draws the field at time `now`, and lets the cursor blink.
    pub fn draw(&mut self, now: u64, p: &Palette) -> (r: Vec<DrawOp>)
        requires
            old(self).rect.wf(),
            old(self).rect.x + 6 <= usize::MAX,
            old(self).rect.y + 4 <= usize::MAX,
            old(self).focused ==> now >= old(self).cursor_blink,
            old(self).wf(),
            !old(self).idle() ==> text::is_boundary(
                old(self).value@,
                shown_from(old(self).value@, old(self).cursor as int, old(self).rect.w as int),
            ) && text::is_boundary(
                old(self).value@,
                shown_to(old(self).value@, old(self).cursor as int, old(self).rect.w as int),
            ),
        ensures
            final(self).wf(),
            canvas::inks(r@) == old(self).look(now, *p),
            final(self).cursor_on == old(self).cursor_shown(now),
            final(self).cursor_blink == (if old(self).blinks(now) {
                now
            } else {
                old(self).cursor_blink
            }),
            final(self).rect == old(self).rect,
            final(self).value == old(self).value,
            final(self).cursor == old(self).cursor,
            final(self).sel_start == old(self).sel_start,
            final(self).focused == old(self).focused,
            final(self).placeholder == old(self).placeholder,
    {
        let mut ops = blank();
        self.rect.put_fill(&mut ops, p.glass_dark);
        let edge: u32 = if self.focused {
            p.accent
        } else {
            p.glass_border
        };
        self.rect.put_edge(&mut ops, edge);
        let tx: usize = self.rect.x + 6;
        let ty: usize = self.rect.y + 4;
        if self.is_empty() && !self.focused {
            put_text(&mut ops, &self.placeholder, tx, ty, p.text_muted, p.glass_dark);
        } else {
            let columns: usize = self.rect.w.saturating_sub(12) / FONT_WIDTH;
            let start: usize = self.cursor.saturating_sub(columns);
            let len: usize = text::byte_len(&self.value);
            let from: usize = if start < len {
                start
            } else {
                len
            };
            let to: usize = if len - from < columns {
                len
            } else {
                from + columns
            };
            let a: usize = text::char_index(&self.value, from);
            let b: usize = text::char_index(&self.value, to);
            proof {
                if b < a {
                    text::lemma_offset_grows(self.value@, b as int, a as int);
                }
            }
            let visible = text::part(&self.value, a, b);
            put_text(&mut ops, &visible, tx, ty, p.text_primary, p.glass_dark);
            if self.focused {
                if now - self.cursor_blink > 500 {
                    self.cursor_on = !self.cursor_on;
                    self.cursor_blink = now;
                }
                if self.cursor_on {
                    let column: usize = self.cursor.saturating_sub(start);
                    let cx: usize = tx + column * FONT_WIDTH;
                    put(
                        &mut ops,
                        DrawOp::VLine { x: cx, y: ty, h: FONT_HEIGHT, color: p.accent },
                    );
                }
            }
        }
        assert(canvas::inks(ops@) =~= old(self).look(now, *p));
        ops
    }

    /// The mouse was clicked at that point; says whether the field has the focus
    /// now.
    pub fn on_click(&mut self, px: i32, py: i32) -> (r: bool)
        requires
            old(self).rect.wf(),
        ensures
            r == old(self).rect.has(px as int, py as int),
            final(self).focused == r,
            final(self).cursor_blink == (if r && !old(self).focused {
                0
            } else {
                old(self).cursor_blink
            }),
            final(self).cursor_on == (old(self).cursor_on || (r && !old(self).focused)),
            final(self).rect == old(self).rect,
            final(self).value == old(self).value,
            final(self).cursor == old(self).cursor,
            final(self).sel_start == old(self).sel_start,
            final(self).placeholder == old(self).placeholder,
    {
        let was: bool = self.focused;
        self.focused = self.rect.contains(px, py);
        if self.focused && !was {
            self.cursor_blink = 0;
            self.cursor_on = true;
        }
        self.focused
    }

    /// The byte position behind the first `k` characters.
    fn position(&self, k: usize) -> (r: usize)
        requires
            k <= self.value@.len(),
        ensures
            r == text::offset(self.value@, k as int),
    {
        let head = text::part(&self.value, 0, k);
        assert(head@ =~= self.value@.take(k as int));
        text::byte_len(&head)
    }

    /// The text with the characters from place `from` up to place `to` left out, and
    /// with `c` in their place if one is given.
    fn spliced(&self, from: usize, to: usize, c: Option<char>) -> (r: String)
        requires
            from <= to <= self.value@.len(),
        ensures
            r@ == self.value@.take(from as int) + (match c {
                Some(c) => seq![c],
                None => Seq::empty(),
            }) + self.value@.skip(to as int),
    {
        let end: usize = self.value.as_str().unicode_len();
        let mut out = text::part(&self.value, 0, from);
        if let Some(c) = c {
            out.push(c);
        }
        let rest = text::part(&self.value, to, end);
        out.append(rest.as_str());
        assert(out@ =~= self.value@.take(from as int) + (match c {
            Some(c) => seq![c],
            None => Seq::empty(),
        }) + self.value@.skip(to as int));
        out
    }

    /// A key was pressed; the character that came with it is part of the key.
    pub fn on_key(&mut self, key: &Key, ch: Option<char>)
        requires
            old(self).wf(),
        ensures
            final(self).wf(),
            (final(self).value@, final(self).cursor as int) == edited(
                old(self).value@,
                old(self).cursor as int,
                *key,
            ),
            final(self).rect == old(self).rect,
            final(self).sel_start == old(self).sel_start,
            final(self).focused == old(self).focused,
            final(self).placeholder == old(self).placeholder,
            final(self).cursor_blink == old(self).cursor_blink,
            final(self).cursor_on == old(self).cursor_on,
    {
        let at: usize = text::char_index(&self.value, self.cursor);
        let end: usize = self.value.as_str().unicode_len();
        let ghost s = self.value@;
        proof {
            law_cursor_stays_between_characters(s, self.cursor as int, *key);
            if at > 0 {
                text::lemma_offset_step(s, at - 1);
            }
            if at < end {
                text::lemma_offset_step(s, at as int);
            }
        }
        match *key {
            Key::Char(c) => {
                let out = self.spliced(at, at, Some(c));
                self.value = out;
                let longer: usize = self.value.as_str().unicode_len();
                self.cursor = self.position(longer - (end - at));
                proof {
                    let typed = self.value@;
                    assert(typed =~= s.insert(at as int, c));
                    assert(typed.take(at as int) =~= s.take(at as int));
                    text::lemma_offset_step(typed, at as int);
                }
            },
            Key::Backspace => {
                if at > 0 {
                    self.cursor = self.position(at - 1);
                    let out = self.spliced(at - 1, at, None);
                    self.value = out;
                    assert(self.value@ =~= s.remove(at - 1));
                }
            },
            Key::Delete => {
                if at < end {
                    let out = self.spliced(at, at + 1, None);
                    self.value = out;
                    assert(self.value@ =~= s.remove(at as int));
                }
            },
            Key::Left => {
                if at > 0 {
                    self.cursor = self.position(at - 1);
                }
            },
            Key::Right => {
                if at < end {
                    self.cursor = self.position(at + 1);
                }
            },
            Key::Home => {
                self.cursor = 0;
            },
            Key::End => {
                self.cursor = text::byte_len(&self.value);
            },
            _ => {},
        }
    }
}

/// Whatever key is pressed, the cursor stands between two characters afterwards, or at
/// an end of the text, so that the next key can be handled.
pub proof fn law_cursor_stays_between_characters(s: Seq<char>, cursor: int, key: Key)
    requires
        text::is_boundary(s, cursor),
    ensures
        text::is_boundary(edited(s, cursor, key).0, edited(s, cursor, key).1),
        0 <= edited(s, cursor, key).1 <= bytes(edited(s, cursor, key).0),
{
    let (next, to) = edited(s, cursor, key);
    let at = text::place(s, cursor);
    let k = lemma_edited_place(s, cursor, key);
    text::lemma_place(next, k);
    assert(next.take(next.len() as int) =~= next);
    if k < next.len() {
        text::lemma_offset_grows(next, k, next.len() as int);
    }
}

/// How many characters stand before the cursor after a key.
proof fn lemma_edited_place(s: Seq<char>, cursor: int, key: Key) -> (k: int)
    requires
        text::is_boundary(s, cursor),
    ensures
        0 <= k <= edited(s, cursor, key).0.len(),
        text::offset(edited(s, cursor, key).0, k) == edited(s, cursor, key).1,
{
    let (next, to) = edited(s, cursor, key);
    let at = text::place(s, cursor);
    if at > 0 {
        text::lemma_offset_step(s, at - 1);
    }
    if at < s.len() {
        text::lemma_offset_step(s, at);
    }
    match key {
        Key::Char(c) => {
            assert(next.take(at) =~= s.take(at));
            text::lemma_offset_step(next, at);
            at + 1
        },
        Key::Backspace => if at > 0 {
            assert(next.take(at - 1) =~= s.take(at - 1));
            at - 1
        } else {
            at
        },
        Key::Delete => {
            assert(next.take(at) =~= s.take(at));
            at
        },
        Key::Left => if at > 0 {
            at - 1
        } else {
            at
        },
        Key::Right => if at < s.len() {
            at + 1
        } else {
            at
        },
        Key::Home => {
            assert(s.take(0) =~= Seq::<char>::empty());
            0
        },
        Key::End => {
            assert(s.take(s.len() as int) =~= s);
            s.len() as int
        },
        _ => at,
    }
}

/// Backspace takes back what was just typed.
pub proof fn law_backspace_undoes_typing(s: Seq<char>, cursor: int, c: char)
    requires
        text::is_boundary(s, cursor),
    ensures
        ({
            let (typed, at) = edited(s, cursor, Key::Char(c));
            edited(typed, at, Key::Backspace) == (s, cursor)
        }),
{
    let k = text::place(s, cursor);
    let (typed, at) = edited(s, cursor, Key::Char(c));
    assert(typed.take(k) =~= s.take(k));
    text::lemma_offset_step(typed, k);
    text::lemma_place(typed, k + 1);
    assert(typed.remove(k) =~= s);
}

/// Going left takes the cursor back over the character that it went right over.
pub proof fn law_left_undoes_right(s: Seq<char>, cursor: int)
    requires
        text::is_boundary(s, cursor),
        cursor < bytes(s),
    ensures
        edited(s, edited(s, cursor, Key::Right).1, Key::Left) == (s, cursor),
{
    let k = text::place(s, cursor);
    assert(0 <= k <= s.len() && text::offset(s, k) == cursor);
    assert(k < s.len()) by {
        assert(s.take(s.len() as int) =~= s);
    }
    text::lemma_offset_step(s, k);
    text::lemma_place(s, k + 1);
    assert(edited(s, cursor, Key::Right).1 == text::offset(s, k + 1));
    assert(text::place(s, text::offset(s, k + 1)) == k + 1);
}

// ---------------------------------------------------------------------------
// Label, progress bar, check box
// ---------------------------------------------------------------------------

pub fn draw_label(s: &str, x: usize, y: usize, color: u32, bg: u32) -> (r: Vec<DrawOp>)
    ensures
        canvas::inks(r@) == seq![Ink::Text { text: s@, x: x as int, y: y as int, fg: color, bg }],
{
    let mut ops = blank();
    put_text(&mut ops, s, x, y, color, bg);
    assert(canvas::inks(ops@) =~= seq![Ink::Text { text: s@, x: x as int, y: y as int, fg: color, bg }]);
    ops
}

/// A bar of which a part is filled.
#[derive(Debug, Clone, Copy)]
pub struct ProgressBar {
    pub rect: Rect,
    /// Filled pixels, from the left.
    pub filled: usize,
    pub color: u32,
}

impl ProgressBar {
    pub open spec fn look(self) -> Seq<Ink> {
        let frame = seq![self.rect.fill(COLOR_DISABLED), self.rect.edge(COLOR_EDGE)];
        if self.filled > 0 {
            frame.push(
                Ink::FillRounded {
                    x: self.rect.x + 1,
                    y: self.rect.y + 1,
                    w: gap(self.filled as int, 2),
                    h: gap(self.rect.h as int, 2),
                    color: self.color,
                    radius: 3,
                },
            )
        } else {
            frame
        }
    }

    pub fn new(x: usize, y: usize, w: usize, h: usize, p: &Palette) -> (r: Self)
        ensures
            r == (ProgressBar { rect: Rect { x, y, w, h }, filled: 0, color: p.accent }),
    {
        ProgressBar { rect: Rect { x, y, w, h }, filled: 0, color: p.accent }
    }

    pub fn draw(&self) -> (r: Vec<DrawOp>)
        requires
            self.filled > 0 ==> self.rect.x < usize::MAX && self.rect.y < usize::MAX,
        ensures
            canvas::inks(r@) == self.look(),
    {
        let mut ops = blank();
        self.rect.put_fill(&mut ops, COLOR_DISABLED);
        self.rect.put_edge(&mut ops, COLOR_EDGE);
        if self.filled > 0 {
            put(
                &mut ops,
                DrawOp::FillRounded {
                    x: self.rect.x + 1,
                    y: self.rect.y + 1,
                    w: self.filled.saturating_sub(2),
                    h: self.rect.h.saturating_sub(2),
                    color: self.color,
                    radius: 3,
                },
            );
        }
        assert(canvas::inks(ops@) =~= self.look());
        ops
    }

    /// Fills that many pixels, at most all of them.
    pub fn set(&mut self, filled: usize)
        ensures
            *final(self) == (ProgressBar {
                filled: if filled < old(self).rect.w {
                    filled
                } else {
                    old(self).rect.w
                },
                ..*old(self)
            }),
    {
        self.filled = if filled < self.rect.w {
            filled
        } else {
            self.rect.w
        };
    }
}

/// A box that is checked or not, with a label to its right.
#[derive(Debug)]
pub struct Checkbox {
    pub rect: Rect,
    pub checked: bool,
    pub label: String,
}

impl Checkbox {
    pub open spec fn look(self, p: Palette) -> Seq<Ink> {
        let size = self.rect.w;
        let square = Rect { h: size, ..self.rect };
        let frame = seq![
            square.fill(p.glass_dark),
            square.edge(
                if self.checked {
                    p.accent
                } else {
                    p.glass_border
                },
            ),
        ];
        let mark = seq![
            Ink::HLine {
                x: self.rect.x + 2,
                y: self.rect.y + size / 2,
                w: size - 4,
                color: p.accent,
            },
            Ink::VLine {
                x: self.rect.x + size / 2,
                y: self.rect.y + 2,
                h: size - 4,
                color: p.accent,
            },
        ];
        let label = seq![
            Ink::Text {
                text: self.label@,
                x: self.rect.x + size + 6,
                y: self.rect.y + (size - FONT_HEIGHT) / 2,
                fg: p.text_primary,
                bg: p.glass_dark,
            },
        ];
        if self.checked {
            frame + mark + label
        } else {
            frame + label
        }
    }

    pub fn new(x: usize, y: usize, label: &str) -> (r: Self)
        ensures
            r.rect == (Rect { x, y, w: FONT_HEIGHT, h: FONT_HEIGHT }),
            !r.checked,
            r.label@ == label@,
    {
        Checkbox {
            rect: Rect { x, y, w: FONT_HEIGHT, h: FONT_HEIGHT },
            checked: false,
            label: label.to_owned(),
        }
    }

    pub fn draw(&self, p: &Palette) -> (r: Vec<DrawOp>)
        requires
            self.rect.w >= FONT_HEIGHT,
            self.rect.x + self.rect.w + 6 <= usize::MAX,
            self.rect.y + self.rect.w / 2 <= usize::MAX,
        ensures
            canvas::inks(r@) == self.look(*p),
    {
        let size: usize = self.rect.w;
        let square = Rect { x: self.rect.x, y: self.rect.y, w: size, h: size };
        let mut ops = blank();
        square.put_fill(&mut ops, p.glass_dark);
        let edge: u32 = if self.checked {
            p.accent
        } else {
            p.glass_border
        };
        square.put_edge(&mut ops, edge);
        if self.checked {
            put(
                &mut ops,
                DrawOp::HLine {
                    x: self.rect.x + 2,
                    y: self.rect.y + size / 2,
                    w: size - 4,
                    color: p.accent,
                },
            );
            put(
                &mut ops,
                DrawOp::VLine {
                    x: self.rect.x + size / 2,
                    y: self.rect.y + 2,
                    h: size - 4,
                    color: p.accent,
                },
            );
        }
        let tx: usize = self.rect.x + size + 6;
        let ty: usize = self.rect.y + (size - FONT_HEIGHT) / 2;
        put_text(&mut ops, &self.label, tx, ty, p.text_primary, p.glass_dark);
        assert(canvas::inks(ops@) =~= self.look(*p));
        ops
    }

    /// The mouse was clicked at that point; says whether the box was toggled.
    pub fn on_click(&mut self, px: i32, py: i32) -> (r: bool)
        requires
            old(self).rect.wf(),
        ensures
            r == old(self).rect.has(px as int, py as int),
            final(self).checked == (old(self).checked != r),
            final(self).rect == old(self).rect,
            final(self).label == old(self).label,
    {
        if self.rect.contains(px, py) {
            self.checked = !self.checked;
            true
        } else {
            false
        }
    }
}

// ---------------------------------------------------------------------------
// Scroll view
// ---------------------------------------------------------------------------

/// A view of content that is higher than the view.
#[derive(Debug, Clone, Copy)]
pub struct ScrollView {
    pub rect: Rect,
    /// Height of the content in pixels.
    pub content_h: usize,
    /// How far the content is scrolled.
    pub scroll_y: usize,
    pub thumb_drag: bool,
    pub drag_start: (i32, i32),
    pub drag_scroll: usize,
}

/// How far a content of height `content` goes in a view of height `h`, scrolled by
/// `dy` steps of 20 pixels from `at`.
pub open spec fn scrolled(at: int, dy: int, content: int, h: int) -> int {
    if dy < 0 {
        gap(at, -dy * 20)
    } else if at + dy * 20 < gap(content, h) {
        at + dy * 20
    } else {
        gap(content, h)
    }
}

/// The height of the thumb of a scroll bar of height `h`.
pub open spec fn thumb_h(content: int, h: int) -> int {
    larger(h * h / content, 20)
}

impl ScrollView {
    pub open spec fn look(self, p: Palette) -> Seq<Ink> {
        let track_x = self.rect.x + self.rect.w - SCROLL_W;
        let track = seq![
            Ink::Fill {
                x: track_x,
                y: self.rect.y as int,
                w: SCROLL_W as int,
                h: self.rect.h as int,
                color: p.glass_dark,
            },
        ];
        if self.content_h > self.rect.h {
            track.push(
                Ink::FillRounded {
                    x: track_x + 1,
                    y: self.rect.y + self.scroll_y * self.rect.h / self.content_h as int,
                    w: SCROLL_W - 2,
                    h: thumb_h(self.content_h as int, self.rect.h as int),
                    color: if self.thumb_drag {
                        p.glass_hover
                    } else {
                        p.glass_border
                    },
                    radius: 3,
                },
            )
        } else {
            track
        }
    }

    pub fn new(x: usize, y: usize, w: usize, h: usize) -> (r: Self)
        ensures
            r == (ScrollView {
                rect: Rect { x, y, w, h },
                content_h: h,
                scroll_y: 0,
                thumb_drag: false,
                drag_start: (0, 0),
                drag_scroll: 0,
            }),
    {
        ScrollView {
            rect: Rect { x, y, w, h },
            content_h: h,
            scroll_y: 0,
            thumb_drag: false,
            drag_start: (0, 0),
            drag_scroll: 0,
        }
    }

    /// Scrolls by `dy` steps, up where it is negative.
    pub fn scroll_by(&mut self, dy: i32)
        requires
            -dy * 20 <= usize::MAX,
            dy > i32::MIN,
            old(self).scroll_y + dy * 20 <= usize::MAX,
        ensures
            *final(self) == (ScrollView {
                scroll_y: scrolled(
                    old(self).scroll_y as int,
                    dy as int,
                    old(self).content_h as int,
                    old(self).rect.h as int,
                ) as usize,
                ..*old(self)
            }),
    {
        if dy < 0 {
            self.scroll_y = self.scroll_y.saturating_sub((-dy) as usize * 20);
        } else {
            let most: usize = self.content_h.saturating_sub(self.rect.h);
            let next: usize = self.scroll_y + dy as usize * 20;
            self.scroll_y = if next < most {
                next
            } else {
                most
            };
        }
    }

    /// Draws the scroll bar: its track and, where there is something to scroll, its
    /// thumb.
    pub fn draw_scrollbar(&self, p: &Palette) -> (r: Vec<DrawOp>)
        requires
            SCROLL_W <= self.rect.x + self.rect.w <= usize::MAX,
            self.content_h > self.rect.h ==> self.rect.h * self.rect.h <= usize::MAX
                && self.scroll_y * self.rect.h <= usize::MAX && self.rect.y + self.scroll_y
                * self.rect.h / self.content_h as int <= usize::MAX,
        ensures
            canvas::inks(r@) == self.look(*p),
    {
        let track_x: usize = self.rect.x + self.rect.w - SCROLL_W;
        let mut ops = blank();
        put(
            &mut ops,
            DrawOp::Fill {
                x: track_x,
                y: self.rect.y,
                w: SCROLL_W,
                h: self.rect.h,
                color: p.glass_dark,
            },
        );
        if self.content_h > self.rect.h {
            let h: usize = max_of(self.rect.h * self.rect.h / self.content_h, 20);
            let y: usize = self.rect.y + self.scroll_y * self.rect.h / self.content_h;
            let color: u32 = if self.thumb_drag {
                p.glass_hover
            } else {
                p.glass_border
            };
            put(
                &mut ops,
                DrawOp::FillRounded { x: track_x + 1, y, w: SCROLL_W - 2, h, color, radius: 3 },
            );
        }
        assert(canvas::inks(ops@) =~= self.look(*p));
        ops
    }

    /// The part of the view beside the scroll bar.
    pub fn viewport(&self) -> (r: Rect)
        requires
            self.rect.w >= SCROLL_W,
        ensures
            r == (Rect { w: (self.rect.w - SCROLL_W) as usize, ..self.rect }),
    {
        Rect { x: self.rect.x, y: self.rect.y, w: self.rect.w - SCROLL_W, h: self.rect.h }
    }
}

/// A view never scrolls past the end of its content, nor before its start.
pub proof fn law_scroll_stays_in_content(at: int, dy: int, content: int, h: int)
    requires
        0 <= at <= gap(content, h),
    ensures
        0 <= scrolled(at, dy, content, h) <= gap(content, h),
{
}

/// The thumb is on its track, wherever the content is scrolled to (save for a
/// content so high that the thumb has its least height).
pub proof fn law_thumb_stays_on_track(at: int, content: int, h: int)
    requires
        0 < h < content,
        0 <= at <= content - h,
        h * h / content >= 20,
    ensures
        0 <= at * h / content,
        at * h / content + thumb_h(content, h) <= h,
{
    let (p, q) = (at * h, h * h);
    let (a, b) = (p / content, q / content);
    assert(p >= 0 && p + q <= content * h) by (nonlinear_arith)
        requires
            p == at * h,
            q == h * h,
            0 <= at <= content - h,
            h > 0,
    ;
    assert(a >= 0 && content * a <= p && content * b <= q) by (nonlinear_arith)
        requires
            a == p / content,
            b == q / content,
            content > 0,
            p >= 0,
    ;
    assert(a + b <= h) by (nonlinear_arith)
        requires
            content * a <= p,
            content * b <= q,
            p + q <= content * h,
            content > 0,
    ;
}

// ---------------------------------------------------------------------------
// Slider, tooltip
// ---------------------------------------------------------------------------

/// A knob on a bar. What its place stands for is up to its owner.
#[derive(Debug, Clone, Copy)]
pub struct Slider {
    pub rect: Rect,
    pub dragging: bool,
    pub color: u32,
}

impl Slider {
    pub open spec fn look(self, filled: int, percent: Seq<char>, p: Palette) -> Seq<Ink> {
        let bar = Rect { y: (self.rect.y + 7) as usize, h: 6, ..self.rect };
        let part = seq![
            Ink::Fill {
                x: self.rect.x as int,
                y: self.rect.y + 7,
                w: filled,
                h: 6,
                color: self.color,
            },
        ];
        seq![bar.fill(COLOR_DISABLED), bar.edge(COLOR_EDGE)] + (if filled > 0 {
            part
        } else {
            Seq::empty()
        }) + seq![
            Ink::FillRounded {
                x: gap(self.rect.x + filled, 8),
                y: self.rect.y + 2,
                w: 16,
                h: 16,
                color: COLOR_KNOB,
                radius: 8,
            },
            Ink::Text {
                text: percent.push('%'),
                x: self.rect.x + self.rect.w + 8,
                y: self.rect.y + 2,
                fg: p.text_secondary,
                bg: p.glass_dark,
            },
        ]
    }

    pub fn new(x: usize, y: usize, w: usize, p: &Palette) -> (r: Self)
        ensures
            r == (Slider { rect: Rect { x, y, w, h: 20 }, dragging: false, color: p.accent }),
    {
        Slider { rect: Rect { x, y, w, h: 20 }, dragging: false, color: p.accent }
    }

    /// Draws the bar, filled that many pixels, and the value in percent.
    pub fn draw(&self, filled: usize, percent: u32, p: &Palette) -> (r: Vec<DrawOp>)
        requires
            self.rect.x + filled <= usize::MAX,
            self.rect.x + self.rect.w + 8 <= usize::MAX,
            self.rect.y + 7 <= usize::MAX,
        ensures
            canvas::inks(r@) == self.look(filled as int, text::decimal(percent as nat), *p),
    {
        let bar = Rect { x: self.rect.x, y: self.rect.y + 7, w: self.rect.w, h: 6 };
        let mut ops = blank();
        bar.put_fill(&mut ops, COLOR_DISABLED);
        bar.put_edge(&mut ops, COLOR_EDGE);
        if filled > 0 {
            put(
                &mut ops,
                DrawOp::Fill {
                    x: self.rect.x,
                    y: self.rect.y + 7,
                    w: filled,
                    h: 6,
                    color: self.color,
                },
            );
        }
        put(
            &mut ops,
            DrawOp::FillRounded {
                x: (self.rect.x + filled).saturating_sub(8),
                y: self.rect.y + 2,
                w: 16,
                h: 16,
                color: COLOR_KNOB,
                radius: 8,
            },
        );
        let mut label = text::decimal_of(percent as u64);
        label.push('%');
        let lx: usize = self.rect.x + self.rect.w + 8;
        put_text(&mut ops, &label, lx, self.rect.y + 2, p.text_secondary, p.glass_dark);
        assert(canvas::inks(ops@) =~= self.look(filled as int, text::decimal(percent as nat), *p));
        ops
    }

    /// Whether the knob is held after the mouse was seen at that point.
    pub open spec fn held(self, px: int, py: int, pressed: bool) -> bool {
        pressed && (self.dragging || self.rect.has(px, py))
    }

    /// The mouse is at that point, its button down or not. While the knob is held,
    /// the result is its new place: pixels from the left end of the bar.
    pub fn on_mouse(&mut self, px: i32, py: i32, pressed: bool) -> (r: Option<usize>)
        requires
            old(self).rect.wf(),
            low_i32(old(self).rect.w as int) >= 0,
            i32::MIN <= px - low_i32(old(self).rect.x as int) <= i32::MAX,
        ensures
            *final(self) == (Slider {
                dragging: old(self).held(px as int, py as int, pressed),
                ..*old(self)
            }),
            r == (if old(self).held(px as int, py as int, pressed) && old(self).rect.w > 0 {
                let at = px - low_i32(old(self).rect.x as int);
                let end = low_i32(old(self).rect.w as int);
                Some(
                    (if at < 0 {
                        0
                    } else if at > end {
                        end
                    } else {
                        at
                    }) as usize,
                )
            } else {
                None
            }),
    {
        if pressed && self.rect.contains(px, py) {
            self.dragging = true;
        }
        if !pressed {
            self.dragging = false;
        }
        if self.dragging && self.rect.w > 0 {
            let at: i32 = px - to_i32(self.rect.x);
            let end: i32 = to_i32(self.rect.w);
            let place: i32 = if at < 0 {
                0
            } else if at > end {
                end
            } else {
                at
            };
            return Some(place as usize);
        }
        None
    }
}

/// A short text above a point.
#[derive(Debug)]
pub struct Tooltip {
    pub text: String,
    pub visible: bool,
    pub x: usize,
    pub y: usize,
}

impl Tooltip {
    pub open spec fn look(self, p: Palette) -> Seq<Ink> {
        let area = Rect {
            x: self.x,
            y: gap(self.y as int, 28) as usize,
            w: (text_w(self.text@) + 12) as usize,
            h: 24,
        };
        if self.visible {
            seq![
                area.rounded(COLOR_LINE, 4),
                area.edge(COLOR_TIP_EDGE),
                Ink::Text {
                    text: self.text@,
                    x: self.x + 6,
                    y: gap(self.y as int, 28) + 4,
                    fg: p.text_primary,
                    bg: COLOR_LINE,
                },
            ]
        } else {
            Seq::empty()
        }
    }

    pub fn new(s: &str) -> (r: Self)
        ensures
            r.text@ == s@,
            !r.visible,
            r.x == 0,
            r.y == 0,
    {
        Tooltip { text: s.to_owned(), visible: false, x: 0, y: 0 }
    }

    pub fn show(&mut self, x: usize, y: usize)
        ensures
            final(self).text == old(self).text,
            final(self).visible,
            final(self).x == x,
            final(self).y == y,
    {
        self.visible = true;
        self.x = x;
        self.y = y;
    }

    pub fn dismiss(&mut self)
        ensures
            final(self).text == old(self).text,
            !final(self).visible,
            final(self).x == old(self).x,
            final(self).y == old(self).y,
    {
        self.visible = false;
    }

    pub fn draw(&self, p: &Palette) -> (r: Vec<DrawOp>)
        requires
            self.visible ==> text_w(self.text@) + 12 <= usize::MAX && self.x + 6 <= usize::MAX,
        ensures
            canvas::inks(r@) == self.look(*p),
    {
        let mut ops = blank();
        if !self.visible {
            return ops;
        }
        let w: usize = width_of(&self.text) + 12;
        let h: usize = FONT_HEIGHT + 8;
        let top: usize = self.y.saturating_sub(h + 4);
        let area = Rect { x: self.x, y: top, w, h };
        area.put_rounded(&mut ops, COLOR_LINE, 4);
        area.put_edge(&mut ops, COLOR_TIP_EDGE);
        put_text(&mut ops, &self.text, self.x + 6, top + 4, p.text_primary, COLOR_LINE);
        assert(canvas::inks(ops@) =~= self.look(*p));
        ops
    }
}

// ---------------------------------------------------------------------------
// Dropdown
// ---------------------------------------------------------------------------

/// A list of which one item is shown, and all while it is open.
#[derive(Debug)]
pub struct Dropdown {
    pub rect: Rect,
    pub items: Vec<String>,
    pub selected: usize,
    pub open: bool,
}

/// What the first `n` rows of an open list look like.
pub open spec fn list_rows(
    rect: Rect,
    items: Seq<Seq<char>>,
    selected: int,
    n: int,
    p: Palette,
) -> Seq<Ink>
    decreases n,
{
    if n <= 0 {
        Seq::empty()
    } else {
        let i = n - 1;
        let y = rect.y + rect.h + 2 + i * ITEM_H;
        let before = list_rows(rect, items, selected, n - 1, p);
        let label = Ink::Text {
            text: items[i],
            x: rect.x + 8,
            y: y + 3,
            fg: if i == selected {
                p.text_primary
            } else {
                p.text_secondary
            },
            bg: if i == selected {
                COLOR_CHOSEN
            } else {
                COLOR_LIST
            },
        };
        if i == selected {
            before.push(
                Ink::Fill {
                    x: rect.x + 2,
                    y,
                    w: rect.w - 4,
                    h: ITEM_H - 1,
                    color: COLOR_CHOSEN,
                },
            ).push(label)
        } else {
            before.push(label)
        }
    }
}

/// The first row from `i` on at the point, in a list of `n`.
pub open spec fn row_at(rect: Rect, n: int, px: int, py: int, i: int) -> Option<int>
    decreases n - i,
{
    if i >= n {
        None
    } else if (Rect {
        x: rect.x,
        y: (rect.y + rect.h + 2 + i * ITEM_H) as usize,
        w: rect.w,
        h: ITEM_H,
    }).has(px, py) {
        Some(i)
    } else {
        row_at(rect, n, px, py, i + 1)
    }
}

impl Dropdown {
    /// The list can be written down below its field.
    pub open spec fn fits(self) -> bool {
        &&& self.rect.wf()
        &&& self.rect.y + self.rect.h + 4 + self.items@.len() * ITEM_H <= usize::MAX
    }

    pub open spec fn field_look(self, p: Palette) -> Seq<Ink> {
        let frame = seq![self.rect.rounded(p.glass, 5), self.rect.edge(COLOR_EDGE)];
        let chosen = seq![
            Ink::Text {
                text: self.items@[self.selected as int]@,
                x: self.rect.x + 8,
                y: self.rect.y + 4,
                fg: p.text_primary,
                bg: p.glass,
            },
        ];
        let (ax, ay) = (self.rect.x + self.rect.w - 20, self.rect.y + self.rect.h / 2);
        let arrow = seq![
            Ink::Fill { x: ax, y: ay - 1, w: 8, h: 2, color: p.text_secondary },
            Ink::Fill { x: ax + 2, y: ay + 1, w: 4, h: 2, color: p.text_secondary },
            Ink::Fill { x: ax + 4, y: ay + 3, w: 0, h: 0, color: p.text_secondary },
        ];
        frame + (if self.selected < self.items@.len() {
            chosen
        } else {
            Seq::empty()
        }) + arrow
    }

    pub open spec fn list_look(self, p: Palette) -> Seq<Ink> {
        let area = Rect {
            y: (self.rect.y + self.rect.h) as usize,
            h: (self.items@.len() * ITEM_H + 4) as usize,
            ..self.rect
        };
        seq![area.rounded(COLOR_LIST, 5), area.edge(COLOR_EDGE)] + list_rows(
            self.rect,
            texts(self.items@),
            self.selected as int,
            self.items@.len() as int,
            p,
        )
    }

    pub open spec fn look(self, p: Palette) -> Seq<Ink> {
        if self.open {
            self.field_look(p) + self.list_look(p)
        } else {
            self.field_look(p)
        }
    }

    pub fn new(x: usize, y: usize, w: usize, items: Vec<String>) -> (r: Self)
        ensures
            r.rect == (Rect { x, y, w, h: 24 }),
            r.items == items,
            r.selected == 0,
            !r.open,
    {
        Dropdown { rect: Rect { x, y, w, h: FONT_HEIGHT + 8 }, items, selected: 0, open: false }
    }

    fn draw_list(&self, ops: &mut Vec<DrawOp>, p: &Palette)
        requires
            self.fits(),
            self.rect.x + 8 <= usize::MAX,
            self.selected < self.items@.len() ==> self.rect.w >= 4,
        ensures
            canvas::inks(final(ops)@) == canvas::inks(old(ops)@) + self.list_look(*p),
    {
        let top: usize = self.rect.y + self.rect.h;
        let area = Rect {
            x: self.rect.x,
            y: top,
            w: self.rect.w,
            h: self.items.len() * ITEM_H + 4,
        };
        area.put_rounded(ops, COLOR_LIST, 5);
        area.put_edge(ops, COLOR_EDGE);
        let ghost base = canvas::inks(ops@);
        let mut i: usize = 0;
        assert(canvas::inks(ops@) =~= base + list_rows(
            self.rect,
            texts(self.items@),
            self.selected as int,
            0,
            *p,
        ));
        while i < self.items.len()
            invariant
                i <= self.items@.len(),
                self.fits(),
                top == self.rect.y + self.rect.h,
                self.rect.x + 8 <= usize::MAX,
                self.selected < self.items@.len() ==> self.rect.w >= 4,
                canvas::inks(ops@) == base + list_rows(
                    self.rect,
                    texts(self.items@),
                    self.selected as int,
                    i as int,
                    *p,
                ),
            decreases self.items@.len() - i,
        {
            let y: usize = top + 2 + i * ITEM_H;
            if i == self.selected {
                put(
                    ops,
                    DrawOp::Fill {
                        x: self.rect.x + 2,
                        y,
                        w: self.rect.w - 4,
                        h: ITEM_H - 1,
                        color: COLOR_CHOSEN,
                    },
                );
                put_text(
                    ops,
                    &self.items[i],
                    self.rect.x + 8,
                    y + 3,
                    p.text_primary,
                    COLOR_CHOSEN,
                );
            } else {
                put_text(
                    ops,
                    &self.items[i],
                    self.rect.x + 8,
                    y + 3,
                    p.text_secondary,
                    COLOR_LIST,
                );
            }
            i += 1;
            assert(canvas::inks(ops@) =~= base + list_rows(
                self.rect,
                texts(self.items@),
                self.selected as int,
                i as int,
                *p,
            ));
        }
        assert(canvas::inks(ops@) =~= canvas::inks(old(ops)@) + self.list_look(*p));
    }

    pub fn draw(&self, p: &Palette) -> (r: Vec<DrawOp>)
        requires
            self.fits(),
            self.rect.x + 8 <= usize::MAX,
            self.rect.x + self.rect.w >= 20,
            1 <= self.rect.y + self.rect.h / 2 <= usize::MAX - 3,
            self.open && self.selected < self.items@.len() ==> self.rect.w >= 4,
        ensures
            canvas::inks(r@) == self.look(*p),
    {
        let mut ops = blank();
        self.rect.put_rounded(&mut ops, p.glass, 5);
        self.rect.put_edge(&mut ops, COLOR_EDGE);
        if self.selected < self.items.len() {
            put_text(
                &mut ops,
                &self.items[self.selected],
                self.rect.x + 8,
                self.rect.y + 4,
                p.text_primary,
                p.glass,
            );
        }
        let ax: usize = self.rect.x + self.rect.w - 20;
        let ay: usize = self.rect.y + self.rect.h / 2;
        let color: u32 = p.text_secondary;
        put(&mut ops, DrawOp::Fill { x: ax, y: ay - 1, w: 8, h: 2, color });
        put(&mut ops, DrawOp::Fill { x: ax + 2, y: ay + 1, w: 4, h: 2, color });
        put(&mut ops, DrawOp::Fill { x: ax + 4, y: ay + 3, w: 0, h: 0, color });
        assert(canvas::inks(ops@) =~= self.field_look(*p));
        if self.open {
            self.draw_list(&mut ops, p);
        }
        ops
    }

    /// The item that a click at the point chooses.
    pub open spec fn chosen_at(self, px: int, py: int) -> Option<int> {
        if self.open && !self.rect.has(px, py) {
            row_at(self.rect, self.items@.len() as int, px, py, 0)
        } else {
            None
        }
    }

    /// The mouse was clicked at that point. The field opens and closes the list; an
    /// item is chosen and closes it; a click elsewhere closes it.
    pub fn on_click(&mut self, px: i32, py: i32) -> (r: Option<usize>)
        requires
            old(self).fits(),
        ensures
            r == (match old(self).chosen_at(px as int, py as int) {
                Some(i) => Some(i as usize),
                None => None,
            }),
            final(self).selected == (match r {
                Some(i) => i,
                None => old(self).selected,
            }),
            final(self).open == (!old(self).open && old(self).rect.has(px as int, py as int)),
            final(self).rect == old(self).rect,
            final(self).items == old(self).items,
    {
        if self.rect.contains(px, py) {
            self.open = !self.open;
            return None;
        }
        if self.open {
            let top: usize = self.rect.y + self.rect.h;
            let mut i: usize = 0;
            while i < self.items.len()
                invariant
                    i <= self.items@.len(),
                    *self == *old(self),
                    self.fits(),
                    self.open,
                    top == self.rect.y + self.rect.h,
                    !self.rect.has(px as int, py as int),
                    self.chosen_at(px as int, py as int) == row_at(
                        self.rect,
                        self.items@.len() as int,
                        px as int,
                        py as int,
                        i as int,
                    ),
                decreases self.items@.len() - i,
            {
                let row = Rect {
                    x: self.rect.x,
                    y: top + 2 + i * ITEM_H,
                    w: self.rect.w,
                    h: ITEM_H,
                };
                if row.contains(px, py) {
                    self.selected = i;
                    self.open = false;
                    return Some(i);
                }
                i += 1;
            }
            self.open = false;
        }
        None
    }
}

/// A row that is chosen is one of the list, and the point is on it.
pub proof fn law_chosen_row_is_under_the_point(rect: Rect, n: int, px: int, py: int, from: int)
    requires
        0 <= from,
    ensures
        row_at(rect, n, px, py, from) matches Some(i) ==> from <= i < n && (Rect {
            x: rect.x,
            y: (rect.y + rect.h + 2 + i * ITEM_H) as usize,
            w: rect.w,
            h: ITEM_H,
        }).has(px, py),
    decreases n - from,
{
    if from < n {
        law_chosen_row_is_under_the_point(rect, n, px, py, from + 1);
    }
}

// ---------------------------------------------------------------------------
// Menu bar
// ---------------------------------------------------------------------------

#[derive(Debug)]
pub struct MenuItem {
    pub label: String,
    pub items: Vec<String>,
}

/// A menu: its label and the texts of its items.
#[verifier::ext_equal]
pub struct Menu {
    pub label: Seq<char>,
    pub items: Seq<Seq<char>>,
}

impl View for MenuItem {
    type V = Menu;

    open spec fn view(&self) -> Menu {
        Menu { label: self.label@, items: texts(self.items@) }
    }
}

pub open spec fn menus_of(v: Seq<MenuItem>) -> Seq<Menu> {
    Seq::new(v.len(), |i: int| v[i]@)
}

/// A bar of menus of which at most one is open.
#[derive(Debug)]
pub struct MenuBar {
    pub rect: Rect,
    pub menus: Vec<MenuItem>,
    pub active: Option<usize>,
}

impl Menu {
    /// Width of the label with its margins.
    pub open spec fn label_w(self) -> int {
        text_w(self.label) + 16
    }

    pub open spec fn list_w(self) -> int {
        larger(self.label_w(), MENU_W as int)
    }
}

/// Where the label of menu `n` starts in a bar that starts at `x`.
pub open spec fn menu_x(menus: Seq<Menu>, x: int, n: int) -> int
    decreases n,
{
    if n <= 0 {
        x + 8
    } else {
        menu_x(menus, x, n - 1) + menus[n - 1].label_w()
    }
}

/// What the first `n` items of an open menu look like.
pub open spec fn menu_rows(bar: Rect, menu: Menu, lx: int, n: int, p: Palette) -> Seq<Ink>
    decreases n,
{
    if n <= 0 {
        Seq::empty()
    } else {
        let y = bar.y + bar.h + 2 + (n - 1) * ITEM_H;
        menu_rows(bar, menu, lx, n - 1, p).push(
            if menu.items[n - 1] == SEPARATOR@ {
                Ink::HLine {
                    x: lx,
                    y: y + ITEM_H as int / 2,
                    w: menu.list_w() - 8,
                    color: COLOR_EDGE,
                }
            } else {
                Ink::Text {
                    text: menu.items[n - 1],
                    x: lx + 4,
                    y: y + 3,
                    fg: p.text_secondary,
                    bg: COLOR_LIST,
                }
            },
        )
    }
}

/// What a menu looks like whose label starts at `lx`.
pub open spec fn menu_look(bar: Rect, menu: Menu, lx: int, active: bool, p: Palette) -> Seq<Ink> {
    if active {
        let list = Rect {
            x: (lx - 4) as usize,
            y: (bar.y + bar.h) as usize,
            w: menu.list_w() as usize,
            h: (menu.items.len() * ITEM_H + 4) as usize,
        };
        seq![
            Ink::Fill {
                x: lx - 4,
                y: bar.y + 1,
                w: menu.label_w(),
                h: bar.h - 2,
                color: COLOR_CHOSEN,
            },
            Ink::Text {
                text: menu.label,
                x: lx + 4,
                y: bar.y + 4,
                fg: p.text_primary,
                bg: COLOR_CHOSEN,
            },
            list.rounded(COLOR_LIST, 5),
            list.edge(COLOR_EDGE),
        ] + menu_rows(bar, menu, lx, menu.items.len() as int, p)
    } else {
        seq![
            Ink::Text {
                text: menu.label,
                x: lx + 4,
                y: bar.y + 4,
                fg: p.text_secondary,
                bg: COLOR_DISABLED,
            },
        ]
    }
}

/// What the first `n` menus of a bar look like.
pub open spec fn menus_look(
    bar: Rect,
    menus: Seq<Menu>,
    active: Option<usize>,
    n: int,
    p: Palette,
) -> Seq<Ink>
    decreases n,
{
    if n <= 0 {
        Seq::empty()
    } else {
        menus_look(bar, menus, active, n - 1, p) + menu_look(
            bar,
            menus[n - 1],
            menu_x(menus, bar.x as int, n - 1),
            active == Some((n - 1) as usize),
            p,
        )
    }
}

/// What a click in a menu bar meets.
pub enum MenuHit {
    Label(int),
    Item(int, int),
    Outside,
}

/// The first item from `j` on at the point, in the open menu with its list at `lx`.
/// A separator takes no click, and moves what follows it on by the label's width.
pub open spec fn menu_item_at(bar: Rect, menu: Menu, lx: int, px: int, py: int, j: int) -> Option<
    int,
>
    decreases menu.items.len() - j,
{
    if j >= menu.items.len() {
        None
    } else if menu.items[j] == SEPARATOR@ {
        menu_item_at(bar, menu, lx + menu.label_w(), px, py, j + 1)
    } else if (Rect {
        x: (lx - 4) as usize,
        y: (bar.y + bar.h + 2 + j * ITEM_H) as usize,
        w: menu.list_w() as usize,
        h: ITEM_H,
    }).has(px, py) {
        Some(j)
    } else {
        menu_item_at(bar, menu, lx, px, py, j + 1)
    }
}

/// Where the list of an open menu has moved to behind its last item.
pub open spec fn menu_end(menu: Menu, lx: int, j: int) -> int
    decreases menu.items.len() - j,
{
    if j >= menu.items.len() {
        lx
    } else if menu.items[j] == SEPARATOR@ {
        menu_end(menu, lx + menu.label_w(), j + 1)
    } else {
        menu_end(menu, lx, j + 1)
    }
}

/// What a click at the point meets from menu `i` on, whose label starts at `lx`.
pub open spec fn menu_hit(
    bar: Rect,
    menus: Seq<Menu>,
    active: Option<usize>,
    lx: int,
    px: int,
    py: int,
    i: int,
) -> MenuHit
    decreases menus.len() - i,
{
    if i >= menus.len() {
        MenuHit::Outside
    } else if (Rect { x: (lx - 4) as usize, w: menus[i].label_w() as usize, ..bar }).has(px, py) {
        MenuHit::Label(i)
    } else if active == Some(i as usize) {
        match menu_item_at(bar, menus[i], lx, px, py, 0) {
            Some(j) => MenuHit::Item(i, j),
            None => menu_hit(
                bar,
                menus,
                active,
                menu_end(menus[i], lx, 0) + menus[i].label_w(),
                px,
                py,
                i + 1,
            ),
        }
    } else {
        menu_hit(bar, menus, active, lx + menus[i].label_w(), px, py, i + 1)
    }
}

/// Where the walk of [`menu_hit`] ends.
pub open spec fn bar_end(menus: Seq<Menu>, active: Option<usize>, lx: int, i: int) -> int
    decreases menus.len() - i,
{
    if i >= menus.len() {
        lx
    } else if active == Some(i as usize) {
        bar_end(menus, active, menu_end(menus[i], lx, 0) + menus[i].label_w(), i + 1)
    } else {
        bar_end(menus, active, lx + menus[i].label_w(), i + 1)
    }
}

proof fn lemma_menu_x(menus: Seq<Menu>, x: int, i: int, n: int)
    requires
        0 <= i <= n,
    ensures
        x + 8 <= menu_x(menus, x, i) <= menu_x(menus, x, n),
    decreases n,
{
    if i < n {
        lemma_menu_x(menus, x, i, n - 1);
    } else if n > 0 {
        lemma_menu_x(menus, x, n - 1, n - 1);
    }
}

proof fn lemma_menu_end(menu: Menu, lx: int, j: int)
    ensures
        lx <= menu_end(menu, lx, j),
    decreases menu.items.len() - j,
{
    if j < menu.items.len() {
        if menu.items[j] == SEPARATOR@ {
            lemma_menu_end(menu, lx + menu.label_w(), j + 1);
        } else {
            lemma_menu_end(menu, lx, j + 1);
        }
    }
}

proof fn lemma_bar_end(menus: Seq<Menu>, active: Option<usize>, lx: int, i: int)
    ensures
        lx <= bar_end(menus, active, lx, i),
    decreases menus.len() - i,
{
    if i < menus.len() {
        if active == Some(i as usize) {
            lemma_menu_end(menus[i], lx, 0);
            lemma_bar_end(menus, active, menu_end(menus[i], lx, 0) + menus[i].label_w(), i + 1);
        } else {
            lemma_bar_end(menus, active, lx + menus[i].label_w(), i + 1);
        }
    }
}

/// The items of a menu are those of its model.
proof fn lemma_menu_view(v: Seq<MenuItem>, i: int)
    requires
        0 <= i < v.len(),
    ensures
        menus_of(v)[i].label == v[i].label@,
        menus_of(v)[i].items.len() == v[i].items@.len(),
        forall|j: int|
            0 <= j < v[i].items@.len() ==> #[trigger] menus_of(v)[i].items[j] == v[i].items@[j]@,
{
}

impl MenuBar {
    pub open spec fn menus_view(self) -> Seq<Menu> {
        menus_of(self.menus@)
    }

    /// The list of the open menu can be written down below the bar.
    pub open spec fn fits(self) -> bool {
        &&& self.rect.wf()
        &&& self.active matches Some(a) ==> a < self.menus@.len() ==> self.rect.y + self.rect.h + 4
            + self.menus@[a as int].items@.len() * ITEM_H <= usize::MAX
    }

    pub open spec fn look(self, p: Palette) -> Seq<Ink> {
        seq![
            self.rect.fill(COLOR_DISABLED),
            Ink::HLine {
                x: self.rect.x as int,
                y: self.rect.y + self.rect.h - 1,
                w: self.rect.w as int,
                color: COLOR_LINE,
            },
        ] + menus_look(
            self.rect,
            self.menus_view(),
            self.active,
            self.menus@.len() as int,
            p,
        )
    }

    pub fn new(x: usize, y: usize, w: usize) -> (r: Self)
        ensures
            r.rect == (Rect { x, y, w, h: 24 }),
            r.menus@ == Seq::<MenuItem>::empty(),
            r.active is None,
    {
        MenuBar { rect: Rect { x, y, w, h: 24 }, menus: Vec::new(), active: None }
    }

    /// Adds a menu at the right end.
    pub fn add_menu(&mut self, label: &str, items: Vec<&str>)
        ensures
            final(self).menus_view() == old(self).menus_view().push(
                Menu { label: label@, items: Seq::new(items@.len(), |i: int| items@[i]@) },
            ),
            final(self).rect == old(self).rect,
            final(self).active == old(self).active,
    {
        let list = owned(&items);
        self.menus.push(MenuItem { label: label.to_owned(), items: list });
        assert(self.menus_view() =~= old(self).menus_view().push(
            Menu { label: label@, items: Seq::new(items@.len(), |i: int| items@[i]@) },
        ));
    }

    /// Draws the list of the open menu `i`, whose label starts at `lx`.
    fn draw_menu(&self, ops: &mut Vec<DrawOp>, i: usize, lx: usize, p: &Palette)
        requires
            i < self.menus@.len(),
            self.rect.wf(),
            self.rect.y + self.rect.h + 4 + self.menus@[i as int].items@.len() * ITEM_H
                <= usize::MAX,
            self.rect.h >= 2,
            self.rect.y + 4 <= usize::MAX,
            lx >= 4,
            lx + self.menus_view()[i as int].label_w() + MENU_W <= usize::MAX,
        ensures
            canvas::inks(final(ops)@) == canvas::inks(old(ops)@) + menu_look(
                self.rect,
                self.menus_view()[i as int],
                lx as int,
                true,
                *p,
            ),
    {
        let ghost menu = self.menus_view()[i as int];
        proof {
            lemma_menu_view(self.menus@, i as int);
        }
        let lw: usize = width_of(&self.menus[i].label) + 16;
        put(
            ops,
            DrawOp::Fill {
                x: lx - 4,
                y: self.rect.y + 1,
                w: lw,
                h: self.rect.h - 2,
                color: COLOR_CHOSEN,
            },
        );
        put_text(
            ops,
            &self.menus[i].label,
            lx + 4,
            self.rect.y + 4,
            p.text_primary,
            COLOR_CHOSEN,
        );
        let top: usize = self.rect.y + self.rect.h;
        let w: usize = max_of(lw, MENU_W);
        let n: usize = self.menus[i].items.len();
        let list = Rect { x: lx - 4, y: top, w, h: n * ITEM_H + 4 };
        list.put_rounded(ops, COLOR_LIST, 5);
        list.put_edge(ops, COLOR_EDGE);
        let ghost base = canvas::inks(ops@);
        assert(base =~= base + menu_rows(self.rect, menu, lx as int, 0, *p));
        let mut j: usize = 0;
        while j < n
            invariant
                j <= n,
                n == self.menus@[i as int].items@.len(),
                i < self.menus@.len(),
                menu == self.menus_view()[i as int],
                top == self.rect.y + self.rect.h,
                top + 4 + n * ITEM_H <= usize::MAX,
                lx + menu.label_w() + MENU_W <= usize::MAX,
                w == menu.list_w(),
                canvas::inks(ops@) == base + menu_rows(self.rect, menu, lx as int, j as int, *p),
            decreases n - j,
        {
            proof {
                lemma_menu_view(self.menus@, i as int);
            }
            let y: usize = top + 2 + j * ITEM_H;
            if text::same(&self.menus[i].items[j], SEPARATOR) {
                put(ops, DrawOp::HLine { x: lx, y: y + ITEM_H / 2, w: w - 8, color: COLOR_EDGE });
            } else {
                put_text(
                    ops,
                    &self.menus[i].items[j],
                    lx + 4,
                    y + 3,
                    p.text_secondary,
                    COLOR_LIST,
                );
            }
            j += 1;
            assert(canvas::inks(ops@) =~= base + menu_rows(self.rect, menu, lx as int, j as int, *p));
        }
        assert(canvas::inks(ops@) =~= canvas::inks(old(ops)@) + menu_look(self.rect, menu, lx as int, true, *p));
    }

    pub fn draw(&self, p: &Palette) -> (r: Vec<DrawOp>)
        requires
            self.fits(),
            self.rect.y + self.rect.h >= 1,
            self.rect.y + 4 <= usize::MAX,
            self.active matches Some(a) ==> a < self.menus@.len() ==> self.rect.h >= 2,
            menu_x(self.menus_view(), self.rect.x as int, self.menus@.len() as int) + MENU_W
                <= usize::MAX,
        ensures
            canvas::inks(r@) == self.look(*p),
    {
        let ghost menus = self.menus_view();
        let mut ops = blank();
        self.rect.put_fill(&mut ops, COLOR_DISABLED);
        put(
            &mut ops,
            DrawOp::HLine {
                x: self.rect.x,
                y: self.rect.y + self.rect.h - 1,
                w: self.rect.w,
                color: COLOR_LINE,
            },
        );
        let ghost base = canvas::inks(ops@);
        proof {
            lemma_menu_x(menus, self.rect.x as int, 0, menus.len() as int);
            assert(base =~= base + menus_look(self.rect, menus, self.active, 0, *p));
        }
        let mut lx: usize = self.rect.x + 8;
        let mut i: usize = 0;
        while i < self.menus.len()
            invariant
                i <= self.menus@.len(),
                menus == self.menus_view(),
                menus.len() == self.menus@.len(),
                self.fits(),
                self.rect.y + 4 <= usize::MAX,
                self.active matches Some(a) ==> a < self.menus@.len() ==> self.rect.h >= 2,
                menu_x(menus, self.rect.x as int, menus.len() as int) + MENU_W <= usize::MAX,
                lx == menu_x(menus, self.rect.x as int, i as int),
                canvas::inks(ops@) == base + menus_look(self.rect, menus, self.active, i as int, *p),
            decreases self.menus@.len() - i,
        {
            proof {
                lemma_menu_view(self.menus@, i as int);
                lemma_menu_x(menus, self.rect.x as int, i as int, i as int);
                lemma_menu_x(menus, self.rect.x as int, i + 1, menus.len() as int);
                assert(menu_x(menus, self.rect.x as int, i + 1) == lx + menus[i as int].label_w());
            }
            let ghost before = canvas::inks(ops@);
            let lw: usize = width_of(&self.menus[i].label) + 16;
            let is_active: bool = match self.active {
                Some(a) => a == i,
                None => false,
            };
            if is_active {
                self.draw_menu(&mut ops, i, lx, p);
            } else {
                put_text(
                    &mut ops,
                    &self.menus[i].label,
                    lx + 4,
                    self.rect.y + 4,
                    p.text_secondary,
                    COLOR_DISABLED,
                );
                assert(canvas::inks(ops@) =~= before + menu_look(
                    self.rect,
                    menus[i as int],
                    lx as int,
                    false,
                    *p,
                ));
            }
            lx += lw;
            i += 1;
            assert(canvas::inks(ops@) =~= base + menus_look(self.rect, menus, self.active, i as int, *p));
        }
        assert(canvas::inks(ops@) =~= self.look(*p));
        ops
    }

    /// The item of the open menu `i` at the point, and where its list has moved to.
    fn item_at(&self, i: usize, start: usize, px: i32, py: i32) -> (r: (Option<usize>, usize))
        requires
            i < self.menus@.len(),
            start >= 4,
            self.rect.wf(),
            self.rect.y + self.rect.h + 4 + self.menus@[i as int].items@.len() * ITEM_H
                <= usize::MAX,
            menu_end(self.menus_view()[i as int], start as int, 0)
                + self.menus_view()[i as int].label_w() + MENU_W <= usize::MAX,
        ensures
            match menu_item_at(
                self.rect,
                self.menus_view()[i as int],
                start as int,
                px as int,
                py as int,
                0,
            ) {
                Some(j) => r.0 == Some(j as usize),
                None => r.0 is None && r.1 == menu_end(
                    self.menus_view()[i as int],
                    start as int,
                    0,
                ),
            },
    {
        let ghost menu = self.menus_view()[i as int];
        proof {
            lemma_menu_view(self.menus@, i as int);
            lemma_menu_end(menu, start as int, 0);
        }
        let lw: usize = width_of(&self.menus[i].label) + 16;
        let w: usize = max_of(lw, MENU_W);
        let top: usize = self.rect.y + self.rect.h;
        let n: usize = self.menus[i].items.len();
        let mut lx: usize = start;
        let mut j: usize = 0;
        while j < n
            invariant
                j <= n,
                n == self.menus@[i as int].items@.len(),
                i < self.menus@.len(),
                menu == self.menus_view()[i as int],
                lw == menu.label_w(),
                w == menu.list_w(),
                lx >= 4,
                top == self.rect.y + self.rect.h,
                top + 4 + n * ITEM_H <= usize::MAX,
                menu_end(menu, start as int, 0) + lw + MENU_W <= usize::MAX,
                menu_end(menu, lx as int, j as int) == menu_end(menu, start as int, 0),
                menu_item_at(self.rect, menu, lx as int, px as int, py as int, j as int)
                    == menu_item_at(self.rect, menu, start as int, px as int, py as int, 0),
            decreases n - j,
        {
            proof {
                lemma_menu_view(self.menus@, i as int);
                lemma_menu_end(menu, lx as int, j as int);
            }
            if text::same(&self.menus[i].items[j], SEPARATOR) {
                proof {
                    lemma_menu_end(menu, lx + lw, j + 1);
                }
                lx += lw;
            } else {
                let row = Rect { x: lx - 4, y: top + 2 + j * ITEM_H, w, h: ITEM_H };
                if row.contains(px, py) {
                    return (Some(j), lx);
                }
            }
            j += 1;
        }
        (None, lx)
    }

    /// What a click at the point meets.
    pub open spec fn hit(self, px: int, py: int) -> MenuHit {
        menu_hit(self.rect, self.menus_view(), self.active, self.rect.x + 8, px, py, 0)
    }

    /// The mouse was clicked at that point. A label opens and closes its menu; an item
    /// of the open menu is chosen (its menu and its number are the result) and closes
    /// it; a click elsewhere closes it.
    pub fn on_click(&mut self, px: i32, py: i32) -> (r: Option<(usize, usize)>)
        requires
            old(self).fits(),
            bar_end(old(self).menus_view(), old(self).active, old(self).rect.x + 8, 0) + MENU_W
                <= usize::MAX,
        ensures
            match old(self).hit(px as int, py as int) {
                MenuHit::Label(i) => r is None && final(self).active == (if old(self).active
                    == Some(i as usize) {
                    None
                } else {
                    Some(i as usize)
                }),
                MenuHit::Item(i, j) => r == Some((i as usize, j as usize))
                    && final(self).active is None,
                MenuHit::Outside => r is None && final(self).active is None,
            },
            final(self).rect == old(self).rect,
            final(self).menus == old(self).menus,
    {
        let ghost menus = self.menus_view();
        let ghost first = self.rect.x + 8;
        let ghost end = bar_end(menus, self.active, first, 0);
        proof {
            lemma_bar_end(menus, self.active, first, 0);
        }
        let mut lx: usize = self.rect.x + 8;
        let mut i: usize = 0;
        while i < self.menus.len()
            invariant
                i <= self.menus@.len(),
                *self == *old(self),
                menus == self.menus_view(),
                menus.len() == self.menus@.len(),
                self.fits(),
                lx >= 8,
                first == self.rect.x + 8,
                end + MENU_W <= usize::MAX,
                end == bar_end(menus, self.active, lx as int, i as int),
                menu_hit(
                    self.rect,
                    menus,
                    self.active,
                    lx as int,
                    px as int,
                    py as int,
                    i as int,
                ) == menu_hit(self.rect, menus, self.active, first, px as int, py as int, 0),
            decreases self.menus@.len() - i,
        {
            let is_active: bool = match self.active {
                Some(a) => a == i,
                None => false,
            };
            proof {
                lemma_menu_view(self.menus@, i as int);
                let menu = menus[i as int];
                if is_active {
                    lemma_menu_end(menu, lx as int, 0);
                    lemma_bar_end(
                        menus,
                        self.active,
                        menu_end(menu, lx as int, 0) + menu.label_w(),
                        i + 1,
                    );
                } else {
                    lemma_bar_end(menus, self.active, lx + menu.label_w(), i + 1);
                }
            }
            let lw: usize = width_of(&self.menus[i].label) + 16;
            let label = Rect { x: lx - 4, y: self.rect.y, w: lw, h: self.rect.h };
            if label.contains(px, py) {
                self.active = if is_active {
                    None
                } else {
                    Some(i)
                };
                return None;
            }
            if is_active {
                let (found, moved) = self.item_at(i, lx, px, py);
                match found {
                    Some(j) => {
                        self.active = None;
                        return Some((i, j));
                    },
                    None => {
                        lx = moved;
                    },
                }
            }
            lx += lw;
            i += 1;
        }
        self.active = None;
        None
    }
}

/// A separator is never chosen.
pub proof fn law_separator_is_not_chosen(bar: Rect, menu: Menu, lx: int, px: int, py: int, j: int)
    requires
        0 <= j,
    ensures
        menu_item_at(bar, menu, lx, px, py, j) matches Some(k) ==> j <= k < menu.items.len()
            && menu.items[k] != SEPARATOR@,
    decreases menu.items.len() - j,
{
    if j < menu.items.len() {
        law_separator_is_not_chosen(bar, menu, lx + menu.label_w(), px, py, j + 1);
        law_separator_is_not_chosen(bar, menu, lx, px, py, j + 1);
    }
}

/// Strings of one's own with the same texts.
fn owned(v: &Vec<&str>) -> (r: Vec<String>)
    ensures
        texts(r@) == Seq::new(v@.len(), |i: int| v@[i]@),
{
    let mut out: Vec<String> = Vec::new();
    let mut i: usize = 0;
    while i < v.len()
        invariant
            i <= v@.len(),
            out@.len() == i,
            forall|j: int| 0 <= j < i ==> (#[trigger] out@[j])@ == v@[j]@,
        decreases v@.len() - i,
    {
        out.push(v[i].to_owned());
        i += 1;
    }
    assert(texts(out@) =~= Seq::new(v@.len(), |i: int| v@[i]@));
    out
}

// ---------------------------------------------------------------------------
// Dialog
// ---------------------------------------------------------------------------

/// A button: where it is, what it says and its state.
#[verifier::ext_equal]
pub struct Btn {
    pub rect: Rect,
    pub label: Seq<char>,
    pub state: BtnState,
}

impl View for Button {
    type V = Btn;

    open spec fn view(&self) -> Btn {
        Btn { rect: self.rect, label: self.label@, state: self.state }
    }
}

pub open spec fn btns_of(v: Seq<Button>) -> Seq<Btn> {
    Seq::new(v.len(), |i: int| v[i]@)
}

/// A dialog with up to three buttons, over everything else.
#[derive(Debug)]
pub struct Modal {
    pub title: String,
    pub message: String,
    pub buttons: Vec<String>,
    pub visible: bool,
    /// Which button was clicked.
    pub result: Option<usize>,
    pub rect: Rect,
    pub btns: Vec<Button>,
}

/// A dialog is in the middle of the screen.
pub open spec fn dialog_rect(sw: int, sh: int) -> Rect {
    Rect {
        x: (gap(sw, 360) / 2) as usize,
        y: (gap(sh, 160) / 2) as usize,
        w: 360,
        h: 160,
    }
}

/// Button `i` of `n` of a dialog: the buttons are side by side in the middle.
pub open spec fn dialog_btn(rect: Rect, n: int, i: int, label: Seq<char>) -> Btn {
    Btn {
        rect: Rect {
            x: (rect.x + (360 - (n * 90 + (n - 1) * 8)) / 2 + i * 98) as usize,
            y: (rect.y + 114) as usize,
            w: 90,
            h: 30,
        },
        label,
        state: BtnState::Normal,
    }
}

/// What the first `n` buttons look like.
pub open spec fn btns_look(btns: Seq<Btn>, n: int, p: Palette) -> Seq<Ink>
    decreases n,
{
    if n <= 0 {
        Seq::empty()
    } else {
        let b = btns[n - 1];
        btns_look(btns, n - 1, p) + button_look(b.rect, b.label, b.state, p)
    }
}

/// The first button from `i` on at the point.
pub open spec fn btn_at(btns: Seq<Btn>, px: int, py: int, i: int) -> Option<int>
    decreases btns.len() - i,
{
    if i >= btns.len() {
        None
    } else if btns[i].rect.has(px, py) {
        Some(i)
    } else {
        btn_at(btns, px, py, i + 1)
    }
}

/// The first `n` buttons have seen the mouse pressed at the point.
pub open spec fn btns_pressed(btns: Seq<Btn>, px: int, py: int, n: int) -> Seq<Btn> {
    Seq::new(
        btns.len(),
        |i: int|
            if i < n {
                Btn {
                    state: button_after(btns[i].state, btns[i].rect.has(px, py), true),
                    ..btns[i]
                }
            } else {
                btns[i]
            },
    )
}

impl Modal {
    pub open spec fn look(self, p: Palette) -> Seq<Ink> {
        if !self.visible {
            Seq::empty()
        } else {
            seq![
                Ink::Dim { color: 0, alpha: 160 },
                self.rect.rounded(COLOR_LIST, 10),
                self.rect.edge(COLOR_DIALOG_EDGE),
                Ink::Text {
                    text: self.title@,
                    x: self.rect.x + 16,
                    y: self.rect.y + 16,
                    fg: p.text_primary,
                    bg: COLOR_LIST,
                },
                Ink::HLine {
                    x: self.rect.x + 8,
                    y: self.rect.y + 36,
                    w: self.rect.w - 16,
                    color: COLOR_EDGE,
                },
                Ink::Text {
                    text: self.message@,
                    x: self.rect.x + 16,
                    y: self.rect.y + 50,
                    fg: p.text_secondary,
                    bg: COLOR_LIST,
                },
            ] + btns_look(btns_of(self.btns@), self.btns@.len() as int, p)
        }
    }

    /// The buttons have places that can be written down, and labels that can be
    /// measured.
    pub open spec fn fits(self) -> bool {
        &&& self.rect.wf()
        &&& self.rect.x + 16 <= usize::MAX
        &&& self.rect.y + 50 <= usize::MAX
        &&& self.rect.w >= 16
        &&& forall|i: int|
            0 <= i < self.btns@.len() ==> (#[trigger] self.btns@[i]).rect.wf() && text_w(
                self.btns@[i].label@,
            ) <= usize::MAX
    }

    /// A dialog for a screen of that size, not shown yet.
    pub fn new(
        title: &str,
        message: &str,
        buttons: Vec<&str>,
        screen_w: usize,
        screen_h: usize,
    ) -> (r: Self)
        requires
            1 <= buttons@.len() <= 3,
        ensures
            r.title@ == title@,
            r.message@ == message@,
            texts(r.buttons@) == Seq::new(buttons@.len(), |i: int| buttons@[i]@),
            !r.visible,
            r.result is None,
            r.rect == dialog_rect(screen_w as int, screen_h as int),
            btns_of(r.btns@) == Seq::new(
                buttons@.len(),
                |i: int| dialog_btn(r.rect, buttons@.len() as int, i, buttons@[i]@),
            ),
    {
        let x: usize = screen_w.saturating_sub(360) / 2;
        let y: usize = screen_h.saturating_sub(160) / 2;
        let rect = Rect { x, y, w: 360, h: 160 };
        let n: usize = buttons.len();
        let total: usize = n * 90 + (n - 1) * 8;
        let start: usize = x + (360 - total) / 2;
        let mut btns: Vec<Button> = Vec::new();
        let mut i: usize = 0;
        while i < n
            invariant
                i <= n <= 3,
                n == buttons@.len(),
                x <= usize::MAX / 2,
                y <= usize::MAX / 2,
                rect == (Rect { x, y, w: 360, h: 160 }),
                total == n * 90 + (n - 1) * 8,
                start == x + (360 - total) / 2,
                btns@.len() == i,
                forall|j: int|
                    0 <= j < i ==> (#[trigger] btns@[j])@ == dialog_btn(
                        rect,
                        n as int,
                        j,
                        buttons@[j]@,
                    ),
            decreases n - i,
        {
            btns.push(Button::new(start + i * 98, y + 114, 90, 30, buttons[i]));
            i += 1;
        }
        let list = owned(&buttons);
        let r = Modal {
            title: title.to_owned(),
            message: message.to_owned(),
            buttons: list,
            visible: false,
            result: None,
            rect,
            btns,
        };
        assert(btns_of(r.btns@) =~= Seq::new(
            buttons@.len(),
            |i: int| dialog_btn(r.rect, buttons@.len() as int, i, buttons@[i]@),
        ));
        r
    }

    pub fn show(&mut self)
        ensures
            final(self).visible,
            final(self).result is None,
            final(self).title == old(self).title,
            final(self).message == old(self).message,
            final(self).buttons == old(self).buttons,
            final(self).rect == old(self).rect,
            final(self).btns == old(self).btns,
    {
        self.visible = true;
        self.result = None;
    }

    pub fn dismiss(&mut self)
        ensures
            !final(self).visible,
            final(self).result == old(self).result,
            final(self).title == old(self).title,
            final(self).message == old(self).message,
            final(self).buttons == old(self).buttons,
            final(self).rect == old(self).rect,
            final(self).btns == old(self).btns,
    {
        self.visible = false;
    }

    pub fn draw(&self, p: &Palette) -> (r: Vec<DrawOp>)
        requires
            self.visible ==> self.fits(),
        ensures
            canvas::inks(r@) == self.look(*p),
    {
        let mut ops = blank();
        if !self.visible {
            return ops;
        }
        put(&mut ops, DrawOp::Dim { color: 0, alpha: 160 });
        self.rect.put_rounded(&mut ops, COLOR_LIST, 10);
        self.rect.put_edge(&mut ops, COLOR_DIALOG_EDGE);
        put_text(
            &mut ops,
            &self.title,
            self.rect.x + 16,
            self.rect.y + 16,
            p.text_primary,
            COLOR_LIST,
        );
        put(
            &mut ops,
            DrawOp::HLine {
                x: self.rect.x + 8,
                y: self.rect.y + 36,
                w: self.rect.w - 16,
                color: COLOR_EDGE,
            },
        );
        put_text(
            &mut ops,
            &self.message,
            self.rect.x + 16,
            self.rect.y + 50,
            p.text_secondary,
            COLOR_LIST,
        );
        let ghost base = canvas::inks(ops@);
        let ghost all = btns_of(self.btns@);
        assert(base =~= base + btns_look(all, 0, *p));
        let mut i: usize = 0;
        while i < self.btns.len()
            invariant
                i <= self.btns@.len(),
                self.fits(),
                all == btns_of(self.btns@),
                canvas::inks(ops@) == base + btns_look(all, i as int, *p),
            decreases self.btns@.len() - i,
        {
            assert(self.btns@[i as int].rect.wf());
            let ghost before = canvas::inks(ops@);
            let mut one = self.btns[i].draw(p);
            let ghost drawn = one@;
            ops.append(&mut one);
            assert(canvas::inks(ops@) =~= before + canvas::inks(drawn));
            i += 1;
            assert(canvas::inks(ops@) =~= base + btns_look(all, i as int, *p));
        }
        assert(canvas::inks(ops@) =~= self.look(*p));
        ops
    }

    /// The mouse was clicked at that point; the result is the button there, whose
    /// click ends the dialog.
    pub fn on_click(&mut self, px: i32, py: i32) -> (r: Option<usize>)
        requires
            forall|i: int|
                0 <= i < old(self).btns@.len() ==> (#[trigger] old(self).btns@[i]).rect.wf(),
        ensures
            ({
                let btns = btns_of(old(self).btns@);
                let hit = if old(self).visible {
                    btn_at(btns, px as int, py as int, 0)
                } else {
                    None
                };
                &&& r == (match hit {
                    Some(i) => Some(i as usize),
                    None => None,
                })
                &&& final(self).visible == (old(self).visible && r is None)
                &&& final(self).result == (if r is Some {
                    r
                } else {
                    old(self).result
                })
                &&& btns_of(final(self).btns@) == btns_pressed(
                    btns,
                    px as int,
                    py as int,
                    match hit {
                        Some(i) => i + 1,
                        None => if old(self).visible {
                            btns.len() as int
                        } else {
                            0
                        },
                    },
                )
            }),
            final(self).title == old(self).title,
            final(self).message == old(self).message,
            final(self).buttons == old(self).buttons,
            final(self).rect == old(self).rect,
    {
        let ghost btns = btns_of(self.btns@);
        assert(btns =~= btns_pressed(btns, px as int, py as int, 0));
        if !self.visible {
            return None;
        }
        let mut i: usize = 0;
        while i < self.btns.len()
            invariant
                i <= self.btns@.len(),
                btns == btns_of(old(self).btns@),
                self.btns@.len() == btns.len(),
                forall|j: int| 0 <= j < self.btns@.len() ==> (#[trigger] self.btns@[j]).rect.wf(),
                btns_of(self.btns@) == btns_pressed(btns, px as int, py as int, i as int),
                btn_at(btns, px as int, py as int, i as int) == btn_at(
                    btns,
                    px as int,
                    py as int,
                    0,
                ),
                self.visible,
                old(self).visible,
                self.result == old(self).result,
                self.title == old(self).title,
                self.message == old(self).message,
                self.buttons == old(self).buttons,
                self.rect == old(self).rect,
            decreases self.btns@.len() - i,
        {
            proof {
                assert(btns_of(self.btns@)[i as int] == btns[i as int]);
            }
            let ghost mid = self.btns@;
            assert(self.btns@[i as int].rect.wf());
            let clicked: bool = self.btns[i].on_mouse(px, py, true);
            proof {
                assert(self.btns@ =~= mid.update(i as int, self.btns@[i as int]));
                assert(btns_of(self.btns@) =~= btns_pressed(btns, px as int, py as int, i + 1)) by {
                    assert forall|j: int| 0 <= j < btns.len() implies (#[trigger] btns_of(
                        self.btns@,
                    )[j]) == btns_pressed(btns, px as int, py as int, i + 1)[j] by {
                        assert(btns_of(mid)[j] == btns_pressed(btns, px as int, py as int, i as int)[j]);
                    }
                }
            }
            if clicked || self.btns[i].rect.contains(px, py) {
                self.result = Some(i);
                self.visible = false;
                return Some(i);
            }
            i += 1;
        }
        None
    }
}

/// A click on a button of a dialog is answered with that button: it is the first
/// with the point on it.
pub proof fn law_answered_button_is_under_the_point(btns: Seq<Btn>, px: int, py: int, from: int)
    requires
        0 <= from,
    ensures
        match btn_at(btns, px, py, from) {
            Some(i) => from <= i < btns.len() && btns[i].rect.has(px, py) && forall|j: int|
                from <= j < i ==> !(#[trigger] btns[j]).rect.has(px, py),
            None => forall|j: int|
                from <= j < btns.len() ==> !(#[trigger] btns[j]).rect.has(px, py),
        },
    decreases btns.len() - from,
{
    if from < btns.len() {
        law_answered_button_is_under_the_point(btns, px, py, from + 1);
    }
}

// ---------------------------------------------------------------------------
// Tabs
// ---------------------------------------------------------------------------

/// A row of tabs of which one is active.
#[derive(Debug)]
pub struct TabBar {
    pub rect: Rect,
    pub tabs: Vec<String>,
    pub active: usize,
}

/// Width of one of `n` tabs in a bar of width `w`.
pub open spec fn tab_width(w: int, n: int) -> int {
    if n == 0 {
        80
    } else {
        larger(w / n, 60)
    }
}

/// What the first `n` tabs look like, each `tw` wide.
pub open spec fn tabs_look(
    rect: Rect,
    tabs: Seq<Seq<char>>,
    active: int,
    tw: int,
    n: int,
    p: Palette,
) -> Seq<Ink>
    decreases n,
{
    if n <= 0 {
        Seq::empty()
    } else {
        let i = n - 1;
        let x = rect.x + i * tw;
        let before = tabs_look(rect, tabs, active, tw, n - 1, p);
        let label = Ink::Text {
            text: tabs[i],
            x: x + gap(tw, text_w(tabs[i])) / 2,
            y: rect.y + (rect.h - FONT_HEIGHT) / 2,
            fg: if i == active {
                p.text_primary
            } else {
                p.text_secondary
            },
            bg: if i == active {
                p.glass
            } else {
                p.glass_dark
            },
        };
        let fill = Ink::Fill {
            x,
            y: rect.y as int,
            w: tw,
            h: rect.h as int,
            color: if i == active {
                p.glass
            } else {
                p.glass_dark
            },
        };
        if i == active {
            before.push(fill).push(
                Ink::HLine { x, y: rect.y + rect.h - 2, w: tw, color: p.accent },
            ).push(label)
        } else {
            before.push(fill).push(label)
        }
    }
}

impl TabBar {
    pub open spec fn tab_w(self) -> int {
        tab_width(self.rect.w as int, self.tabs@.len() as int)
    }

    pub open spec fn look(self, p: Palette) -> Seq<Ink> {
        seq![
            self.rect.fill(p.glass_dark),
            Ink::HLine {
                x: self.rect.x as int,
                y: self.rect.y + self.rect.h - 1,
                w: self.rect.w as int,
                color: COLOR_LINE,
            },
        ] + tabs_look(
            self.rect,
            texts(self.tabs@),
            self.active as int,
            self.tab_w(),
            self.tabs@.len() as int,
            p,
        )
    }

    pub fn new(x: usize, y: usize, w: usize) -> (r: Self)
        ensures
            r.rect == (Rect { x, y, w, h: 28 }),
            r.tabs@ == Seq::<String>::empty(),
            r.active == 0,
    {
        TabBar { rect: Rect { x, y, w, h: 28 }, tabs: Vec::new(), active: 0 }
    }

    /// Adds a tab at the right end.
    pub fn add(&mut self, label: &str)
        ensures
            texts(final(self).tabs@) == texts(old(self).tabs@).push(label@),
            final(self).rect == old(self).rect,
            final(self).active == old(self).active,
    {
        self.tabs.push(label.to_owned());
        assert(texts(self.tabs@) =~= texts(old(self).tabs@).push(label@));
    }

    fn width(&self) -> (r: usize)
        ensures
            r == self.tab_w(),
    {
        if self.tabs.len() == 0 {
            80
        } else {
            max_of(self.rect.w / self.tabs.len(), 60)
        }
    }

    pub fn draw(&self, p: &Palette) -> (r: Vec<DrawOp>)
        requires
            self.rect.wf(),
            self.rect.y + self.rect.h >= 1,
            self.tabs@.len() > 0 ==> self.rect.h >= FONT_HEIGHT,
            self.rect.x + self.tabs@.len() * self.tab_w() <= usize::MAX,
            forall|i: int|
                0 <= i < self.tabs@.len() ==> text_w((#[trigger] self.tabs@[i])@) <= usize::MAX,
        ensures
            canvas::inks(r@) == self.look(*p),
    {
        let mut ops = blank();
        self.rect.put_fill(&mut ops, p.glass_dark);
        put(
            &mut ops,
            DrawOp::HLine {
                x: self.rect.x,
                y: self.rect.y + self.rect.h - 1,
                w: self.rect.w,
                color: COLOR_LINE,
            },
        );
        let tw: usize = self.width();
        let ghost base = canvas::inks(ops@);
        let ghost labels = texts(self.tabs@);
        assert(base =~= base + tabs_look(self.rect, labels, self.active as int, tw as int, 0, *p));
        let mut i: usize = 0;
        while i < self.tabs.len()
            invariant
                i <= self.tabs@.len(),
                self.rect.wf(),
                tw == self.tab_w(),
                labels == texts(self.tabs@),
                self.tabs@.len() > 0 ==> self.rect.h >= FONT_HEIGHT,
                self.rect.x + self.tabs@.len() * self.tab_w() <= usize::MAX,
                forall|i: int|
                    0 <= i < self.tabs@.len() ==> text_w((#[trigger] self.tabs@[i])@) <= usize::MAX,
                canvas::inks(ops@) == base + tabs_look(
                    self.rect,
                    labels,
                    self.active as int,
                    tw as int,
                    i as int,
                    *p,
                ),
            decreases self.tabs@.len() - i,
        {
            assert(i * tw + tw <= self.tabs@.len() * tw) by (nonlinear_arith)
                requires
                    i < self.tabs@.len(),
                    tw >= 0,
            ;
            assert(text_w(self.tabs@[i as int]@) <= usize::MAX);
            let x: usize = self.rect.x + i * tw;
            let is_active: bool = i == self.active;
            let back: u32 = if is_active {
                p.glass
            } else {
                p.glass_dark
            };
            put(
                &mut ops,
                DrawOp::Fill { x, y: self.rect.y, w: tw, h: self.rect.h, color: back },
            );
            if is_active {
                put(
                    &mut ops,
                    DrawOp::HLine {
                        x,
                        y: self.rect.y + self.rect.h - 2,
                        w: tw,
                        color: p.accent,
                    },
                );
            }
            let lx: usize = x + tw.saturating_sub(width_of(&self.tabs[i])) / 2;
            let ly: usize = self.rect.y + (self.rect.h - FONT_HEIGHT) / 2;
            let fg: u32 = if is_active {
                p.text_primary
            } else {
                p.text_secondary
            };
            put_text(&mut ops, &self.tabs[i], lx, ly, fg, back);
            i += 1;
            assert(canvas::inks(ops@) =~= base + tabs_look(
                self.rect,
                labels,
                self.active as int,
                tw as int,
                i as int,
                *p,
            ));
        }
        assert(canvas::inks(ops@) =~= self.look(*p));
        ops
    }

    /// The tab at the point.
    pub open spec fn tab_at(self, px: int, py: int) -> Option<usize> {
        let i = (px - low_i32(self.rect.x as int)) / self.tab_w();
        if self.rect.has(px, py) && i < self.tabs@.len() {
            Some(i as usize)
        } else {
            None
        }
    }

    /// The mouse was clicked at that point; the tab there becomes active.
    pub fn on_click(&mut self, px: i32, py: i32) -> (r: Option<usize>)
        requires
            old(self).rect.wf(),
            old(self).tab_w() <= i32::MAX,
            px - low_i32(old(self).rect.x as int) <= i32::MAX,
        ensures
            r == old(self).tab_at(px as int, py as int),
            final(self).active == (match r {
                Some(i) => i,
                None => old(self).active,
            }),
            final(self).rect == old(self).rect,
            final(self).tabs == old(self).tabs,
    {
        if !self.rect.contains(px, py) {
            return None;
        }
        let tw: usize = self.width();
        let i: usize = ((px - to_i32(self.rect.x)) / tw as i32) as usize;
        if i < self.tabs.len() {
            self.active = i;
            Some(i)
        } else {
            None
        }
    }
}

/// The tab that a click makes active is drawn under the click.
pub proof fn law_tab_is_under_the_point(bar: TabBar, px: int, py: int)
    requires
        bar.tab_w() > 0,
    ensures
        bar.tab_at(px, py) matches Some(i) ==> {
            let at = px - low_i32(bar.rect.x as int);
            i * bar.tab_w() <= at < (i + 1) * bar.tab_w()
        },
{
    if let Some(i) = bar.tab_at(px, py) {
        let at = px - low_i32(bar.rect.x as int);
        let tw = bar.tab_w();
        assert(0 <= at / tw && (at / tw) * tw <= at < (at / tw + 1) * tw) by (nonlinear_arith)
            requires
                tw > 0,
                at >= 0,
        ;
    }
}

// ---------------------------------------------------------------------------
// Laws
// ---------------------------------------------------------------------------

/// The rectangle lies where pixels are numbered without a sign.
pub open spec fn in_sight(r: Rect) -> bool {
    r.x + r.w <= i32::MAX && r.y + r.h <= i32::MAX
}

/// A point is in a rectangle from its left and top edges on up to, and without, its right
/// and bottom edges.
pub proof fn law_point_is_in_the_rectangle(rect: &Rect, px: i32, py: i32, r: bool)
    requires
        in_sight(*rect),
        call_ensures(Rect::contains, (rect, px, py), r),
    ensures
        r <==> rect.x <= px && px < rect.x + rect.w && rect.y <= py && py < rect.y + rect.h,
{
}

/// The point is in the rectangle.
pub open spec fn on(r: Rect, px: i32, py: i32) -> bool {
    r.x <= px && px < r.x + r.w && r.y <= py && py < r.y + r.h
}

/// A button answers a release on it after a press on it. It is pressed while the mouse is
/// pressed on it, lit while the mouse is on it, and else as usual; one that is disabled
/// answers nothing and stays so.
pub proof fn law_button_answers_a_click(b: &mut Button, px: i32, py: i32, pressed: bool, r: bool)
    requires
        in_sight(old(b).rect),
        call_ensures(Button::on_mouse, (b, px, py, pressed), r),
    ensures
        r <==> old(b).state is Pressed && on(old(b).rect, px, py) && !pressed,
        old(b).state is Disabled ==> final(b).state is Disabled && !r,
        old(b).state !is Disabled && !on(old(b).rect, px, py) ==> final(b).state is Normal,
        old(b).state !is Disabled && on(old(b).rect, px, py) && pressed ==> final(b).state
            is Pressed,
        old(b).state !is Disabled && on(old(b).rect, px, py) && !pressed ==> final(b).state
            is Hover,
        final(b).rect == old(b).rect,
        final(b).label == old(b).label,
{
}

/// A button is filled by its state within its rectangle, and a label that fits stands in its
/// middle, but for a pixel.
pub proof fn law_button_label_is_in_the_middle(b: &Button, p: &Palette, r: Vec<DrawOp>)
    requires
        call_ensures(Button::draw, (b, p), r),
        encode_utf8(b.label@).len() * 8 <= b.rect.w,
        16 <= b.rect.h,
    ensures
        ({
            let s = canvas::inks(r@);
            let tw = encode_utf8(b.label@).len() * 8;
            &&& s.len() == 3
            &&& s[0] is FillRounded && s[0]->FillRounded_x == b.rect.x && s[0]->FillRounded_y
                == b.rect.y && s[0]->FillRounded_w == b.rect.w && s[0]->FillRounded_h == b.rect.h
            &&& s[0]->FillRounded_color == (match b.state {
                BtnState::Normal => p.glass,
                BtnState::Hover => p.glass_hover,
                BtnState::Pressed => p.accent,
                BtnState::Disabled => 0x0A1020,
            })
            &&& s[1] is Outline
            &&& s[2] is Text && s[2]->Text_text == b.label@
            &&& 0 <= b.rect.w - tw - 2 * (s[2]->Text_x - b.rect.x) <= 1
            &&& 0 <= b.rect.h - 16 - 2 * (s[2]->Text_y - b.rect.y) <= 1
            &&& s[2]->Text_bg == s[0]->FillRounded_color
        }),
{
}

/// A click gives a text field the focus exactly where it is on it; then its cursor is shown
/// at once. What is in it stays.
pub proof fn law_click_gives_the_focus(t: &mut TextInput, px: i32, py: i32, r: bool)
    requires
        in_sight(old(t).rect),
        call_ensures(TextInput::on_click, (t, px, py), r),
    ensures
        r <==> on(old(t).rect, px, py),
        final(t).focused == r,
        r && !old(t).focused ==> final(t).cursor_on,
        final(t).value == old(t).value,
        final(t).cursor == old(t).cursor,
{
}

/// Keys edit a text at the cursor. A character goes in before it, so what was before stays
/// before it with the character and what was behind stays behind. Deleting takes the
/// character behind the cursor, as going right and backspace would, and leaves the cursor.
/// The first and the last place are where nothing is before the cursor, or behind it.
pub proof fn law_keys_edit_at_the_cursor(
    t: &mut TextInput,
    key: &Key,
    ch: Option<char>,
    k: int,
)
    requires
        old(t).wf(),
        call_ensures(TextInput::on_key, (t, key, ch), ()),
        0 <= k <= old(t).value@.len(),
        old(t).cursor == encode_utf8(old(t).value@.take(k)).len(),
    ensures
        ({
            let was = old(t).value@;
            let now = final(t).value@;
            &&& key matches Key::Char(c) ==> now == was.take(k).push(*c) + was.skip(k) && final(
                t).cursor == encode_utf8(was.take(k).push(*c)).len()
            &&& *key == Key::Backspace && k > 0 ==> now == was.take(k - 1) + was.skip(k) && final(
                t).cursor == encode_utf8(was.take(k - 1)).len()
            &&& *key == Key::Delete && k < was.len() ==> now == was.take(k) + was.skip(k + 1)
                && final(t).cursor == old(t).cursor
            &&& *key == Key::Left && k > 0 ==> now == was && final(t).cursor == encode_utf8(
                was.take(k - 1),
            ).len()
            &&& *key == Key::Right && k < was.len() ==> now == was && final(t).cursor
                == encode_utf8(was.take(k + 1)).len()
            &&& *key == Key::Home ==> now == was && final(t).cursor == 0
            &&& *key == Key::End ==> now == was && final(t).cursor == encode_utf8(was).len()
            &&& (*key == Key::Backspace || *key == Key::Left) && k == 0 ==> now == was && final(
                t).cursor == old(t).cursor
            &&& (*key == Key::Delete || *key == Key::Right) && k == was.len() ==> now == was
                && final(t).cursor == old(t).cursor
            &&& *key == Key::Enter || *key == Key::Tab || *key == Key::Escape ==> now == was
                && final(t).cursor == old(t).cursor
        }),
        final(t).focused == old(t).focused,
{
    let s = old(t).value@;
    text::lemma_place(s, k);
    assert(text::place(s, old(t).cursor as int) == k);
    let now = final(t).value@;
    if k > 0 {
        text::lemma_offset_step(s, k - 1);
        assert(s.remove(k - 1) =~= s.take(k - 1) + s.skip(k));
    }
    if k < s.len() {
        text::lemma_offset_step(s, k);
        assert(s.remove(k) =~= s.take(k) + s.skip(k + 1));
    }
    if let Key::Char(c) = *key {
        let typed = s.insert(k, c);
        assert(typed =~= s.take(k).push(c) + s.skip(k));
        assert(typed.take(k) =~= s.take(k));
        assert(typed.take(k + 1) =~= s.take(k).push(c));
        text::lemma_offset_step(typed, k);
    }
}

/// The cursor of a focused field changes between shown and not shown once more than half a
/// second has passed since it last did; that of another field stays.
pub proof fn law_cursor_blinks(t: &mut TextInput, now: u64, p: &Palette, r: Vec<DrawOp>)
    requires
        call_ensures(TextInput::draw, (t, now, p), r),
        now >= old(t).cursor_blink,
    ensures
        old(t).focused && now - old(t).cursor_blink > 500 ==> final(t).cursor_on != old(t).cursor_on
            && final(t).cursor_blink == now,
        !old(t).focused || now - old(t).cursor_blink <= 500 ==> final(t).cursor_on == old(
            t).cursor_on && final(t).cursor_blink == old(t).cursor_blink,
        ({
            let s = canvas::inks(r@);
            let w = old(t).rect.w as int;
            let columns = if w < 12 {
                0
            } else {
                (w - 12) / 8
            };
            &&& s.len() == (if old(t).focused && final(t).cursor_on {
                4int
            } else {
                3
            })
            &&& s[2] is Text && s[2]->Text_x == old(t).rect.x + 6 && s[2]->Text_y == old(t).rect.y
                + 4
            &&& old(t).value@.len() == 0 && !old(t).focused ==> s[2]->Text_text == old(
                t).placeholder@ && s[2]->Text_fg == p.text_muted
            &&& old(t).focused ==> s[1] is Outline && s[1]->Outline_color == p.accent
            &&& s.len() == 4 ==> s[3] is VLine && s[3]->VLine_x == old(t).rect.x + 6 + 8 * (if old(
                t).cursor < columns {
                old(t).cursor as int
            } else {
                columns
            })
        }),
        final(t).value == old(t).value,
{
}

/// What is shown of a text that is too long for its field ends at the cursor, as many bytes
/// as the field has columns; a text that fits is shown whole.
pub proof fn law_shown_part_reaches_the_cursor(s: Seq<char>, cursor: int, w: int)
    requires
        0 <= cursor <= bytes(s),
        w >= 12,
    ensures
        ({
            let columns = (w - 12) / 8;
            let (from, to) = (shown_from(s, cursor, w), shown_to(s, cursor, w));
            &&& 0 <= from <= to <= bytes(s)
            &&& to - from <= columns
            &&& from <= cursor <= to
            &&& cursor <= columns ==> from == 0
            &&& cursor > columns ==> to == cursor && to - from == columns
            &&& bytes(s) <= columns ==> from == 0 && to == bytes(s)
        }),
{
}

/// A progress bar is filled as far as it is told, at most to its width; the filled part
/// stands inside its frame.
pub proof fn law_bar_is_filled_as_told(b: &mut ProgressBar, filled: usize, r: Vec<DrawOp>)
    requires
        call_ensures(ProgressBar::set, (b, filled), ()),
        call_ensures(ProgressBar::draw, (&*final(b),), r),
    ensures
        filled <= old(b).rect.w ==> final(b).filled == filled,
        filled > old(b).rect.w ==> final(b).filled == old(b).rect.w,
        final(b).rect == old(b).rect,
        ({
            let s = canvas::inks(r@);
            &&& s.len() == (if final(b).filled > 0 {
                3int
            } else {
                2
            })
            &&& s.len() == 3 && final(b).filled >= 2 ==> s[2] is FillRounded && s[2]->FillRounded_w
                == final(b).filled - 2 && s[2]->FillRounded_x == old(b).rect.x + 1
                && s[2]->FillRounded_y == old(b).rect.y + 1
        }),
{
}

/// A click on a check box changes it over, and one beside it does not; so two clicks on it
/// leave it as it was.
pub proof fn law_click_changes_the_check(c: &mut Checkbox, px: i32, py: i32, r: bool)
    requires
        in_sight(old(c).rect),
        call_ensures(Checkbox::on_click, (c, px, py), r),
    ensures
        r <==> on(old(c).rect, px, py),
        final(c).checked <==> (if r {
            !old(c).checked
        } else {
            old(c).checked
        }),
        final(c).rect == old(c).rect,
{
}

/// Scrolling goes 20 pixels a step, down to where the content ends at the lower edge and up
/// to its start. So scrolling back undoes it where neither end stopped it.
pub proof fn law_scrolling_goes_by_steps(v: &mut ScrollView, dy: i32, u: &mut ScrollView)
    requires
        -dy * 20 <= usize::MAX,
        dy > i32::MIN,
        old(v).scroll_y + dy * 20 <= usize::MAX,
        call_ensures(ScrollView::scroll_by, (v, dy), ()),
        *old(u) == *final(v),
        call_ensures(ScrollView::scroll_by, (u, (-dy) as i32), ()),
    ensures
        ({
            let end = if old(v).content_h < old(v).rect.h {
                0
            } else {
                old(v).content_h - old(v).rect.h
            };
            let to = old(v).scroll_y + 20 * dy;
            &&& dy >= 0 && to <= end ==> final(v).scroll_y == to
            &&& dy >= 0 && to > end ==> final(v).scroll_y == end
            &&& dy < 0 && to >= 0 ==> final(v).scroll_y == to
            &&& dy < 0 && to < 0 ==> final(v).scroll_y == 0
            &&& 0 <= to <= end && old(v).scroll_y <= end ==> final(u).scroll_y == old(v).scroll_y
        }),
        final(v).rect == old(v).rect,
        final(v).content_h == old(v).content_h,
{
}

/// The part of a view that shows content is what the scroll bar at its right leaves. The
/// thumb is drawn on the bar where the content is longer than the view, as far down as the
/// content is scrolled, in proportion.
pub proof fn law_thumb_shows_the_place(v: &ScrollView, p: &Palette, r: Vec<DrawOp>, view: Rect)
    requires
        v.rect.w >= 10,
        v.rect.x + v.rect.w <= usize::MAX,
        call_ensures(ScrollView::draw_scrollbar, (v, p), r),
        call_ensures(ScrollView::viewport, (v,), view),
    ensures
        view.x == v.rect.x && view.y == v.rect.y && view.h == v.rect.h,
        view.w + 10 == v.rect.w,
        ({
            let s = canvas::inks(r@);
            &&& s[0] is Fill && s[0]->Fill_x == view.x + view.w && s[0]->Fill_w == 10
                && s[0]->Fill_h == v.rect.h
            &&& s.len() == (if v.content_h > v.rect.h {
                2int
            } else {
                1
            })
            &&& s.len() == 2 ==> {
                let down = s[1]->FillRounded_y - v.rect.y;
                &&& s[1] is FillRounded
                &&& down * v.content_h <= v.scroll_y * v.rect.h
                &&& v.scroll_y * v.rect.h < (down + 1) * v.content_h
                &&& s[1]->FillRounded_h >= 20
                &&& s[1]->FillRounded_h > 20 ==> s[1]->FillRounded_h * v.content_h <= v.rect.h
                    * v.rect.h
            }
        }),
{
    if v.content_h > v.rect.h {
        let (a, c) = (v.scroll_y * v.rect.h, v.content_h as int);
        vstd::arithmetic::div_mod::lemma_fundamental_div_mod(a, c);
        let (q, m) = (a / c, a % c);
        assert(q * c <= a && a < (q + 1) * c) by (nonlinear_arith)
            requires
                a == c * q + m,
                0 <= m < c,
        ;
        let hh = v.rect.h * v.rect.h;
        vstd::arithmetic::div_mod::lemma_fundamental_div_mod(hh, c);
        let (t, u) = (hh / c, hh % c);
        assert(t * c <= hh) by (nonlinear_arith)
            requires
                hh == c * t + u,
                0 <= u,
        ;
    }
}

/// A slider follows the mouse while it is held: from a press on it, wherever the mouse goes,
/// until it is released. Its value is how far the mouse is from its left edge, between none
/// and its width.
pub proof fn law_slider_follows_the_mouse(
    s: &mut Slider,
    px: i32,
    py: i32,
    pressed: bool,
    r: Option<usize>,
)
    requires
        in_sight(old(s).rect),
        i32::MIN <= px - old(s).rect.x,
        call_ensures(Slider::on_mouse, (s, px, py, pressed), r),
    ensures
        final(s).dragging <==> pressed && (old(s).dragging || on(old(s).rect, px, py)),
        r is Some <==> final(s).dragging && old(s).rect.w > 0,
        r matches Some(v) ==> {
            &&& px < old(s).rect.x ==> v == 0
            &&& px > old(s).rect.x + old(s).rect.w ==> v == old(s).rect.w
            &&& old(s).rect.x <= px && px <= old(s).rect.x + old(s).rect.w ==> v == px - old(
                s).rect.x
        },
        final(s).rect == old(s).rect,
{
}

/// The knob of a slider stands with its middle where the filled part ends, and its value is
/// told in percent at its right.
pub proof fn law_knob_stands_at_the_value(
    s: &Slider,
    filled: usize,
    percent: u32,
    p: &Palette,
    r: Vec<DrawOp>,
)
    requires
        call_ensures(Slider::draw, (s, filled, percent, p), r),
        s.rect.x + filled >= 8,
    ensures
        ({
            let inks = canvas::inks(r@);
            let n = inks.len() as int;
            &&& n == (if filled > 0 {
                5int
            } else {
                4
            })
            &&& inks[n - 2] is FillRounded && inks[n - 2]->FillRounded_x
                + inks[n - 2]->FillRounded_w / 2 == s.rect.x + filled
            &&& filled > 0 ==> inks[2] is Fill && inks[2]->Fill_x == s.rect.x && inks[2]->Fill_w
                == filled
            &&& inks[n - 1] is Text && inks[n - 1]->Text_text == text::decimal(
                percent as nat,
            ).push('%') && inks[n - 1]->Text_x == s.rect.x + s.rect.w + 8
        }),
{
}

/// A tip is drawn exactly while it is shown, above the point, wide enough for its text.
pub proof fn law_tip_is_shown_above(
    t: &mut Tooltip,
    x: usize,
    y: usize,
    p: &Palette,
    r: Vec<DrawOp>,
    gone: &mut Tooltip,
    after: Vec<DrawOp>,
)
    requires
        call_ensures(Tooltip::show, (t, x, y), ()),
        call_ensures(Tooltip::draw, (&*final(t), p), r),
        text_w(old(t).text@) + 12 <= usize::MAX,
        x + 6 <= usize::MAX,
        y >= 28,
        call_ensures(Tooltip::dismiss, (gone,), ()),
        call_ensures(Tooltip::draw, (&*final(gone), p), after),
    ensures
        ({
            let s = canvas::inks(r@);
            &&& s.len() == 3
            &&& s[0] is FillRounded && s[0]->FillRounded_x == x && s[0]->FillRounded_y + 28 == y
                && s[0]->FillRounded_h == 24
            &&& s[0]->FillRounded_w == encode_utf8(old(t).text@).len() * 8 + 12
            &&& s[2] is Text && s[2]->Text_text == old(t).text@ && s[2]->Text_x == x + 6
                && s[2]->Text_y + 24 == y
        }),
        canvas::inks(after@).len() == 0,
{
}

proof fn lemma_row_at(rect: Rect, n: int, px: int, py: int, i: int)
    requires
        0 <= i,
        rect.x + rect.w <= i32::MAX,
        rect.y + rect.h + 4 + n * ITEM_H <= i32::MAX,
    ensures
        match row_at(rect, n, px, py, i) {
            Some(k) => i <= k < n && rect.x <= px < rect.x + rect.w && rect.y + rect.h + 2 + k * 22
                <= py < rect.y + rect.h + 24 + k * 22,
            None => forall|k: int|
                i <= k < n ==> !(rect.x <= px < rect.x + rect.w && rect.y + rect.h + 2 + #[trigger] (k
                    * 22) <= py < rect.y + rect.h + 24 + k * 22),
        },
    decreases n - i,
{
    if i < n {
        assert(i * 22 <= (n - 1) * 22);
        lemma_row_at(rect, n, px, py, i + 1);
    }
}

/// A click on a list's field opens it, or closes it where it is open; a click on a row of the
/// open list chooses that row: the rows lie under the field, 22 pixels each. Any other click
/// closes it and chooses nothing.
pub proof fn law_row_under_the_point_is_chosen(
    d: &mut Dropdown,
    px: i32,
    py: i32,
    r: Option<usize>,
    k: int,
)
    requires
        in_sight(old(d).rect),
        old(d).rect.y + old(d).rect.h + 4 + old(d).items@.len() * 22 <= i32::MAX,
        call_ensures(Dropdown::on_click, (d, px, py), r),
        0 <= k < old(d).items@.len(),
    ensures
        ({
            let rect = old(d).rect;
            let at = on(rect, px, py);
            let in_row = rect.x <= px && px < rect.x + rect.w && rect.y + rect.h + 2 + k * 22 <= py
                && py < rect.y + rect.h + 24 + k * 22;
            &&& final(d).open <==> at && !old(d).open
            &&& old(d).open && !at && in_row ==> r == Some(k as usize) && final(d).selected == k
            &&& r == Some(k as usize) ==> in_row && old(d).open
            &&& !old(d).open || at ==> r is None
            &&& r is None ==> final(d).selected == old(d).selected
        }),
{
    let rect = old(d).rect;
    let n = old(d).items@.len() as int;
    lemma_row_at(rect, n, px as int, py as int, 0);
    if old(d).open && !rect.has(px as int, py as int) {
        match row_at(rect, n, px as int, py as int, 0) {
            Some(j) => {
                assert(r == Some(j as usize));
            },
            None => {
                assert(k * 22 == k * 22);
            },
        }
    }
}

/// The labels of a menu bar lie side by side, each as wide as its text and 16 pixels, and
/// the one that a click hits while no menu is open is the one under the point; it is drawn
/// where it is hit.
pub proof fn law_menu_label_is_under_the_point(
    bar: Rect,
    menus: Seq<Menu>,
    px: int,
    py: int,
    i: int,
)
    requires
        0 <= i <= menus.len(),
        bar.y + bar.h <= i32::MAX,
        forall|j: int|
            0 <= j <= menus.len() ==> 4 <= #[trigger] menu_x(menus, bar.x as int, j) <= i32::MAX,
    ensures
        menu_hit(bar, menus, None, menu_x(menus, bar.x as int, i), px, py, i) matches MenuHit::Label(
            k,
        ) ==> {
            let left = menu_x(menus, bar.x as int, k) - 4;
            &&& i <= k < menus.len()
            &&& left <= px < left + encode_utf8(menus[k].label).len() * 8 + 16
            &&& bar.y <= py < bar.y + bar.h
        },
        !(menu_hit(bar, menus, None, menu_x(menus, bar.x as int, i), px, py, i) is Item),
        i < menus.len() ==> menu_x(menus, bar.x as int, i + 1) == menu_x(menus, bar.x as int, i)
            + encode_utf8(menus[i].label).len() * 8 + 16,
        menu_x(menus, bar.x as int, 0) == bar.x + 8,
    decreases menus.len() - i,
{
    if i < menus.len() {
        let lx = menu_x(menus, bar.x as int, i);
        assert(menu_x(menus, bar.x as int, i + 1) == lx + menus[i].label_w());
        assert(menu_x(menus, bar.x as int, i + 1) <= i32::MAX);
        law_menu_label_is_under_the_point(bar, menus, px, py, i + 1);
    }
}

/// A click on a menu's label opens that menu, or closes it where it is the open one; a click
/// on an entry answers with it and closes the menu, and so does a click elsewhere without an
/// answer.
pub proof fn law_menu_opens_and_closes(
    m: &mut MenuBar,
    px: i32,
    py: i32,
    r: Option<(usize, usize)>,
)
    requires
        call_ensures(MenuBar::on_click, (m, px, py), r),
    ensures
        match old(m).hit(px as int, py as int) {
            MenuHit::Label(i) => r is None && (old(m).active == Some(i as usize) ==> final(
                m).active is None) && (old(m).active != Some(i as usize) ==> final(m).active
                == Some(i as usize)),
            MenuHit::Item(i, j) => r == Some((i as usize, j as usize)) && final(m).active is None,
            MenuHit::Outside => r is None && final(m).active is None,
        },
        final(m).menus == old(m).menus,
{
}

/// A dialog stands in the middle of the screen, but for a pixel. Its buttons are 90 by 30
/// with 8 between, side by side in the middle of its lower part and inside it.
pub proof fn law_dialog_is_in_the_middle(
    title: &str,
    message: &str,
    buttons: Vec<&str>,
    sw: usize,
    sh: usize,
    r: Modal,
    i: int,
)
    requires
        1 <= buttons@.len() <= 3,
        360 <= sw <= i32::MAX,
        160 <= sh <= i32::MAX,
        call_ensures(Modal::new, (title, message, buttons, sw, sh), r),
        0 <= i < buttons@.len(),
    ensures
        r.rect.w == 360 && r.rect.h == 160,
        0 <= sw - 360 - 2 * r.rect.x <= 1,
        0 <= sh - 160 - 2 * r.rect.y <= 1,
        r.btns@.len() == buttons@.len(),
        r.btns@[i].label@ == buttons@[i]@,
        r.btns@[i].rect.w == 90 && r.btns@[i].rect.h == 30,
        r.rect.x <= r.btns@[i].rect.x && r.btns@[i].rect.x + 90 <= r.rect.x + 360,
        r.rect.y <= r.btns@[i].rect.y && r.btns@[i].rect.y + 30 <= r.rect.y + 160,
        i + 1 < buttons@.len() ==> r.btns@[i + 1].rect.x == r.btns@[i].rect.x + 98,
        ({
            let n = buttons@.len() as int;
            let left = r.btns@[0].rect.x - r.rect.x;
            let right = r.rect.x + 360 - (r.btns@[n - 1].rect.x + 90);
            0 <= right - left <= 1
        }),
        !r.visible && r.result is None,
{
    let n = buttons@.len() as int;
    let all = btns_of(r.btns@);
    assert(all.len() == r.btns@.len());
    assert(all[i] == r.btns@[i]@);
    assert(all[0] == r.btns@[0]@);
    assert(all[n - 1] == r.btns@[n - 1]@);
    if i + 1 < n {
        assert(all[i + 1] == r.btns@[i + 1]@);
    }
}

/// A dialog answers a click with the first of its buttons under the point, goes away with
/// that, and keeps the answer. A click beside the buttons, or while it is not shown, does
/// nothing of that.
pub proof fn law_dialog_answers_a_click(m: &mut Modal, px: i32, py: i32, r: Option<usize>, k: int)
    requires
        call_ensures(Modal::on_click, (m, px, py), r),
        0 <= k < old(m).btns@.len(),
        in_sight(old(m).btns@[k].rect),
    ensures
        !old(m).visible ==> r is None && !final(m).visible && final(m).result == old(m).result,
        r is Some ==> !final(m).visible && final(m).result == r,
        r is None ==> final(m).visible == old(m).visible && final(m).result == old(m).result,
        r == Some(k as usize) ==> on(old(m).btns@[k].rect, px, py),
        old(m).visible && on(old(m).btns@[k].rect, px, py) ==> r is Some && r->0 <= k,
{
    let btns = btns_of(old(m).btns@);
    assert(btns[k] == old(m).btns@[k]@);
    assert(old(m).btns@.len() == old(m).btns.len());
    law_answered_button_is_under_the_point(btns, px as int, py as int, 0);
}

/// Tabs share the width of their bar, or have 60 pixels where that would be less. A click on
/// the place where a tab is drawn makes it the active one.
pub proof fn law_tab_is_hit_where_it_is_drawn(
    b: &mut TabBar,
    px: i32,
    py: i32,
    r: Option<usize>,
    k: int,
)
    requires
        in_sight(old(b).rect),
        old(b).tab_w() <= i32::MAX,
        call_ensures(TabBar::on_click, (b, px, py), r),
        0 <= k < old(b).tabs@.len(),
    ensures
        ({
            let n = old(b).tabs@.len() as int;
            let tw = old(b).tab_w();
            let left = old(b).rect.x + k * tw;
            &&& tw >= 60
            &&& tw > 60 ==> n * tw <= old(b).rect.w && old(b).rect.w < n * (tw + 1)
            &&& on(old(b).rect, px, py) && left <= px < left + tw ==> r == Some(k as usize)
            &&& r == Some(k as usize) ==> left <= px < left + tw && on(old(b).rect, px, py)
            &&& r matches Some(i) ==> final(b).active == i
            &&& r is None ==> final(b).active == old(b).active
        }),
{
    let n = old(b).tabs@.len() as int;
    let w = old(b).rect.w as int;
    let tw = old(b).tab_w();
    assert(old(b).tabs@.len() == old(b).tabs.len());
    vstd::arithmetic::div_mod::lemma_fundamental_div_mod(w, n);
    let (q, m) = (w / n, w % n);
    assert(n * q <= w && w < n * (q + 1)) by (nonlinear_arith)
        requires
            w == n * q + m,
            0 <= m < n,
    ;
    let at = px - old(b).rect.x;
    if at >= 0 {
        vstd::arithmetic::div_mod::lemma_fundamental_div_mod(at, tw);
        let (i, rest) = (at / tw, at % tw);
        assert(i >= 0) by (nonlinear_arith)
            requires
                at == tw * i + rest,
                0 <= rest < tw,
                at >= 0,
        ;
        if k * tw <= at < k * tw + tw {
            assert(i == k) by (nonlinear_arith)
                requires
                    at == tw * i + rest,
                    0 <= rest < tw,
                    k * tw <= at < k * tw + tw,
            ;
        }
        if i == k {
            assert(k * tw <= at < k * tw + tw) by (nonlinear_arith)
                requires
                    at == tw * k + rest,
                    0 <= rest < tw,
            ;
        }
    }
}

} // verus!
