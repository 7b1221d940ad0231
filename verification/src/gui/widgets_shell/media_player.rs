//! The media player card: the title, how far it is played and the controls.
use crate::gui::canvas::{self, blank, put, DrawOp, Icon, Ink};
use crate::gui::theme::{Palette, MD, SM};
use crate::io::framebuffer::FONT_HEIGHT;
use vstd::prelude::*;

verus! {

#[derive(Debug)]
pub struct MediaState {
    pub title: String,
    pub artist: String,
    pub playing: bool,
    /// Pixels of the progress bar that are filled.
    pub filled: usize,
}

pub open spec fn gap(a: int, b: int) -> int {
    if a < b {
        0
    } else {
        a - b
    }
}

/// The side of the square for the cover, in a card of height `h`.
pub open spec fn art_size(h: int) -> int {
    if gap(h, 24) < 60 {
        gap(h, 24)
    } else {
        60
    }
}

/// What the progress bar looks like: the bar, the played part and a knob between
/// the ends.
pub open spec fn progress_look(x: int, y: int, w: int, filled: int, p: Palette) -> Seq<Ink> {
    let bar = seq![Ink::FillRounded { x, y, w, h: 5, color: p.progress_bg, radius: 3 }];
    let part = seq![
        Ink::FillRounded {
            x,
            y,
            w: if filled < w {
                filled
            } else {
                w
            },
            h: 5,
            color: p.accent,
            radius: 3,
        },
    ];
    let knob = seq![
        Ink::FillRounded { x: x + filled - 3, y: y - 2, w: 6, h: 9, color: p.accent, radius: 4 },
    ];
    bar + (if filled > 0 {
        part
    } else {
        Seq::empty()
    }) + (if 0 < filled < w {
        knob
    } else {
        Seq::empty()
    })
}

/// What the upper part of the card looks like: the cover, title and artist.
pub open spec fn head_look(x: int, y: int, w: int, h: int, s: MediaState, p: Palette) -> Seq<Ink> {
    let art = art_size(h);
    let (tx, ty) = (x + MD + art + SM, y + MD);
    let tw = gap(w, art + 32);
    seq![
        Ink::Card {
            x,
            y,
            w,
            h,
            fill: p.glass_dark,
            border: p.glass_border,
            radius: 14,
            shadow: 50,
        },
        Ink::Card {
            x: x + MD,
            y: y + MD,
            w: art,
            h: art,
            fill: p.accent_soft,
            border: p.accent,
            radius: 10,
            shadow: 0,
        },
        Ink::Picture {
            icon: Icon::Music,
            x: x + MD + art / 2 - 8,
            y: y + MD + art / 2 - 8,
            fg: p.accent,
            bg: p.accent_soft,
        },
        Ink::TextFit {
            text: s.title@,
            x: tx,
            y: ty,
            w: tw,
            h: FONT_HEIGHT as int,
            fg: p.text_primary,
            bg: p.glass_dark,
        },
        Ink::TextFit {
            text: s.artist@,
            x: tx,
            y: ty + 20,
            w: tw,
            h: FONT_HEIGHT as int,
            fg: p.text_secondary,
            bg: p.glass_dark,
        },
    ]
}

/// What the controls look like, the first at (`x`, `y`).
pub open spec fn controls_look(x: int, y: int, playing: bool, p: Palette) -> Seq<Ink> {
    seq![
        Ink::Picture { icon: Icon::Prev, x, y, fg: p.text_secondary, bg: p.glass_dark },
        Ink::Picture {
            icon: if playing {
                Icon::Pause
            } else {
                Icon::Play
            },
            x: x + 20,
            y,
            fg: p.accent,
            bg: p.glass_dark,
        },
        Ink::Picture { icon: Icon::Next, x: x + 40, y, fg: p.text_secondary, bg: p.glass_dark },
        Ink::Picture { icon: Icon::Heart, x: x + 62, y, fg: p.status_err, bg: p.glass_dark },
    ]
}

/// What the card looks like.
pub open spec fn look(x: int, y: int, w: int, h: int, s: MediaState, p: Palette) -> Seq<Ink> {
    let py = y + MD + art_size(h) + SM;
    head_look(x, y, w, h, s, p) + progress_look(x + MD, py, gap(w, 24), s.filled as int, p)
        + controls_look(x + w / 2 - 36, py + 14, s.playing, p)
}

fn draw_controls(ops: &mut Vec<DrawOp>, x: usize, y: usize, playing: bool, p: &Palette)
    requires
        x + 62 <= usize::MAX,
    ensures
        canvas::inks(final(ops)@) == canvas::inks(old(ops)@) + controls_look(x as int, y as int, playing, *p),
{
    let play = if playing {
        Icon::Pause
    } else {
        Icon::Play
    };
    put(ops, DrawOp::Picture { icon: Icon::Prev, x, y, fg: p.text_secondary, bg: p.glass_dark });
    put(ops, DrawOp::Picture { icon: play, x: x + 20, y, fg: p.accent, bg: p.glass_dark });
    put(
        ops,
        DrawOp::Picture {
            icon: Icon::Next,
            x: x + 40,
            y,
            fg: p.text_secondary,
            bg: p.glass_dark,
        },
    );
    put(
        ops,
        DrawOp::Picture { icon: Icon::Heart, x: x + 62, y, fg: p.status_err, bg: p.glass_dark },
    );
    assert(canvas::inks(ops@) =~= canvas::inks(old(ops)@) + controls_look(x as int, y as int, playing, *p));
}

fn draw_progress(
    ops: &mut Vec<DrawOp>,
    x: usize,
    y: usize,
    w: usize,
    filled: usize,
    p: &Palette,
)
    requires
        x >= 3,
        y >= 2,
        x + w <= usize::MAX,
    ensures
        canvas::inks(final(ops)@) == canvas::inks(old(ops)@) + progress_look(
            x as int,
            y as int,
            w as int,
            filled as int,
            *p,
        ),
{
    put(ops, DrawOp::FillRounded { x, y, w, h: 5, color: p.progress_bg, radius: 3 });
    if filled > 0 {
        let part: usize = if filled < w {
            filled
        } else {
            w
        };
        put(ops, DrawOp::FillRounded { x, y, w: part, h: 5, color: p.accent, radius: 3 });
    }
    if filled > 0 && filled < w {
        put(
            ops,
            DrawOp::FillRounded {
                x: x + filled - 3,
                y: y - 2,
                w: 6,
                h: 9,
                color: p.accent,
                radius: 4,
            },
        );
    }
    assert(canvas::inks(ops@) =~= canvas::inks(old(ops)@) + progress_look(
        x as int,
        y as int,
        w as int,
        filled as int,
        *p,
    ));
}

/// Draws the card.
pub fn draw(x: usize, y: usize, w: usize, h: usize, state: &MediaState, p: &Palette) -> (r: Vec<
    DrawOp,
>)
    requires
        x + w / 2 >= 36,
        x + w + 80 <= usize::MAX,
        y + 94 <= usize::MAX,
    ensures
        canvas::inks(r@) == look(x as int, y as int, w as int, h as int, *state, *p),
{
    let mut ops = blank();
    put(
        &mut ops,
        DrawOp::Card { x, y, w, h, fill: p.glass_dark, border: p.glass_border, radius: 14, shadow: 50 },
    );
    let room: usize = h.saturating_sub(MD * 2);
    let art: usize = if room < 60 {
        room
    } else {
        60
    };
    let ax: usize = x + MD;
    let ay: usize = y + MD;
    put(
        &mut ops,
        DrawOp::Card {
            x: ax,
            y: ay,
            w: art,
            h: art,
            fill: p.accent_soft,
            border: p.accent,
            radius: 10,
            shadow: 0,
        },
    );
    put(
        &mut ops,
        DrawOp::Picture {
            icon: Icon::Music,
            x: ax + art / 2 - 8,
            y: ay + art / 2 - 8,
            fg: p.accent,
            bg: p.accent_soft,
        },
    );
    let tx: usize = ax + art + SM;
    let tw: usize = w.saturating_sub(art + MD * 2 + SM);
    put(
        &mut ops,
        DrawOp::TextFit {
            text: state.title.clone(),
            x: tx,
            y: ay,
            w: tw,
            h: FONT_HEIGHT,
            fg: p.text_primary,
            bg: p.glass_dark,
        },
    );
    put(
        &mut ops,
        DrawOp::TextFit {
            text: state.artist.clone(),
            x: tx,
            y: ay + FONT_HEIGHT + 4,
            w: tw,
            h: FONT_HEIGHT,
            fg: p.text_secondary,
            bg: p.glass_dark,
        },
    );
    assert(canvas::inks(ops@) =~= head_look(x as int, y as int, w as int, h as int, *state, *p));
    let py: usize = ay + art + SM;
    draw_progress(&mut ops, ax, py, w.saturating_sub(MD * 2), state.filled, p);
    draw_controls(&mut ops, x + w / 2 - 36, py + 14, state.playing, p);
    ops
}

/// The bar of what was played is filled from its left as far as it is told, at most to its
/// end, and has a knob with its middle there while it is neither empty nor full.
pub proof fn law_bar_shows_what_was_played(x: int, y: int, w: int, filled: int, p: Palette)
    requires
        0 <= filled,
        0 <= w,
    ensures
        ({
            let s = progress_look(x, y, w, filled, p);
            &&& s[0] is FillRounded && s[0]->FillRounded_x == x && s[0]->FillRounded_w == w
                && s[0]->FillRounded_color == p.progress_bg
            &&& filled == 0 ==> s.len() == 1
            &&& filled > 0 ==> s[1] is FillRounded && s[1]->FillRounded_x == x
                && s[1]->FillRounded_color == p.accent && s[1]->FillRounded_w <= w
                && s[1]->FillRounded_w <= filled && (s[1]->FillRounded_w == w
                || s[1]->FillRounded_w == filled)
            &&& 0 < filled < w ==> s.len() == 3 && s[2] is FillRounded && s[2]->FillRounded_x
                + s[2]->FillRounded_w / 2 == x + filled
            &&& filled >= w && filled > 0 ==> s.len() == 2
        }),
{
}

/// The middle control stops what plays and starts what does not; before it goes to the
/// piece before, behind it to the next.
pub proof fn law_control_is_the_other_way(
    x: usize,
    y: usize,
    w: usize,
    h: usize,
    state: &MediaState,
    p: &Palette,
    r: Vec<DrawOp>,
)
    requires
        x + w / 2 >= 36,
        call_ensures(draw, (x, y, w, h, state, p), r),
    ensures
        ({
            let s = canvas::inks(r@);
            let n = s.len() as int;
            &&& n >= 10
            &&& s[n - 4] is Picture && s[n - 4]->Picture_icon == Icon::Prev
            &&& s[n - 3] is Picture && (s[n - 3]->Picture_icon == Icon::Pause <==> state.playing)
                && (s[n - 3]->Picture_icon == Icon::Play <==> !state.playing)
            &&& s[n - 2] is Picture && s[n - 2]->Picture_icon == Icon::Next
            &&& s[n - 3]->Picture_x == s[n - 4]->Picture_x + 20 && s[n - 2]->Picture_x == s[n
                - 3]->Picture_x + 20
            &&& s[3] is TextFit && s[3]->TextFit_text == state.title@
            &&& s[4] is TextFit && s[4]->TextFit_text == state.artist@ && s[4]->TextFit_y
                == s[3]->TextFit_y + 20
            &&& s[1] is Card && s[1]->Card_w == s[1]->Card_h && s[1]->Card_w <= 60
            &&& h >= 24 ==> s[1]->Card_y + s[1]->Card_h + 12 <= y + h
        }),
{
    let s = canvas::inks(r@);
    let py = y + 12 + art_size(h as int) + 8;
    let head = head_look(x as int, y as int, w as int, h as int, *state, *p);
    let bar = progress_look(x + 12, py, gap(w as int, 24), state.filled as int, *p);
    let ends = controls_look(x + w as int / 2 - 36, py + 14, state.playing, *p);
    assert(s == head + bar + ends);
    let n = s.len() as int;
    assert(s[n - 4] == ends[0]);
    assert(s[n - 3] == ends[1]);
    assert(s[n - 2] == ends[2]);
    assert(s[1] == head[1]);
    assert(s[3] == head[3]);
    assert(s[4] == head[4]);
}

} // verus!
