//! The calendar card: the month, today and the events that fit.
use crate::gui::canvas::{self, blank, put, DrawOp, Icon, Ink};
use crate::gui::theme::{Palette, MD, SM, XS};
use crate::io::framebuffer::{FONT_HEIGHT, FONT_WIDTH};
use vstd::prelude::*;

verus! {

#[derive(Debug)]
pub struct CalendarEvent {
    pub time: String,
    pub label: String,
    pub color: u32,
}

#[derive(Debug)]
pub struct CalendarState {
    pub month_label: String,
    /// Days since a Monday.
    pub day: u8,
    pub events: Vec<CalendarEvent>,
}

/// The line between the heading and the events.
pub const COLOR_RULE: u32 = 0x1A2A40;

/// The name of a day, counted from Monday.
pub open spec fn day_name(day: int) -> Seq<char> {
    if day % 7 == 0 {
        "Mon"@
    } else if day % 7 == 1 {
        "Tue"@
    } else if day % 7 == 2 {
        "Wed"@
    } else if day % 7 == 3 {
        "Thu"@
    } else if day % 7 == 4 {
        "Fri"@
    } else if day % 7 == 5 {
        "Sat"@
    } else {
        "Sun"@
    }
}

fn weekday(day: u8) -> (r: &'static str)
    ensures
        r@ == day_name(day as int),
{
    match day % 7 {
        0 => "Mon",
        1 => "Tue",
        2 => "Wed",
        3 => "Thu",
        4 => "Fri",
        5 => "Sat",
        _ => "Sun",
    }
}

/// Where the label of an event starts: behind its bar and its time.
pub const LABEL_DX: usize = 60;

/// What the events from `i` on look like, the first at height `iy`: as many as fit.
pub open spec fn events_look(
    x: int,
    bottom: int,
    w: int,
    events: Seq<CalendarEvent>,
    i: int,
    iy: int,
    p: Palette,
) -> Seq<Ink>
    decreases events.len() - i,
{
    if i >= events.len() || iy + FONT_HEIGHT + SM > bottom {
        Seq::empty()
    } else {
        seq![
            Ink::Fill {
                x: x + MD,
                y: iy + 2,
                w: 3,
                h: FONT_HEIGHT - 4,
                color: events[i].color,
            },
            Ink::Text {
                text: events[i].time@,
                x: x + MD + 8,
                y: iy,
                fg: p.text_muted,
                bg: p.glass,
            },
            Ink::TextFit {
                text: events[i].label@,
                x: x + LABEL_DX,
                y: iy,
                w: if w < 72 {
                    0
                } else {
                    w - 72
                },
                h: FONT_HEIGHT as int,
                fg: p.text_primary,
                bg: p.glass,
            },
        ] + events_look(x, bottom, w, events, i + 1, iy + FONT_HEIGHT + XS, p)
    }
}

/// What the card looks like.
pub open spec fn look(x: int, y: int, w: int, h: int, s: CalendarState, p: Palette) -> Seq<Ink> {
    seq![
        Ink::Card {
            x,
            y,
            w,
            h,
            fill: p.glass,
            border: p.glass_border,
            radius: 14,
            shadow: 50,
        },
        Ink::Text {
            text: s.month_label@,
            x: x + MD,
            y: y + MD,
            fg: p.text_primary,
            bg: p.glass,
        },
        Ink::Picture {
            icon: Icon::Plus,
            x: x + w - MD - 18,
            y: y + MD - 1,
            fg: p.accent,
            bg: p.glass,
        },
        Ink::Text {
            text: "Today \u{2014} "@ + day_name(s.day as int),
            x: x + MD,
            y: y + 36,
            fg: p.text_secondary,
            bg: p.glass,
        },
        Ink::HLine { x: x + MD, y: y + 60, w: w - 24, color: COLOR_RULE },
    ] + events_look(x, y + h, w, s.events@, 0, y + 68, p)
}

/// Draws the card.
pub fn draw(x: usize, y: usize, w: usize, h: usize, state: &CalendarState, p: &Palette) -> (r: Vec<
    DrawOp,
>)
    requires
        w >= 24,
        30 <= x + w <= usize::MAX,
        x + LABEL_DX <= usize::MAX,
        y + h + 92 <= usize::MAX,
    ensures
        canvas::inks(r@) == look(x as int, y as int, w as int, h as int, *state, *p),
{
    let mut ops = blank();
    put(
        &mut ops,
        DrawOp::Card { x, y, w, h, fill: p.glass, border: p.glass_border, radius: 14, shadow: 50 },
    );
    let tx: usize = x + MD;
    put(
        &mut ops,
        DrawOp::Text {
            text: state.month_label.clone(),
            x: tx,
            y: y + MD,
            fg: p.text_primary,
            bg: p.glass,
        },
    );
    put(
        &mut ops,
        DrawOp::Picture {
            icon: Icon::Plus,
            x: x + w - MD - 18,
            y: y + MD - 1,
            fg: p.accent,
            bg: p.glass,
        },
    );
    let mut today = "Today \u{2014} ".to_owned();
    today.append(weekday(state.day));
    put(
        &mut ops,
        DrawOp::Text { text: today, x: tx, y: y + 36, fg: p.text_secondary, bg: p.glass },
    );
    put(&mut ops, DrawOp::HLine { x: tx, y: y + 60, w: w - 24, color: COLOR_RULE });
    let ghost base = canvas::inks(ops@);
    let ghost goal = look(x as int, y as int, w as int, h as int, *state, *p);
    let mut iy: usize = y + 68;
    let mut i: usize = 0;
    assert(base + events_look(
        x as int,
        y + h,
        w as int,
        state.events@,
        0,
        iy as int,
        *p,
    ) =~= goal);
    while i < state.events.len()
        invariant_except_break
            i <= state.events@.len(),
            canvas::inks(ops@) + events_look(
                x as int,
                y + h,
                w as int,
                state.events@,
                i as int,
                iy as int,
                *p,
            ) == goal,
            y <= iy <= y + h + 68,
            tx == x + MD,
            x + LABEL_DX <= usize::MAX,
            y + h + 92 <= usize::MAX,
        ensures
            canvas::inks(ops@) == goal,
        decreases state.events@.len() - i,
    {
        let ghost before = canvas::inks(ops@);
        if iy + FONT_HEIGHT + SM > y + h {
            proof {
                assert(before + Seq::<Ink>::empty() =~= before);
            }
            break;
        }
        let e = &state.events[i];
        put(&mut ops, DrawOp::Fill { x: tx, y: iy + 2, w: 3, h: FONT_HEIGHT - 4, color: e.color });
        put(
            &mut ops,
            DrawOp::Text { text: e.time.clone(), x: tx + 8, y: iy, fg: p.text_muted, bg: p.glass },
        );
        put(
            &mut ops,
            DrawOp::TextFit {
                text: e.label.clone(),
                x: tx + 8 + 5 * FONT_WIDTH,
                y: iy,
                w: w.saturating_sub(MD * 2 + 8 + 5 * FONT_WIDTH),
                h: FONT_HEIGHT,
                fg: p.text_primary,
                bg: p.glass,
            },
        );
        let ghost rest = events_look(
            x as int,
            y + h,
            w as int,
            state.events@,
            i + 1,
            iy + FONT_HEIGHT + XS,
            *p,
        );
        assert(canvas::inks(ops@) + rest =~= before + events_look(
            x as int,
            y + h,
            w as int,
            state.events@,
            i as int,
            iy as int,
            *p,
        ));
        iy += FONT_HEIGHT + XS;
        i += 1;
        if i == state.events.len() {
            proof {
                assert(canvas::inks(ops@) + Seq::<Ink>::empty() =~= canvas::inks(ops@));
            }
        }
    }
    ops
}

proof fn lemma_events(
    x: int,
    bottom: int,
    w: int,
    events: Seq<CalendarEvent>,
    i: int,
    iy: int,
    p: Palette,
    k: int,
)
    requires
        0 <= i <= k < events.len(),
    ensures
        ({
            let s = events_look(x, bottom, w, events, i, iy, p);
            let at = 3 * (k - i);
            let y = iy + 20 * (k - i);
            &&& y + 24 <= bottom ==> s.len() >= at + 3 && s[at] == (Ink::Fill {
                x: x + 12,
                y: y + 2,
                w: 3,
                h: 12,
                color: events[k].color,
            }) && s[at + 1] is Text && s[at + 1]->Text_text == events[k].time@ && s[at + 1]->Text_y
                == y && s[at + 2] is TextFit && s[at + 2]->TextFit_text == events[k].label@
                && s[at + 2]->TextFit_y == y
            &&& y + 24 > bottom ==> s.len() <= at
        }),
    decreases k - i,
{
    if i < k && iy + 24 <= bottom {
        lemma_events(x, bottom, w, events, i + 1, iy + 20, p, k);
        let rest = events_look(x, bottom, w, events, i + 1, iy + 20, p);
        let s = events_look(x, bottom, w, events, i, iy, p);
        assert(s.len() == rest.len() + 3);
        let at = 3 * (k - i);
        if iy + 20 * (k - i) + 24 <= bottom {
            assert(s[at] == rest[at - 3]);
            assert(s[at + 1] == rest[at - 2]);
            assert(s[at + 2] == rest[at - 1]);
        }
    }
}

/// An event is drawn exactly where it ends 8 pixels above the lower edge of the card: the
/// first 68 pixels below the upper edge, and each of the others 20 below the one before,
/// with a mark in its colour, its time and its name.
pub proof fn law_events_are_listed_in_order(
    x: usize,
    y: usize,
    w: usize,
    h: usize,
    state: &CalendarState,
    p: &Palette,
    r: Vec<DrawOp>,
    k: int,
)
    requires
        call_ensures(draw, (x, y, w, h, state, p), r),
        0 <= k < state.events@.len(),
    ensures
        ({
            let s = canvas::inks(r@);
            let at = 5 + 3 * k;
            let top = y + 68 + 20 * k;
            let e = state.events@[k];
            &&& top + 24 <= y + h ==> s.len() >= at + 3 && s[at] is Fill && s[at]->Fill_color
                == e.color && s[at]->Fill_y == top + 2 && s[at + 1] is Text && s[at + 1]->Text_text
                == e.time@ && s[at + 1]->Text_y == top && s[at + 2] is TextFit
                && s[at + 2]->TextFit_text == e.label@ && s[at + 2]->TextFit_y == top
            &&& top + 24 > y + h ==> s.len() <= at
            &&& s[1] is Text && s[1]->Text_text == state.month_label@
        }),
{
    lemma_events(
        x as int,
        y + h,
        w as int,
        state.events@,
        0,
        y + 68,
        *p,
        k,
    );
    let rest = events_look(x as int, y + h, w as int, state.events@, 0, y + 68, *p);
    let s = canvas::inks(r@);
    let at = 5 + 3 * k;
    assert(s.len() == rest.len() + 5);
    if y + 68 + 20 * k + 24 <= y + h {
        assert(s[at] == rest[at - 5]);
        assert(s[at + 1] == rest[at - 4]);
        assert(s[at + 2] == rest[at - 3]);
    }
}

/// The days of the week come round after seven, from Monday on, each with its own name.
pub proof fn law_days_come_round(a: int, b: int)
    requires
        0 <= a < 7,
        0 <= b < 7,
    ensures
        day_name(a + 7) == day_name(a),
        a != b ==> day_name(a) != day_name(b),
        day_name(0) == "Mon"@,
        day_name(6) == "Sun"@,
{
    reveal_strlit("Mon");
    reveal_strlit("Tue");
    reveal_strlit("Wed");
    reveal_strlit("Thu");
    reveal_strlit("Fri");
    reveal_strlit("Sat");
    reveal_strlit("Sun");
    assert("Mon"@[0] == 'M' && "Tue"@[0] == 'T' && "Wed"@[0] == 'W' && "Thu"@[0] == 'T'
        && "Fri"@[0] == 'F' && "Sat"@[0] == 'S' && "Sun"@[0] == 'S');
    assert("Tue"@[1] == 'u' && "Thu"@[1] == 'h' && "Sat"@[1] == 'a' && "Sun"@[1] == 'u');
}

} // verus!
