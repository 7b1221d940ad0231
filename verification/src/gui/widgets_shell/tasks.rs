//! The task card: a list of tasks, done or not, as many as fit.
use crate::gui::canvas::{self, blank, put, DrawOp, Icon, Ink};
use crate::gui::theme::{Palette, MD, SM, XS};
use crate::io::framebuffer::FONT_HEIGHT;
use vstd::prelude::*;

verus! {

#[derive(Debug)]
pub struct Task {
    pub label: String,
    pub done: bool,
    pub color: u32,
}

#[derive(Debug)]
pub struct TasksState {
    pub items: Vec<Task>,
}

/// The colour of a check mark.
pub const COLOR_CHECK: u32 = 0xFFFFFF;

/// What one task looks like at height `iy`.
pub open spec fn task_look(x: int, w: int, task: Task, iy: int, p: Palette) -> Seq<Ink> {
    let label = Ink::TextFit {
        text: task.label@,
        x: x + MD + 16,
        y: iy + 2,
        w: if w < 40 {
            0
        } else {
            w - 40
        },
        h: FONT_HEIGHT as int,
        fg: if task.done {
            p.text_muted
        } else {
            p.text_primary
        },
        bg: p.glass,
    };
    if task.done {
        seq![
            Ink::FillRounded { x: x + MD, y: iy + 2, w: 12, h: 12, color: p.text_muted, radius: 3 },
            Ink::Picture {
                icon: Icon::Check,
                x: x + MD - 2,
                y: iy,
                fg: COLOR_CHECK,
                bg: task.color,
            },
            label,
        ]
    } else {
        seq![Ink::Outline { x: x + MD, y: iy + 2, w: 12, h: 12, color: task.color }, label]
    }
}

/// What the tasks from `i` on look like, the first at height `iy`: as many as fit.
pub open spec fn tasks_look(
    x: int,
    bottom: int,
    w: int,
    items: Seq<Task>,
    i: int,
    iy: int,
    p: Palette,
) -> Seq<Ink>
    decreases items.len() - i,
{
    if i >= items.len() || iy + FONT_HEIGHT + XS > bottom {
        Seq::empty()
    } else {
        task_look(x, w, items[i], iy, p) + tasks_look(
            x,
            bottom,
            w,
            items,
            i + 1,
            iy + FONT_HEIGHT + XS,
            p,
        )
    }
}

/// What the card looks like.
pub open spec fn look(x: int, y: int, w: int, h: int, s: TasksState, p: Palette) -> Seq<Ink> {
    seq![
        Ink::Card {
            x,
            y,
            w,
            h,
            fill: p.glass,
            border: p.glass_border,
            radius: 14,
            shadow: 50,
        },
        Ink::Text { text: "Tasks"@, x: x + MD, y: y + MD, fg: p.text_secondary, bg: p.glass },
        Ink::Picture {
            icon: Icon::Plus,
            x: x + w - MD - 18,
            y: y + MD - 1,
            fg: p.accent,
            bg: p.glass,
        },
    ] + tasks_look(x, y + h, w, s.items@, 0, y + 36, p)
}

fn draw_task(ops: &mut Vec<DrawOp>, x: usize, w: usize, task: &Task, iy: usize, p: &Palette)
    requires
        x + 28 <= usize::MAX,
        iy + 2 <= usize::MAX,
    ensures
        canvas::inks(final(ops)@) == canvas::inks(old(ops)@) + task_look(x as int, w as int, *task, iy as int, *p),
{
    if task.done {
        put(
            ops,
            DrawOp::FillRounded {
                x: x + MD,
                y: iy + 2,
                w: 12,
                h: 12,
                color: p.text_muted,
                radius: 3,
            },
        );
        put(
            ops,
            DrawOp::Picture {
                icon: Icon::Check,
                x: x + MD - 2,
                y: iy,
                fg: COLOR_CHECK,
                bg: task.color,
            },
        );
    } else {
        put(ops, DrawOp::Outline { x: x + MD, y: iy + 2, w: 12, h: 12, color: task.color });
    }
    let fg: u32 = if task.done {
        p.text_muted
    } else {
        p.text_primary
    };
    put(
        ops,
        DrawOp::TextFit {
            text: task.label.clone(),
            x: x + MD + 16,
            y: iy + 2,
            w: w.saturating_sub(MD * 2 + 16),
            h: FONT_HEIGHT,
            fg,
            bg: p.glass,
        },
    );
    assert(canvas::inks(ops@) =~= canvas::inks(old(ops)@) + task_look(x as int, w as int, *task, iy as int, *p));
}

/// Draws the card.
pub fn draw(x: usize, y: usize, w: usize, h: usize, state: &TasksState, p: &Palette) -> (r: Vec<
    DrawOp,
>)
    requires
        30 <= x + w <= usize::MAX,
        x + 28 <= usize::MAX,
        y + h + 60 <= usize::MAX,
    ensures
        canvas::inks(r@) == look(x as int, y as int, w as int, h as int, *state, *p),
{
    let mut ops = blank();
    put(
        &mut ops,
        DrawOp::Card { x, y, w, h, fill: p.glass, border: p.glass_border, radius: 14, shadow: 50 },
    );
    put(
        &mut ops,
        DrawOp::Text {
            text: "Tasks".to_owned(),
            x: x + MD,
            y: y + MD,
            fg: p.text_secondary,
            bg: p.glass,
        },
    );
    put(
        &mut ops,
        DrawOp::Picture {
            icon: Icon::Plus,
            x: x + w - MD - 18,
            y: y + MD - 1,
            fg: p.accent,
            bg: p.glass,
        },
    );
    let ghost base = canvas::inks(ops@);
    let ghost goal = look(x as int, y as int, w as int, h as int, *state, *p);
    let mut iy: usize = y + MD + FONT_HEIGHT + SM;
    let mut i: usize = 0;
    assert(base + tasks_look(
        x as int,
        y + h,
        w as int,
        state.items@,
        0,
        iy as int,
        *p,
    ) =~= goal);
    while i < state.items.len()
        invariant_except_break
            i <= state.items@.len(),
            canvas::inks(ops@) + tasks_look(
                x as int,
                y + h,
                w as int,
                state.items@,
                i as int,
                iy as int,
                *p,
            ) == goal,
            y <= iy <= y + h + 36,
            x + 28 <= usize::MAX,
            y + h + 60 <= usize::MAX,
        ensures
            canvas::inks(ops@) == goal,
        decreases state.items@.len() - i,
    {
        let ghost before = canvas::inks(ops@);
        if iy + FONT_HEIGHT + XS > y + h {
            proof {
                assert(before + Seq::<Ink>::empty() =~= before);
            }
            break;
        }
        draw_task(&mut ops, x, w, &state.items[i], iy, p);
        let ghost rest = tasks_look(
            x as int,
            y + h,
            w as int,
            state.items@,
            i + 1,
            iy + FONT_HEIGHT + XS,
            *p,
        );
        assert(canvas::inks(ops@) + rest =~= before + tasks_look(
            x as int,
            y + h,
            w as int,
            state.items@,
            i as int,
            iy as int,
            *p,
        ));
        iy += FONT_HEIGHT + XS;
        i += 1;
        if i == state.items.len() {
            proof {
                assert(canvas::inks(ops@) + Seq::<Ink>::empty() =~= canvas::inks(ops@));
            }
        }
    }
    ops
}

/// How many drawing operations the first tasks take: three where one is done, two else.
pub open spec fn taken(items: Seq<Task>, n: int) -> int
    decreases n,
{
    if n <= 0 {
        0
    } else {
        taken(items, n - 1) + (if items[n - 1].done {
            3int
        } else {
            2
        })
    }
}

proof fn lemma_tasks(
    x: int,
    bottom: int,
    w: int,
    items: Seq<Task>,
    i: int,
    iy: int,
    p: Palette,
    k: int,
)
    requires
        0 <= i <= k < items.len(),
    ensures
        ({
            let s = tasks_look(x, bottom, w, items, i, iy, p);
            let at = taken(items, k) - taken(items, i);
            let y = iy + 20 * (k - i);
            &&& at >= 0
            &&& y + 20 <= bottom ==> {
                &&& items[k].done ==> s.len() >= at + 3 && s[at] is FillRounded && s[at + 1]
                    is Picture && s[at + 1]->Picture_icon == Icon::Check && s[at + 2] is TextFit
                    && s[at + 2]->TextFit_text == items[k].label@ && s[at + 2]->TextFit_y == y + 2
                    && s[at + 2]->TextFit_fg == p.text_muted
                &&& !items[k].done ==> s.len() >= at + 2 && s[at] is Outline && s[at]->Outline_color
                    == items[k].color && s[at + 1] is TextFit && s[at + 1]->TextFit_text
                    == items[k].label@ && s[at + 1]->TextFit_y == y + 2 && s[at + 1]->TextFit_fg
                    == p.text_primary
            }
            &&& y + 20 > bottom ==> s.len() <= at
        }),
    decreases k - i,
{
    let s = tasks_look(x, bottom, w, items, i, iy, p);
    let head = task_look(x, w, items[i], iy, p);
    let step: int = if items[i].done {
        3
    } else {
        2
    };
    assert(head.len() == step);
    if i < k {
        lemma_tasks(x, bottom, w, items, i + 1, iy + 20, p, k);
        assert(taken(items, i + 1) == taken(items, i) + step);
        let rest = tasks_look(x, bottom, w, items, i + 1, iy + 20, p);
        let at = taken(items, k) - taken(items, i);
        if iy + 20 <= bottom {
            assert(s == head + rest);
            if iy + 20 * (k - i) + 20 <= bottom {
                assert(s[at] == rest[at - step]);
                assert(s[at + 1] == rest[at + 1 - step]);
                if items[k].done {
                    assert(s[at + 2] == rest[at + 2 - step]);
                }
            }
        }
    } else if iy + 20 <= bottom {
        let rest = tasks_look(x, bottom, w, items, i + 1, iy + 20, p);
        assert(s == head + rest);
        assert(s[0] == head[0]);
        assert(s[1] == head[1]);
        if items[i].done {
            assert(s[2] == head[2]);
        }
    }
}

/// A task is drawn exactly where it ends above the lower edge of the card: the first 36
/// pixels below the upper edge, and each of the others 20 below the one before. A done task
/// has a filled box with a check and a muted name, another an empty box in its colour.
pub proof fn law_tasks_are_listed_in_order(
    x: usize,
    y: usize,
    w: usize,
    h: usize,
    state: &TasksState,
    p: &Palette,
    r: Vec<DrawOp>,
    k: int,
)
    requires
        call_ensures(draw, (x, y, w, h, state, p), r),
        0 <= k < state.items@.len(),
    ensures
        ({
            let s = canvas::inks(r@);
            let at = 3 + taken(state.items@, k);
            let top = y + 36 + 20 * k;
            let t = state.items@[k];
            &&& top + 20 <= y + h && t.done ==> s[at] is FillRounded && s[at + 1] is Picture
                && s[at + 1]->Picture_icon == Icon::Check && s[at + 2] is TextFit
                && s[at + 2]->TextFit_text == t.label@ && s[at + 2]->TextFit_y == top + 2
                && s[at + 2]->TextFit_fg == p.text_muted
            &&& top + 20 <= y + h && !t.done ==> s[at] is Outline && s[at]->Outline_color == t.color
                && s[at + 1] is TextFit && s[at + 1]->TextFit_text == t.label@
                && s[at + 1]->TextFit_y == top + 2 && s[at + 1]->TextFit_fg == p.text_primary
            &&& top + 20 > y + h ==> s.len() <= at
        }),
{
    lemma_tasks(x as int, y + h, w as int, state.items@, 0, y + 36, *p, k);
    let rest = tasks_look(x as int, y + h, w as int, state.items@, 0, y + 36, *p);
    let s = canvas::inks(r@);
    let n = taken(state.items@, k);
    assert(s.len() == rest.len() + 3);
    if y + 36 + 20 * k + 20 <= y + h {
        assert(s[3 + n] == rest[n]);
        assert(s[4 + n] == rest[n + 1]);
        if state.items@[k].done {
            assert(s[5 + n] == rest[n + 2]);
        }
    }
}

} // verus!
