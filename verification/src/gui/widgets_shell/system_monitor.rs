//! The system monitor card: gauges, network traffic and the state of the node.
use crate::gui::canvas::{self, blank, put, DrawOp, Ink};
use crate::gui::theme::{Palette, LG, MD, SM, XS};
use crate::io::framebuffer::FONT_HEIGHT;
use crate::text;
use vstd::prelude::*;

verus! {

#[derive(Debug)]
pub struct MonitorState {
    pub cpu_pct: u8,
    pub ram_pct: u8,
    pub disk_pct: u8,
    /// What was sent and received, as it is shown.
    pub net: String,
    pub node_h: u64,
    pub peers: u64,
}

pub const COLOR_DISK: u32 = 0xA029BF;

/// The width of the bar of a gauge of width `w`.
pub open spec fn bar_w(w: int) -> int {
    if w < 68 {
        0
    } else {
        w - 68
    }
}

/// How much of the bar is filled at `pct` percent: at most all of it.
pub open spec fn bar_filled(w: int, pct: int) -> int {
    if bar_w(w) * pct / 100 < bar_w(w) {
        bar_w(w) * pct / 100
    } else {
        bar_w(w)
    }
}

/// What a gauge looks like: label, bar and value.
pub open spec fn gauge_look(
    x: int,
    y: int,
    w: int,
    label: Seq<char>,
    pct: u8,
    color: u32,
    p: Palette,
) -> Seq<Ink> {
    let bx = x + 38;
    let name = Ink::Text { text: label, x, y: y + 1, fg: p.text_muted, bg: p.glass };
    let bar = Ink::FillRounded {
        x: bx,
        y,
        w: bar_w(w),
        h: 12,
        color: p.progress_bg,
        radius: 3,
    };
    let part = Ink::FillRounded { x: bx, y, w: bar_filled(w, pct as int), h: 12, color, radius: 3 };
    let value = Ink::Text {
        text: text::padded(text::decimal(pct as nat), ' ', 3).push('%'),
        x: bx + bar_w(w) + 4,
        y: y + 1,
        fg: p.text_muted,
        bg: p.glass,
    };
    if bar_filled(w, pct as int) > 0 {
        seq![name, bar, part, value]
    } else {
        seq![name, bar, value]
    }
}

/// What the card looks like.
pub open spec fn look(x: int, y: int, w: int, h: int, s: MonitorState, p: Palette) -> Seq<Ink> {
    let gx = x + MD;
    let gw = w - 24;
    seq![
        Ink::Card {
            x,
            y,
            w,
            h,
            fill: p.glass,
            border: p.glass_border,
            radius: 14,
            shadow: 50,
        },
        Ink::Text { text: "System"@, x: gx, y: y + MD, fg: p.text_secondary, bg: p.glass },
    ] + gauge_look(gx, y + 36, gw, "CPU"@, s.cpu_pct, p.accent, p) + gauge_look(
        gx,
        y + 58,
        gw,
        "RAM"@,
        s.ram_pct,
        p.status_warn,
        p,
    ) + gauge_look(gx, y + 80, gw, "Disk"@, s.disk_pct, COLOR_DISK, p) + seq![
        Ink::Text { text: s.net@, x: gx, y: y + 114, fg: p.text_muted, bg: p.glass },
        Ink::Text {
            text: "Node h="@ + text::decimal(s.node_h as nat) + "  peers="@ + text::decimal(
                s.peers as nat,
            ),
            x: gx,
            y: y + 138,
            fg: p.text_accent,
            bg: p.glass,
        },
    ]
}

fn gauge(
    ops: &mut Vec<DrawOp>,
    x: usize,
    y: usize,
    w: usize,
    label: &str,
    pct: u8,
    color: u32,
    p: &Palette,
)
    requires
        x + w + 42 <= usize::MAX,
        y + 1 <= usize::MAX,
        w * 255 <= usize::MAX,
    ensures
        canvas::inks(final(ops)@) == canvas::inks(old(ops)@) + gauge_look(
            x as int,
            y as int,
            w as int,
            label@,
            pct,
            color,
            *p,
        ),
{
    let bx: usize = x + 38;
    let bw: usize = w.saturating_sub(68);
    put(
        ops,
        DrawOp::Text { text: label.to_owned(), x, y: y + 1, fg: p.text_muted, bg: p.glass },
    );
    put(
        ops,
        DrawOp::FillRounded { x: bx, y, w: bw, h: 12, color: p.progress_bg, radius: 3 },
    );
    assert(bw * pct <= w * 255) by (nonlinear_arith)
        requires
            bw <= w,
            pct <= 255,
    ;
    let part: usize = bw * pct as usize / 100;
    let filled: usize = if part < bw {
        part
    } else {
        bw
    };
    if filled > 0 {
        put(ops, DrawOp::FillRounded { x: bx, y, w: filled, h: 12, color, radius: 3 });
    }
    let mut value = String::new();
    text::push_space_padded(&mut value, pct as u64, 3);
    value.push('%');
    assert(value@ =~= text::padded(text::decimal(pct as nat), ' ', 3).push('%'));
    put(
        ops,
        DrawOp::Text { text: value, x: bx + bw + 4, y: y + 1, fg: p.text_muted, bg: p.glass },
    );
    assert(canvas::inks(ops@) =~= canvas::inks(old(ops)@) + gauge_look(
        x as int,
        y as int,
        w as int,
        label@,
        pct,
        color,
        *p,
    ));
}

/// Draws the card.
pub fn draw(x: usize, y: usize, w: usize, h: usize, state: &MonitorState, p: &Palette) -> (r: Vec<
    DrawOp,
>)
    requires
        w >= 24,
        x + w + 30 <= usize::MAX,
        y + 138 <= usize::MAX,
        w * 255 <= usize::MAX,
    ensures
        canvas::inks(r@) == look(x as int, y as int, w as int, h as int, *state, *p),
{
    let mut ops = blank();
    put(
        &mut ops,
        DrawOp::Card { x, y, w, h, fill: p.glass, border: p.glass_border, radius: 14, shadow: 50 },
    );
    let gx: usize = x + MD;
    let gw: usize = w - MD * 2;
    let mut iy: usize = y + MD;
    put(
        &mut ops,
        DrawOp::Text {
            text: "System".to_owned(),
            x: gx,
            y: iy,
            fg: p.text_secondary,
            bg: p.glass,
        },
    );
    iy += FONT_HEIGHT + SM;
    gauge(&mut ops, gx, iy, gw, "CPU", state.cpu_pct, p.accent, p);
    iy += 18 + XS;
    gauge(&mut ops, gx, iy, gw, "RAM", state.ram_pct, p.status_warn, p);
    iy += 18 + XS;
    gauge(&mut ops, gx, iy, gw, "Disk", state.disk_pct, COLOR_DISK, p);
    iy += 18 + LG;
    put(
        &mut ops,
        DrawOp::Text { text: state.net.clone(), x: gx, y: iy, fg: p.text_muted, bg: p.glass },
    );
    iy += FONT_HEIGHT + SM;
    let mut node = "Node h=".to_owned();
    text::push_decimal(&mut node, state.node_h);
    node.append("  peers=");
    text::push_decimal(&mut node, state.peers);
    put(
        &mut ops,
        DrawOp::Text { text: node, x: gx, y: iy, fg: p.text_accent, bg: p.glass },
    );
    assert(canvas::inks(ops@) =~= look(x as int, y as int, w as int, h as int, *state, *p));
    ops
}

/// A gauge fills with its value and is full from 100 percent on.
pub proof fn law_gauge_follows_value(w: int, a: int, b: int)
    requires
        0 <= a <= b,
    ensures
        bar_filled(w, 0) == 0,
        bar_filled(w, a) <= bar_filled(w, b) <= bar_w(w),
        b >= 100 ==> bar_filled(w, b) == bar_w(w),
{
    let n = bar_w(w);
    assert(n * a <= n * b && n * 0 == 0) by (nonlinear_arith)
        requires
            n >= 0,
            0 <= a <= b,
    ;
    if b >= 100 {
        assert(n * b >= n * 100) by (nonlinear_arith)
            requires
                n >= 0,
                b >= 100,
        ;
    }
}

/// A gauge is filled by as many hundredths of its width as its value says, rounded down, and
/// tells the value with a percent sign behind; at nothing it has no filled part.
pub proof fn law_gauge_is_filled_in_hundredths(
    x: int,
    y: int,
    w: int,
    label: Seq<char>,
    pct: u8,
    color: u32,
    p: Palette,
)
    requires
        w >= 68,
        pct <= 100,
    ensures
        ({
            let s = gauge_look(x, y, w, label, pct, color, p);
            let n = s.len() as int;
            let width = s[1]->FillRounded_w;
            &&& s[0] is Text && s[0]->Text_text == label
            &&& s[1] is FillRounded && width == w - 68 && s[1]->FillRounded_color == p.progress_bg
            &&& n == 4 ==> s[2] is FillRounded && s[2]->FillRounded_color == color && 100
                * s[2]->FillRounded_w <= width * pct < 100 * (s[2]->FillRounded_w + 1)
                && s[2]->FillRounded_x == s[1]->FillRounded_x
            &&& n == 3 ==> width * pct < 100
            &&& n == 3 || n == 4
            &&& s[n - 1] is Text && s[n - 1]->Text_text == text::padded(
                text::decimal(pct as nat),
                ' ',
                3,
            ).push('%')
        }),
{
    let b = bar_w(w);
    let v = b * pct;
    assert(0 <= v <= b * 100) by (nonlinear_arith)
        requires
            v == b * pct,
            b >= 0,
            0 <= pct <= 100,
    ;
}

/// The monitor shows the processor, the memory and the disk one under the other, each with
/// its own name and its own value.
pub proof fn law_monitor_shows_each_value(
    x: usize,
    y: usize,
    w: usize,
    h: usize,
    state: &MonitorState,
    p: &Palette,
    r: Vec<DrawOp>,
)
    requires
        w >= 92,
        call_ensures(draw, (x, y, w, h, state, p), r),
    ensures
        ({
            let s = canvas::inks(r@);
            let more = |pct: u8|
                if (w - 92) * pct >= 100 {
                    4int
                } else {
                    3
                };
            let ram = 2 + more(state.cpu_pct);
            let disk = ram + more(state.ram_pct);
            let rest = disk + more(state.disk_pct);
            &&& s.len() == rest + 2
            &&& s[2] is Text && s[2]->Text_text == "CPU"@
            &&& s[ram - 1] is Text && s[ram - 1]->Text_text == text::padded(
                text::decimal(state.cpu_pct as nat),
                ' ',
                3,
            ).push('%')
            &&& s[ram] is Text && s[ram]->Text_text == "RAM"@ && s[ram]->Text_y == s[2]->Text_y + 22
            &&& s[disk - 1] is Text && s[disk - 1]->Text_text == text::padded(
                text::decimal(state.ram_pct as nat),
                ' ',
                3,
            ).push('%')
            &&& s[disk] is Text && s[disk]->Text_text == "Disk"@ && s[disk]->Text_y
                == s[ram]->Text_y + 22
            &&& s[rest - 1] is Text && s[rest - 1]->Text_text == text::padded(
                text::decimal(state.disk_pct as nat),
                ' ',
                3,
            ).push('%')
            &&& s[rest] is Text && s[rest]->Text_text == state.net@
            &&& s[rest + 1] is Text && s[rest + 1]->Text_text == "Node h="@ + text::decimal(
                state.node_h as nat,
            ) + "  peers="@ + text::decimal(state.peers as nat)
        }),
{
    let (gx, gw) = (x + 12, w - 24);
    lemma_filled(gw, state.cpu_pct);
    lemma_filled(gw, state.ram_pct);
    lemma_filled(gw, state.disk_pct);
    let cpu = gauge_look(gx, y + 36, gw, "CPU"@, state.cpu_pct, p.accent, *p);
    let ram = gauge_look(gx, y + 58, gw, "RAM"@, state.ram_pct, p.status_warn, *p);
    let disk = gauge_look(gx, y + 80, gw, "Disk"@, state.disk_pct, COLOR_DISK, *p);
    let s = canvas::inks(r@);
    let (a, b, c) = (cpu.len() as int, ram.len() as int, disk.len() as int);
    assert(s[2] == cpu[0]);
    assert(s[2 + a - 1] == cpu[a - 1]);
    assert(s[2 + a] == ram[0]);
    assert(s[2 + a + b - 1] == ram[b - 1]);
    assert(s[2 + a + b] == disk[0]);
    assert(s[2 + a + b + c - 1] == disk[c - 1]);
}

/// A gauge has a filled part exactly where a hundredth of its width times its value is a
/// pixel.
proof fn lemma_filled(w: int, pct: u8)
    requires
        w >= 68,
    ensures
        bar_filled(w, pct as int) > 0 <==> (w - 68) * pct >= 100,
{
    let b = w - 68;
    let v = b * pct;
    assert(v >= 0 && (v >= 100 ==> b > 0)) by (nonlinear_arith)
        requires
            v == b * pct,
            b >= 0,
            pct >= 0,
    ;
}

} // verus!
