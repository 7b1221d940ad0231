//! The weather card: the weather now and, where there is room, the forecast.
use crate::gui::canvas::{self, blank, put, DrawOp, Icon, Ink};
use crate::gui::theme::{Palette, MD, SM, XS};
use crate::io::framebuffer::FONT_HEIGHT;
use crate::text;
use vstd::prelude::*;

verus! {

#[derive(Debug)]
pub struct ForecastDay {
    pub label: String,
    pub temp: i32,
}

#[derive(Debug)]
pub struct WeatherState {
    pub city: String,
    /// Degrees Celsius.
    pub temp: i32,
    pub description: String,
    pub forecast: Vec<ForecastDay>,
}

/// The forecast is shown in cards wider than this.
pub const FORECAST_W: usize = 136;

/// What the first `n` days of a forecast look like, each `fw` wide, at height `iy`.
pub open spec fn forecast_look(
    x: int,
    days: Seq<ForecastDay>,
    fw: int,
    iy: int,
    n: int,
    p: Palette,
) -> Seq<Ink>
    decreases n,
{
    if n <= 0 {
        Seq::empty()
    } else {
        forecast_look(x, days, fw, iy, n - 1, p).push(
            Ink::Text {
                text: days[n - 1].label@,
                x: x + MD + (n - 1) * fw,
                y: iy,
                fg: p.text_muted,
                bg: p.glass,
            },
        ).push(
            Ink::Text {
                text: text::signed(days[n - 1].temp as int) + "\u{b0}"@,
                x: x + MD + (n - 1) * fw,
                y: iy + 18,
                fg: p.text_primary,
                bg: p.glass,
            },
        )
    }
}

/// The width of a day of the forecast.
pub open spec fn day_w(w: int, n: int) -> int {
    (w - 24) / (if n < 1 {
        1
    } else {
        n
    })
}

/// What the card looks like.
pub open spec fn look(x: int, y: int, w: int, h: int, s: WeatherState, p: Palette) -> Seq<Ink> {
    let now = seq![
        Ink::Card {
            x,
            y,
            w,
            h,
            fill: p.glass,
            border: p.glass_border,
            radius: 14,
            shadow: 50,
        },
        Ink::Text { text: s.city@, x: x + MD, y: y + MD, fg: p.text_secondary, bg: p.glass },
        Ink::Picture { icon: Icon::Weather, x: x + MD, y: y + 32, fg: p.accent, bg: p.glass },
        Ink::Text {
            text: text::signed(s.temp as int) + "\u{b0}C"@,
            x: x + MD + 24,
            y: y + 32,
            fg: p.text_primary,
            bg: p.glass,
        },
        Ink::Text { text: s.description@, x: x + MD, y: y + 52, fg: p.text_muted, bg: p.glass },
    ];
    let n = s.forecast@.len() as int;
    if w > FORECAST_W {
        now + forecast_look(x, s.forecast@, day_w(w, n), y + 76, n, p)
    } else {
        now
    }
}

/// Draws the card.
pub fn draw(x: usize, y: usize, w: usize, h: usize, state: &WeatherState, p: &Palette) -> (r: Vec<
    DrawOp,
>)
    requires
        x + w <= usize::MAX,
        x + 36 <= usize::MAX,
        y + 94 <= usize::MAX,
    ensures
        canvas::inks(r@) == look(x as int, y as int, w as int, h as int, *state, *p),
{
    let mut ops = blank();
    put(
        &mut ops,
        DrawOp::Card { x, y, w, h, fill: p.glass, border: p.glass_border, radius: 14, shadow: 50 },
    );
    let tx: usize = x + MD;
    let mut iy: usize = y + MD;
    put(
        &mut ops,
        DrawOp::Text {
            text: state.city.clone(),
            x: tx,
            y: iy,
            fg: p.text_secondary,
            bg: p.glass,
        },
    );
    iy += FONT_HEIGHT + XS;
    let mut temp = String::new();
    text::push_signed(&mut temp, state.temp);
    temp.append("\u{b0}C");
    assert(temp@ =~= text::signed(state.temp as int) + "\u{b0}C"@);
    put(
        &mut ops,
        DrawOp::Picture { icon: Icon::Weather, x: tx, y: iy, fg: p.accent, bg: p.glass },
    );
    put(
        &mut ops,
        DrawOp::Text { text: temp, x: tx + 24, y: iy, fg: p.text_primary, bg: p.glass },
    );
    iy += FONT_HEIGHT + XS;
    put(
        &mut ops,
        DrawOp::Text {
            text: state.description.clone(),
            x: tx,
            y: iy,
            fg: p.text_muted,
            bg: p.glass,
        },
    );
    iy += FONT_HEIGHT + SM;
    if w > FORECAST_W {
        let n: usize = state.forecast.len();
        let fw: usize = (w - MD * 2) / (if n < 1 {
            1
        } else {
            n
        });
        let ghost base = canvas::inks(ops@);
        assert(base =~= base + forecast_look(
            x as int,
            state.forecast@,
            fw as int,
            iy as int,
            0,
            *p,
        ));
        let mut i: usize = 0;
        while i < n
            invariant
                i <= n,
                n == state.forecast@.len(),
                tx == x + MD,
                x + w <= usize::MAX,
                w > FORECAST_W,
                iy + 18 <= usize::MAX,
                fw == (w - 24) / (if n < 1 {
                    1
                } else {
                    n as int
                }),
                canvas::inks(ops@) == base + forecast_look(
                    x as int,
                    state.forecast@,
                    fw as int,
                    iy as int,
                    i as int,
                    *p,
                ),
            decreases n - i,
        {
            assert(i * fw <= w - 24) by (nonlinear_arith)
                requires
                    i < n,
                    fw == (w - 24) / (n as int),
                    w > 24,
            ;
            let day = &state.forecast[i];
            let fx: usize = tx + i * fw;
            put(
                &mut ops,
                DrawOp::Text {
                    text: day.label.clone(),
                    x: fx,
                    y: iy,
                    fg: p.text_muted,
                    bg: p.glass,
                },
            );
            let mut t = String::new();
            text::push_signed(&mut t, day.temp);
            t.append("\u{b0}");
            assert(t@ =~= text::signed(day.temp as int) + "\u{b0}"@);
            put(
                &mut ops,
                DrawOp::Text {
                    text: t,
                    x: fx,
                    y: iy + FONT_HEIGHT + 2,
                    fg: p.text_primary,
                    bg: p.glass,
                },
            );
            i += 1;
            assert(canvas::inks(ops@) =~= base + forecast_look(
                x as int,
                state.forecast@,
                fw as int,
                iy as int,
                i as int,
                *p,
            ));
        }
    }
    assert(canvas::inks(ops@) =~= look(x as int, y as int, w as int, h as int, *state, *p));
    ops
}

proof fn lemma_forecast(x: int, days: Seq<ForecastDay>, fw: int, iy: int, n: int, p: Palette, k: int)
    requires
        0 <= k < n <= days.len(),
    ensures
        ({
            let s = forecast_look(x, days, fw, iy, n, p);
            &&& s.len() == 2 * n
            &&& s[2 * k] is Text && s[2 * k]->Text_text == days[k].label@ && s[2 * k]->Text_x == x
                + 12 + k * fw && s[2 * k]->Text_y == iy
            &&& s[2 * k + 1] is Text && s[2 * k + 1]->Text_text == text::signed(days[k].temp as int)
                + "\u{b0}"@ && s[2 * k + 1]->Text_x == x + 12 + k * fw && s[2 * k + 1]->Text_y == iy
                + 18
        }),
    decreases n,
{
    let rest = forecast_look(x, days, fw, iy, n - 1, p);
    let s = forecast_look(x, days, fw, iy, n, p);
    if k < n - 1 {
        lemma_forecast(x, days, fw, iy, n - 1, p, k);
        assert(s[2 * k] == rest[2 * k]);
        assert(s[2 * k + 1] == rest[2 * k + 1]);
    } else if n > 1 {
        lemma_forecast(x, days, fw, iy, n - 1, p, 0);
    } else {
        assert(rest.len() == 0);
    }
}

/// The days of a forecast stand side by side, in columns of the same width that together are
/// as wide as the card inside its margins, but for less than a pixel a day: each with its
/// name and, below, its temperature. A card that is too narrow has no forecast.
pub proof fn law_forecast_is_in_columns(
    x: usize,
    y: usize,
    w: usize,
    h: usize,
    state: &WeatherState,
    p: &Palette,
    r: Vec<DrawOp>,
    k: int,
)
    requires
        call_ensures(draw, (x, y, w, h, state, p), r),
        0 <= k < state.forecast@.len(),
    ensures
        ({
            let s = canvas::inks(r@);
            let n = state.forecast@.len() as int;
            let fw = day_w(w as int, n);
            let day = state.forecast@[k];
            &&& w > 136 ==> n * fw <= w - 24 < n * (fw + 1)
            &&& w > 136 ==> s.len() == 5 + 2 * n && s[5 + 2 * k] is Text && s[5
                + 2 * k]->Text_text == day.label@ && s[5 + 2 * k]->Text_x == x + 12 + k * fw
                && s[6 + 2 * k] is Text && s[6 + 2 * k]->Text_text == text::signed(day.temp as int)
                + "\u{b0}"@ && s[6 + 2 * k]->Text_x == x + 12 + k * fw && s[6 + 2 * k]->Text_y
                == s[5 + 2 * k]->Text_y + 18
            &&& w <= 136 ==> s.len() == 5
            &&& s[1] is Text && s[1]->Text_text == state.city@
            &&& s[3] is Text && s[3]->Text_text == text::signed(state.temp as int) + "\u{b0}C"@
            &&& s[4] is Text && s[4]->Text_text == state.description@
        }),
{
    let n = state.forecast@.len() as int;
    let fw = day_w(w as int, n);
    let all = w - 24;
    vstd::arithmetic::div_mod::lemma_fundamental_div_mod(all, n);
    let m = all % n;
    assert(n * fw <= all && all < n * (fw + 1)) by (nonlinear_arith)
        requires
            all == n * fw + m,
            0 <= m < n,
    ;
    if w > 136 {
        lemma_forecast(x as int, state.forecast@, fw, y + 76, n, *p, k);
        let rest = forecast_look(x as int, state.forecast@, fw, y + 76, n, *p);
        let s = canvas::inks(r@);
        assert(s[5 + 2 * k] == rest[2 * k]);
        assert(s[6 + 2 * k] == rest[2 * k + 1]);
    }
}

} // verus!
