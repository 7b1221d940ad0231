//! Theme: design tokens, palette, typography, spacing and shadows.
use crate::io::framebuffer;
use vstd::prelude::*;

verus! {

/// Colours by their purpose.
#[derive(Clone, Copy, Debug, PartialEq, Eq, Structural)]
pub enum ColorToken {
    Glass,
    GlassBorder,
    GlassDark,
    GlassHover,
    AccentBlue,
    AccentBlueSoft,
    AccentGlow,
    TextPrimary,
    TextSecondary,
    TextMuted,
    TextAccent,
    StatusOk,
    StatusWarn,
    StatusErr,
    ShellBar,
    ShellBorder,
    DockBg,
    DockItemHover,
    DockItemActive,
    TaskbarItem,
    TaskbarItemActive,
    TaskbarItemHover,
    ProgressBg,
    ProgressFg,
}

#[derive(Clone, Copy, Debug, PartialEq, Eq, Structural)]
pub enum RadiusToken {
    Card,
    CardSmall,
    CardXs,
    Pill,
    Dock,
    Button,
}

#[derive(Clone, Copy, Debug, PartialEq, Eq, Structural)]
pub enum TextToken {
    Title,
    Subtitle,
    Body,
    Small,
    Caption,
    Mono,
}

#[derive(Clone, Copy, Debug, PartialEq, Eq, Structural)]
pub enum SpacingToken {
    Xs,
    Sm,
    Md,
    Lg,
    Xl,
    Xxl,
}

impl SpacingToken {
    /// The distance in pixels.
    pub fn pixels(self) -> (r: usize)
        ensures
            r == (match self {
                SpacingToken::Xs => 4,
                SpacingToken::Sm => 8,
                SpacingToken::Md => 12,
                SpacingToken::Lg => 16,
                SpacingToken::Xl => 24,
                SpacingToken::Xxl => 32int,
            }),
    {
        match self {
            SpacingToken::Xs => 4,
            SpacingToken::Sm => 8,
            SpacingToken::Md => 12,
            SpacingToken::Lg => 16,
            SpacingToken::Xl => 24,
            SpacingToken::Xxl => 32,
        }
    }
}

pub const XS: usize = 4;

pub const SM: usize = 8;

pub const MD: usize = 12;

pub const LG: usize = 16;

pub const SIZE_TITLE: usize = 16;

pub const SIZE_SUBTITLE: usize = 16;

pub const SIZE_BODY: usize = 16;

pub const SIZE_SMALL: usize = 16;

pub const SIZE_CAPTION: usize = 16;

pub const SIZE_MONO: usize = 16;

pub const CHAR_W: usize = 8;

pub const CHAR_H: usize = 16;

/// A line: the glyph and a gap of four pixels.
pub const LINE_H: usize = 20;

pub const SHADOW_CARD_DX: usize = 4;

pub const SHADOW_CARD_DY: usize = 6;

pub const SHADOW_CARD_SPREAD: usize = 4;

pub const SHADOW_CARD_ALPHA_START: u8 = 90;

pub const SHADOW_SM_DX: usize = 2;

pub const SHADOW_SM_DY: usize = 3;

pub const SHADOW_SM_SPREAD: usize = 2;

pub const SHADOW_SM_ALPHA_START: u8 = 60;

pub const COLOR_SHADOW: u32 = 0x020408;

pub const COLOR_BTN_TEXT_PRESS: u32 = 0xFFFFFF;

/// The colours of a theme, packed as 0xRRGGBB.
#[derive(Clone, Copy, Debug, PartialEq, Eq)]
pub struct Palette {
    pub glass: u32,
    pub glass_border: u32,
    pub glass_dark: u32,
    pub glass_hover: u32,
    pub accent: u32,
    pub accent_soft: u32,
    pub accent_glow: u32,
    pub text_primary: u32,
    pub text_secondary: u32,
    pub text_muted: u32,
    pub text_accent: u32,
    pub status_ok: u32,
    pub status_warn: u32,
    pub status_err: u32,
    pub shell_bar: u32,
    pub shell_border: u32,
    pub dock_bg: u32,
    pub dock_item_hover: u32,
    pub dock_item_active: u32,
    pub taskbar_item: u32,
    pub taskbar_item_active: u32,
    pub taskbar_item_hover: u32,
    pub progress_bg: u32,
    pub progress_fg: u32,
    pub bg_sky_bot: u32,
}

/// The colour that a token stands for.
pub fn color(tok: ColorToken, p: &Palette) -> (r: u32)
    ensures
        r == (match tok {
            ColorToken::Glass => p.glass,
            ColorToken::GlassBorder => p.glass_border,
            ColorToken::GlassDark => p.glass_dark,
            ColorToken::GlassHover => p.glass_hover,
            ColorToken::AccentBlue => p.accent,
            ColorToken::AccentBlueSoft => p.accent_soft,
            ColorToken::AccentGlow => p.accent_glow,
            ColorToken::TextPrimary => p.text_primary,
            ColorToken::TextSecondary => p.text_secondary,
            ColorToken::TextMuted => p.text_muted,
            ColorToken::TextAccent => p.text_accent,
            ColorToken::StatusOk => p.status_ok,
            ColorToken::StatusWarn => p.status_warn,
            ColorToken::StatusErr => p.status_err,
            ColorToken::ShellBar => p.shell_bar,
            ColorToken::ShellBorder => p.shell_border,
            ColorToken::DockBg => p.dock_bg,
            ColorToken::DockItemHover => p.dock_item_hover,
            ColorToken::DockItemActive => p.dock_item_active,
            ColorToken::TaskbarItem => p.taskbar_item,
            ColorToken::TaskbarItemActive => p.taskbar_item_active,
            ColorToken::TaskbarItemHover => p.taskbar_item_hover,
            ColorToken::ProgressBg => p.progress_bg,
            ColorToken::ProgressFg => p.progress_fg,
        }),
{
    match tok {
        ColorToken::Glass => p.glass,
        ColorToken::GlassBorder => p.glass_border,
        ColorToken::GlassDark => p.glass_dark,
        ColorToken::GlassHover => p.glass_hover,
        ColorToken::AccentBlue => p.accent,
        ColorToken::AccentBlueSoft => p.accent_soft,
        ColorToken::AccentGlow => p.accent_glow,
        ColorToken::TextPrimary => p.text_primary,
        ColorToken::TextSecondary => p.text_secondary,
        ColorToken::TextMuted => p.text_muted,
        ColorToken::TextAccent => p.text_accent,
        ColorToken::StatusOk => p.status_ok,
        ColorToken::StatusWarn => p.status_warn,
        ColorToken::StatusErr => p.status_err,
        ColorToken::ShellBar => p.shell_bar,
        ColorToken::ShellBorder => p.shell_border,
        ColorToken::DockBg => p.dock_bg,
        ColorToken::DockItemHover => p.dock_item_hover,
        ColorToken::DockItemActive => p.dock_item_active,
        ColorToken::TaskbarItem => p.taskbar_item,
        ColorToken::TaskbarItemActive => p.taskbar_item_active,
        ColorToken::TaskbarItemHover => p.taskbar_item_hover,
        ColorToken::ProgressBg => p.progress_bg,
        ColorToken::ProgressFg => p.progress_fg,
    }
}

/// The radius of a corner in pixels.
pub fn radius(tok: RadiusToken) -> (r: usize)
    ensures
        r == (match tok {
            RadiusToken::Card => 16,
            RadiusToken::CardSmall => 10,
            RadiusToken::CardXs => 6,
            RadiusToken::Pill => 999,
            RadiusToken::Dock => 14,
            RadiusToken::Button => 8int,
        }),
{
    match tok {
        RadiusToken::Card => 16,
        RadiusToken::CardSmall => 10,
        RadiusToken::CardXs => 6,
        RadiusToken::Pill => 999,
        RadiusToken::Dock => 14,
        RadiusToken::Button => 8,
    }
}

/// The red, green and blue parts of a packed colour.
pub fn rgb(c: u32) -> (r: (u8, u8, u8))
    ensures
        r == (framebuffer::red(c), framebuffer::green(c), framebuffer::blue(c)),
{
    (((c >> 16) & 0xFF) as u8, ((c >> 8) & 0xFF) as u8, (c & 0xFF) as u8)
}

/// The parts of a colour are its three lower bytes, red the highest of them.
pub proof fn law_colour_parts_make_it_up(c: u32, r: (u8, u8, u8))
    requires
        c < 0x100_0000,
        call_ensures(rgb, (c,), r),
    ensures
        r.0 * 65536 + r.1 * 256 + r.2 == c,
{
    assert(((c >> 16) & 0xFF) as u8 == (c / 65536) % 256 && ((c >> 8) & 0xFF) as u8 == (c / 256)
        % 256 && (c & 0xFF) as u8 == c % 256) by (bit_vector);
}

/// Distances grow from the smallest to the largest.
pub proof fn law_distances_grow(
    xs: usize,
    sm: usize,
    md: usize,
    lg: usize,
    xl: usize,
    xxl: usize,
)
    requires
        call_ensures(SpacingToken::pixels, (SpacingToken::Xs,), xs),
        call_ensures(SpacingToken::pixels, (SpacingToken::Sm,), sm),
        call_ensures(SpacingToken::pixels, (SpacingToken::Md,), md),
        call_ensures(SpacingToken::pixels, (SpacingToken::Lg,), lg),
        call_ensures(SpacingToken::pixels, (SpacingToken::Xl,), xl),
        call_ensures(SpacingToken::pixels, (SpacingToken::Xxl,), xxl),
    ensures
        xs == 4,
        sm == 2 * xs,
        md == 3 * xs,
        lg == 4 * xs,
        xl == 6 * xs,
        xxl == 8 * xs,
{
}

/// Each colour of the shell is the one that the palette has under its name.
pub proof fn law_colours_are_those_of_the_palette(tok: ColorToken, p: &Palette, r: u32)
    requires
        call_ensures(color, (tok, p), r),
    ensures
        tok is Glass ==> r == p.glass,
        tok is GlassBorder ==> r == p.glass_border,
        tok is GlassDark ==> r == p.glass_dark,
        tok is GlassHover ==> r == p.glass_hover,
        tok is AccentBlue ==> r == p.accent,
        tok is AccentBlueSoft ==> r == p.accent_soft,
        tok is AccentGlow ==> r == p.accent_glow,
        tok is TextPrimary ==> r == p.text_primary,
        tok is TextSecondary ==> r == p.text_secondary,
        tok is TextMuted ==> r == p.text_muted,
        tok is TextAccent ==> r == p.text_accent,
        tok is StatusOk ==> r == p.status_ok,
        tok is StatusWarn ==> r == p.status_warn,
        tok is StatusErr ==> r == p.status_err,
        tok is ShellBar ==> r == p.shell_bar,
        tok is ShellBorder ==> r == p.shell_border,
        tok is DockBg ==> r == p.dock_bg,
        tok is DockItemHover ==> r == p.dock_item_hover,
        tok is DockItemActive ==> r == p.dock_item_active,
        tok is TaskbarItem ==> r == p.taskbar_item,
        tok is TaskbarItemActive ==> r == p.taskbar_item_active,
        tok is TaskbarItemHover ==> r == p.taskbar_item_hover,
        tok is ProgressBg ==> r == p.progress_bg,
        tok is ProgressFg ==> r == p.progress_fg,
{
}

} // verus!
