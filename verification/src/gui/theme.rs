//! The Breeze palettes and what colour means what.

use vstd::prelude::*;
use vstd::string::*;

use crate::binary::{
    falls_short, is_single, law_limits_compare_by_value, law_whole_numbers_are_exact, lemma_order,
    less, parts, single, Number, Single,
};
use crate::text::same_text;

verus! {

// ── Theme selection ──────────────────────────────────────────────────────────

/// The theme of the window.
#[derive(Debug, Clone, Copy, PartialEq, Eq, Structural)]
pub enum AppTheme {
    BreezeDark,
    BreezeLight,
}

/// The key under which a theme is stored.
pub open spec fn theme_key(t: AppTheme) -> Seq<char> {
    match t {
        AppTheme::BreezeDark => "BreezeDark"@,
        AppTheme::BreezeLight => "BreezeLight"@,
    }
}

/// The theme stored under a key; unknown keys mean the dark one.
pub open spec fn theme_of(key: Seq<char>) -> AppTheme {
    if key == "BreezeLight"@ {
        AppTheme::BreezeLight
    } else {
        AppTheme::BreezeDark
    }
}

impl AppTheme {
    /// The name that the user sees.
    pub fn label(&self) -> (r: &'static str)
        ensures
            r@ == match *self {
                AppTheme::BreezeDark => "Breeze Dark"@,
                AppTheme::BreezeLight => "Breeze Light"@,
            },
    {
        match self {
            AppTheme::BreezeDark => "Breeze Dark",
            AppTheme::BreezeLight => "Breeze Light",
        }
    }

    /// The key under which the theme is stored.
    pub fn to_str(&self) -> (r: &'static str)
        ensures
            r@ == theme_key(*self),
    {
        match self {
            AppTheme::BreezeDark => "BreezeDark",
            AppTheme::BreezeLight => "BreezeLight",
        }
    }

    /// The theme stored under a key; unknown keys mean the dark one.
    pub fn from_str(s: &str) -> (r: AppTheme)
        ensures
            r == theme_of(s@),
    {
        if same_text(s, "BreezeLight") {
            AppTheme::BreezeLight
        } else {
            AppTheme::BreezeDark
        }
    }
}

/// A stored theme is read back as itself.
pub proof fn law_theme_round_trip(t: AppTheme)
    ensures
        theme_of(theme_key(t)) == t,
{
    reveal_strlit("BreezeDark");
    reveal_strlit("BreezeLight");
    assert("BreezeDark"@.len() != "BreezeLight"@.len());
}

/// The window background, as red, green and blue.
pub fn window_bg_rgb(theme: &AppTheme) -> (r: (u8, u8, u8))
    ensures
        r == match *theme {
            AppTheme::BreezeDark => (0x31u8, 0x36u8, 0x3bu8),
            AppTheme::BreezeLight => (0xefu8, 0xf0u8, 0xf1u8),
        },
{
    match theme {
        AppTheme::BreezeDark => (0x31, 0x36, 0x3b),
        AppTheme::BreezeLight => (0xef, 0xf0, 0xf1),
    }
}

// ── Palettes ─────────────────────────────────────────────────────────────────

/// A colour.
#[derive(Debug, Clone, Copy, PartialEq, Eq, Structural)]
pub struct Rgb {
    pub r: u8,
    pub g: u8,
    pub b: u8,
}

/// A colour from its parts.
pub open spec fn rgb(r: u8, g: u8, b: u8) -> Rgb {
    Rgb { r, g, b }
}

/// The dark palette.
pub struct Breeze;

impl Breeze {
    pub fn window_bg() -> (c: Rgb)
        ensures
            c == rgb(0x31, 0x36, 0x3b),
    {
        Rgb { r: 0x31, g: 0x36, b: 0x3b }
    }

    pub fn base() -> (c: Rgb)
        ensures
            c == rgb(0x23, 0x26, 0x29),
    {
        Rgb { r: 0x23, g: 0x26, b: 0x29 }
    }

    pub fn alt_base() -> (c: Rgb)
        ensures
            c == rgb(0x2a, 0x2e, 0x32),
    {
        Rgb { r: 0x2a, g: 0x2e, b: 0x32 }
    }

    pub fn text() -> (c: Rgb)
        ensures
            c == rgb(0xef, 0xf0, 0xf1),
    {
        Rgb { r: 0xef, g: 0xf0, b: 0xf1 }
    }

    pub fn highlight() -> (c: Rgb)
        ensures
            c == rgb(0x3d, 0xae, 0xe9),
    {
        Rgb { r: 0x3d, g: 0xae, b: 0xe9 }
    }

    pub fn link() -> (c: Rgb)
        ensures
            c == rgb(0x29, 0x80, 0xb9),
    {
        Rgb { r: 0x29, g: 0x80, b: 0xb9 }
    }

    pub fn border() -> (c: Rgb)
        ensures
            c == rgb(0x4d, 0x4d, 0x4d),
    {
        Rgb { r: 0x4d, g: 0x4d, b: 0x4d }
    }

    pub fn button_bg() -> (c: Rgb)
        ensures
            c == rgb(0x31, 0x36, 0x3b),
    {
        Rgb { r: 0x31, g: 0x36, b: 0x3b }
    }

    pub fn button_hover() -> (c: Rgb)
        ensures
            c == rgb(0x3a, 0x3f, 0x44),
    {
        Rgb { r: 0x3a, g: 0x3f, b: 0x44 }
    }

    pub fn positive() -> (c: Rgb)
        ensures
            c == rgb(0x27, 0xae, 0x60),
    {
        Rgb { r: 0x27, g: 0xae, b: 0x60 }
    }

    pub fn warning() -> (c: Rgb)
        ensures
            c == rgb(0xf6, 0x74, 0x00),
    {
        Rgb { r: 0xf6, g: 0x74, b: 0x00 }
    }

    pub fn negative() -> (c: Rgb)
        ensures
            c == rgb(0xda, 0x44, 0x53),
    {
        Rgb { r: 0xda, g: 0x44, b: 0x53 }
    }
}

/// What colour means what.
#[derive(Debug, Clone, Copy, PartialEq, Eq, Structural)]
pub struct Sem {
    /// Healthy, low load, success.
    pub ok: Rgb,
    /// Middle load.
    pub mid: Rgb,
    /// Elevated, attention.
    pub warning: Rgb,
    /// Critical, destructive.
    pub negative: Rgb,
    /// Accent and selection.
    pub accent: Rgb,
    /// Text on an accent-coloured surface.
    pub on_accent: Rgb,
    /// What the user did by hand.
    pub manual: Rgb,
}

/// The meanings in the dark and in the light theme.
pub open spec fn sem_palette(dark: bool) -> Sem {
    if dark {
        Sem {
            ok: rgb(0x27, 0xae, 0x60),
            mid: rgb(0x8b, 0xc3, 0x4a),
            warning: rgb(0xf6, 0x74, 0x00),
            negative: rgb(0xda, 0x44, 0x53),
            accent: rgb(0x3d, 0xae, 0xe9),
            on_accent: rgb(0x0d, 0x14, 0x18),
            manual: rgb(0x9b, 0x59, 0xb6),
        }
    } else {
        Sem {
            ok: rgb(0x1e, 0x84, 0x49),
            mid: rgb(0x68, 0x9f, 0x38),
            warning: rgb(0xc0, 0x50, 0x00),
            negative: rgb(0xc0, 0x39, 0x2b),
            accent: rgb(0x29, 0x80, 0xb9),
            on_accent: rgb(0xff, 0xff, 0xff),
            manual: rgb(0x7d, 0x3c, 0x98),
        }
    }
}

/// The meanings in the dark or the light theme.
pub fn sem_for(dark_mode: bool) -> (s: Sem)
    ensures
        s == sem_palette(dark_mode),
{
    if dark_mode {
        Sem {
            ok: Rgb { r: 0x27, g: 0xae, b: 0x60 },
            mid: Rgb { r: 0x8b, g: 0xc3, b: 0x4a },
            warning: Rgb { r: 0xf6, g: 0x74, b: 0x00 },
            negative: Rgb { r: 0xda, g: 0x44, b: 0x53 },
            accent: Rgb { r: 0x3d, g: 0xae, b: 0xe9 },
            on_accent: Rgb { r: 0x0d, g: 0x14, b: 0x18 },
            manual: Rgb { r: 0x9b, g: 0x59, b: 0xb6 },
        }
    } else {
        Sem {
            ok: Rgb { r: 0x1e, g: 0x84, b: 0x49 },
            mid: Rgb { r: 0x68, g: 0x9f, b: 0x38 },
            warning: Rgb { r: 0xc0, g: 0x50, b: 0x00 },
            negative: Rgb { r: 0xc0, g: 0x39, b: 0x2b },
            accent: Rgb { r: 0x29, g: 0x80, b: 0xb9 },
            on_accent: Rgb { r: 0xff, g: 0xff, b: 0xff },
            manual: Rgb { r: 0x7d, g: 0x3c, b: 0x98 },
        }
    }
}

// ── Load ramp ────────────────────────────────────────────────────────────────

/// `a` moved `num / den` of the way to `b`, rounded to the nearest.
pub open spec fn blend(a: u8, b: u8, num: int, den: int) -> int {
    (2 * (a * den + (b - a) * num) + den) / (2 * den)
}

/// A colour moved `num / den` of the way to another.
pub open spec fn blend_rgb(a: Rgb, b: Rgb, num: int, den: int) -> Rgb {
    Rgb {
        r: blend(a.r, b.r, num, den) as u8,
        g: blend(a.g, b.g, num, den) as u8,
        b: blend(a.b, b.b, num, den) as u8,
    }
}

/// Moves one part of a colour.
fn blend_part(a: u8, b: u8, num: u32, den: u32) -> (r: u8)
    requires
        num <= den,
        0 < den <= 100_000,
    ensures
        r as int == blend(a, b, num as int, den as int),
{
    proof {
        let (x, y, n, d) = (a as int, b as int, num as int, den as int);
        assert(x * d + (y - x) * n == x * (d - n) + y * n) by (nonlinear_arith);
        assert(0 <= x * (d - n) <= 255 * (d - n)) by (nonlinear_arith)
            requires
                0 <= x <= 255,
                n <= d,
        ;
        assert(0 <= y * n <= 255 * n) by (nonlinear_arith)
            requires
                0 <= y <= 255,
                0 <= n,
        ;
    }
    let sum: u64 = a as u64 * (den - num) as u64 + b as u64 * num as u64;
    let top: u64 = 2 * sum + den as u64;
    proof {
        let d = den as int;
        assert(0 <= (top as int) / (2 * d) <= 255) by (nonlinear_arith)
            requires
                0 <= top <= 510 * d + d,
                d > 0,
        ;
    }
    (top / (2 * den as u64)) as u8
}

/// Moves a colour.
fn blend_color(a: Rgb, b: Rgb, num: u32, den: u32) -> (c: Rgb)
    requires
        num <= den,
        0 < den <= 100_000,
    ensures
        c == blend_rgb(a, b, num as int, den as int),
{
    Rgb {
        r: blend_part(a.r, b.r, num, den),
        g: blend_part(a.g, b.g, num, den),
        b: blend_part(a.b, b.b, num, den),
    }
}

/// The colours at 0, 50, 70, 85 and 100 percent.
pub struct Ramp {
    pub at_0: Rgb,
    pub at_50: Rgb,
    pub at_70: Rgb,
    pub at_85: Rgb,
    pub at_100: Rgb,
}

/// The colour of a load in thousandths of a percent: between two stops the
/// colours are blended, beyond the last it stays.
pub open spec fn ramp_color(s: Ramp, mpct: u32) -> Rgb {
    if mpct <= 50_000 {
        blend_rgb(s.at_0, s.at_50, mpct as int, 50_000)
    } else if mpct <= 70_000 {
        blend_rgb(s.at_50, s.at_70, mpct - 50_000, 20_000)
    } else if mpct <= 85_000 {
        blend_rgb(s.at_70, s.at_85, mpct - 70_000, 15_000)
    } else if mpct <= 100_000 {
        blend_rgb(s.at_85, s.at_100, mpct - 85_000, 15_000)
    } else {
        blend_rgb(s.at_85, s.at_100, 15_000, 15_000)
    }
}

/// The colour of a load on a ramp.
fn color_on_ramp(s: &Ramp, mpct: u32) -> (c: Rgb)
    ensures
        c == ramp_color(*s, mpct),
{
    if mpct <= 50_000 {
        blend_color(s.at_0, s.at_50, mpct, 50_000)
    } else if mpct <= 70_000 {
        blend_color(s.at_50, s.at_70, mpct - 50_000, 20_000)
    } else if mpct <= 85_000 {
        blend_color(s.at_70, s.at_85, mpct - 70_000, 15_000)
    } else if mpct <= 100_000 {
        blend_color(s.at_85, s.at_100, mpct - 85_000, 15_000)
    } else {
        blend_color(s.at_85, s.at_100, 15_000, 15_000)
    }
}

/// The ramp of a palette.
pub open spec fn load_ramp(dark: bool) -> Ramp {
    let s = sem_palette(dark);
    Ramp { at_0: s.ok, at_50: s.mid, at_70: s.warning, at_85: s.negative, at_100: s.negative }
}

/// The colour of a load, in the dark or the light theme.
pub fn load_color_for(dark_mode: bool, mpct: u32) -> (c: Rgb)
    ensures
        c == ramp_color(load_ramp(dark_mode), mpct),
{
    let s = sem_for(dark_mode);
    let ramp = Ramp {
        at_0: s.ok,
        at_50: s.mid,
        at_70: s.warning,
        at_85: s.negative,
        at_100: s.negative,
    };
    color_on_ramp(&ramp, mpct)
}

/// The place of a load on a ramp, in thousandths of a percent.
pub open spec fn place_of(pct: Number) -> u32 {
    if pct.neg {
        0
    } else if parts(pct, 1000) > 100_000 {
        100_000
    } else {
        parts(pct, 1000) as u32
    }
}

/// The place of a load on a ramp.
pub fn ramp_place(pct: Single) -> (r: u32)
    ensures
        r == place_of(pct@),
{
    let b = pct.get();
    let n: u128 = b.parts(1000);
    if b.neg {
        0
    } else if n > 100_000 {
        100_000
    } else {
        n as u32
    }
}

/// The dark ramp that ends in a deep red.
pub open spec fn deep_ramp() -> Ramp {
    Ramp {
        at_0: rgb(0x27, 0xae, 0x60),
        at_50: rgb(0x8b, 0xc3, 0x4a),
        at_70: rgb(0xf6, 0x74, 0x00),
        at_85: rgb(0xda, 0x44, 0x53),
        at_100: rgb(0xb0, 0x20, 0x2e),
    }
}

/// The colour of a load where no theme is at hand.
pub fn cpu_load_color(mpct: u32) -> (c: Rgb)
    ensures
        c == ramp_color(deep_ramp(), mpct),
{
    let ramp = Ramp {
        at_0: Rgb { r: 0x27, g: 0xae, b: 0x60 },
        at_50: Rgb { r: 0x8b, g: 0xc3, b: 0x4a },
        at_70: Rgb { r: 0xf6, g: 0x74, b: 0x00 },
        at_85: Rgb { r: 0xda, g: 0x44, b: 0x53 },
        at_100: Rgb { r: 0xb0, g: 0x20, b: 0x2e },
    };
    color_on_ramp(&ramp, mpct)
}

/// At a stop the ramp has the colour of the stop, and beyond 100 percent it stays
/// at the last.
pub proof fn law_ramp_meets_its_stops(s: Ramp, mpct: u32)
    requires
        mpct >= 100_000,
    ensures
        ramp_color(s, 0) == s.at_0,
        ramp_color(s, 50_000) == s.at_50,
        ramp_color(s, 70_000) == s.at_70,
        ramp_color(s, 85_000) == s.at_85,
        ramp_color(s, mpct) == s.at_100,
{
    lemma_blend_ends(s.at_0, s.at_50, 50_000);
    lemma_blend_ends(s.at_50, s.at_70, 20_000);
    lemma_blend_ends(s.at_70, s.at_85, 15_000);
    lemma_blend_ends(s.at_85, s.at_100, 15_000);
}

/// Blending reaches both ends.
proof fn lemma_blend_ends(a: Rgb, b: Rgb, den: int)
    requires
        den > 0,
    ensures
        blend_rgb(a, b, 0, den) == a,
        blend_rgb(a, b, den, den) == b,
{
    lemma_blend_end(a.r, b.r, den);
    lemma_blend_end(a.g, b.g, den);
    lemma_blend_end(a.b, b.b, den);
}

/// Blending one part reaches both ends.
proof fn lemma_blend_end(a: u8, b: u8, den: int)
    requires
        den > 0,
    ensures
        blend(a, b, 0, den) == a,
        blend(a, b, den, den) == b,
{
    assert(a * den + (b - a) * 0 == a * den) by (nonlinear_arith);
    assert(a * den + (b - a) * den == b * den) by (nonlinear_arith);
    assert((2 * (a * den) + den) / (2 * den) == a) by (nonlinear_arith)
        requires
            den > 0,
    ;
    assert((2 * (b * den) + den) / (2 * den) == b) by (nonlinear_arith)
        requires
            den > 0,
    ;
}

// ── Rows ─────────────────────────────────────────────────────────────────────

/// The colour of the text of a process row.
pub open spec fn row_shade(cpu: Number, throttled: bool, text: Rgb, dark: bool) -> Rgb {
    if throttled {
        if dark {
            rgb(0xf6, 0x74, 0x00)
        } else {
            rgb(0xa7, 0x4f, 0x00)
        }
    } else if !less(cpu, single(80, 1)) {
        if dark {
            rgb(0xda, 0x44, 0x53)
        } else {
            rgb(0xb2, 0x27, 0x36)
        }
    } else if !less(cpu, single(40, 1)) {
        if dark {
            rgb(0xfd, 0xbc, 0x4b)
        } else {
            rgb(0x8a, 0x66, 0x00)
        }
    } else if !less(cpu, single(10, 1)) {
        if dark {
            rgb(0x27, 0xae, 0x60)
        } else {
            rgb(0x1d, 0x7d, 0x46)
        }
    } else {
        text
    }
}

/// The colour of the text of a process row, by its load and whether it is
/// throttled. Light backgrounds get darker shades.
pub fn row_color(cpu: Single, throttled: bool, text_color: Rgb, dark_mode: bool) -> (c: Rgb)
    ensures
        c == row_shade(cpu@, throttled, text_color, dark_mode),
{
    if throttled {
        if dark_mode {
            Breeze::warning()
        } else {
            Rgb { r: 0xa7, g: 0x4f, b: 0x00 }
        }
    } else if !cpu.is_less(Single::whole(80)) {
        if dark_mode {
            Breeze::negative()
        } else {
            Rgb { r: 0xb2, g: 0x27, b: 0x36 }
        }
    } else if !cpu.is_less(Single::whole(40)) {
        if dark_mode {
            Rgb { r: 0xfd, g: 0xbc, b: 0x4b }
        } else {
            Rgb { r: 0x8a, g: 0x66, b: 0x00 }
        }
    } else if !cpu.is_less(Single::whole(10)) {
        if dark_mode {
            Breeze::positive()
        } else {
            Rgb { r: 0x1d, g: 0x7d, b: 0x46 }
        }
    } else {
        text_color
    }
}

/// A busier process stands out more: throttled ones first, then those from 80, from 40
/// and from 10 percent on; the others have the colour of the text.
pub proof fn law_rows_are_coloured_by_load(
    cpu: Single,
    throttled: bool,
    text: Rgb,
    dark: bool,
    r: Rgb,
    high: Rgb,
    mid: Rgb,
    low: Rgb,
    warn: Rgb,
    eighty: Single,
    forty: Single,
    ten: Single,
)
    requires
        call_ensures(row_color, (cpu, throttled, text, dark), r),
        is_single(cpu@),
        eighty@ == single(80, 1) && forty@ == single(40, 1) && ten@ == single(10, 1),
        call_ensures(row_color, (eighty, false, text, dark), high),
        call_ensures(row_color, (forty, false, text, dark), mid),
        call_ensures(row_color, (ten, false, text, dark), low),
        call_ensures(row_color, (ten, true, text, dark), warn),
    ensures
        throttled ==> r == warn,
        !throttled && !falls_short(cpu@, 80, 1) ==> r == high,
        !throttled && falls_short(cpu@, 80, 1) && !falls_short(cpu@, 40, 1) ==> r == mid,
        !throttled && falls_short(cpu@, 40, 1) && !falls_short(cpu@, 10, 1) ==> r == low,
        !throttled && falls_short(cpu@, 10, 1) ==> r == text,
        high != mid && mid != low && high != low && warn != high,
{
    law_limits_compare_by_value(cpu@, 80, 1);
    law_limits_compare_by_value(cpu@, 40, 1);
    law_limits_compare_by_value(cpu@, 10, 1);
    law_whole_numbers_are_exact(80);
    law_whole_numbers_are_exact(40);
    law_whole_numbers_are_exact(10);
    lemma_order(eighty@, eighty@, eighty@);
    lemma_order(forty@, forty@, forty@);
    lemma_order(ten@, ten@, ten@);
    lemma_smaller_limit(forty@, 40, 80);
    lemma_smaller_limit(ten@, 10, 40);
    lemma_smaller_limit(ten@, 10, 80);
    if !falls_short(cpu@, 80, 1) {
        crate::binary::lemma_smaller_fraction(cpu@, 80, 1, 40, 1);
    }
    if !falls_short(cpu@, 40, 1) {
        crate::binary::lemma_smaller_fraction(cpu@, 40, 1, 10, 1);
    }
    if !falls_short(cpu@, 80, 1) {
        crate::binary::lemma_smaller_fraction(cpu@, 80, 1, 10, 1);
    }
}

/// A whole number is less than a greater one.
proof fn lemma_smaller_limit(a: Number, n: int, m: int)
    requires
        0 < n < m < 1000,
        a == single(n, 1),
    ensures
        less(a, single(m, 1)),
{
    law_whole_numbers_are_exact(n as u64);
    law_whole_numbers_are_exact(m as u64);
    law_limits_compare_by_value(a, m, 1);
    if !falls_short(a, m, 1) {
        crate::binary::lemma_no_number_between(a, n, m);
    }
    if a == single(m, 1) {
        crate::binary::lemma_no_number_between(a, n, m);
    }
}

/// A theme that is stored under its name is found again.
pub proof fn law_stored_theme_is_found_again(t: &AppTheme, key: &'static str, s: &str, r: AppTheme)
    requires
        call_ensures(AppTheme::to_str, (t,), key),
        s@ == key@,
        call_ensures(AppTheme::from_str, (s,), r),
    ensures
        r == *t,
{
    reveal_strlit("BreezeDark");
    reveal_strlit("BreezeLight");
    assert("BreezeDark"@.len() != "BreezeLight"@.len());
}

/// The colour of a load runs from the calm one at nothing to the alarming one at all, and
/// does not change beyond.
pub proof fn law_load_colours_end_in_alarm(dark: bool, mpct: u32, r: Rgb, s: Sem)
    requires
        call_ensures(load_color_for, (dark, mpct), r),
        call_ensures(sem_for, (dark,), s),
    ensures
        mpct == 0 ==> r == s.ok,
        mpct == 50_000 ==> r == s.mid,
        mpct == 70_000 ==> r == s.warning,
        mpct >= 85_000 ==> r == s.negative,
{
    if mpct >= 85_000 {
        let n = s.negative;
        let k = if mpct <= 100_000 {
            mpct - 85_000
        } else {
            15_000
        };
        lemma_blend_same(n, k, 15_000);
        if mpct == 85_000 {
            lemma_blend_reaches(s.warning, n, 15_000);
        }
    }
    lemma_blend_start(s.ok, s.mid, 50_000);
    lemma_blend_reaches(s.ok, s.mid, 50_000);
    lemma_blend_reaches(s.mid, s.warning, 20_000);
}

/// Blending a colour with itself.
proof fn lemma_blend_same(a: Rgb, num: int, den: int)
    requires
        den > 0,
        den % 2 == 0,
    ensures
        blend_rgb(a, a, num, den) == a,
{
    lemma_blend_part(a.r, den);
    lemma_blend_part(a.g, den);
    lemma_blend_part(a.b, den);
    assert((a.r - a.r) * num == 0 && (a.g - a.g) * num == 0 && (a.b - a.b) * num == 0)
        by (nonlinear_arith);
}

/// A part of a colour that stays.
proof fn lemma_blend_part(x: u8, den: int)
    requires
        den > 0,
    ensures
        (2 * (x * den) + den) / (2 * den) == x,
{
    let v = x as int;
    assert((2 * (v * den) + den) / (2 * den) == v) by (nonlinear_arith)
        requires
            den > 0,
            v >= 0,
    {
        vstd::arithmetic::div_mod::lemma_fundamental_div_mod_converse(
            2 * (v * den) + den,
            2 * den,
            v,
            den,
        );
    }
}

/// Blending starts at the first colour.
proof fn lemma_blend_start(a: Rgb, b: Rgb, den: int)
    requires
        den > 0,
    ensures
        blend_rgb(a, b, 0, den) == a,
{
    lemma_blend_part(a.r, den);
    lemma_blend_part(a.g, den);
    lemma_blend_part(a.b, den);
    assert((b.r - a.r) * 0 == 0 && (b.g - a.g) * 0 == 0 && (b.b - a.b) * 0 == 0);
}

/// Blending ends at the second colour.
proof fn lemma_blend_reaches(a: Rgb, b: Rgb, den: int)
    requires
        den > 0,
    ensures
        blend_rgb(a, b, den, den) == b,
{
    lemma_blend_part(b.r, den);
    lemma_blend_part(b.g, den);
    lemma_blend_part(b.b, den);
    assert(a.r * den + (b.r - a.r) * den == b.r * den && a.g * den + (b.g - a.g) * den == b.g * den
        && a.b * den + (b.b - a.b) * den == b.b * den) by (nonlinear_arith);
}

} // verus!
