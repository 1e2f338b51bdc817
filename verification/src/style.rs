use vstd::prelude::*;

use crate::config::{
    ColorModel, ColorPairModel, ColumnStyleModel, ConfigColor, ConfigColorByTheme,
    ConfigColumnStyle, ConfigStyle, ConfigStyleByPercentage, ConfigStyleByState,
    ConfigStyleByUnit, ConfigTheme,
};
use crate::util::{contains_char, is_digit_char, trim_spec, trim_str};

verus! {

/// A fully resolved terminal color: an 8-bit palette index or an RGB triple.
#[derive(Clone, Copy, PartialEq, Eq, Structural, Debug)]
pub enum PaintCode {
    Fixed(u8),
    Rgb(u8, u8, u8),
}

pub open spec fn digit_char(d: int) -> char {
    if d == 0 {
        '0'
    } else if d == 1 {
        '1'
    } else if d == 2 {
        '2'
    } else if d == 3 {
        '3'
    } else if d == 4 {
        '4'
    } else if d == 5 {
        '5'
    } else if d == 6 {
        '6'
    } else if d == 7 {
        '7'
    } else if d == 8 {
        '8'
    } else {
        '9'
    }
}

/// The decimal rendering of a number, without padding.
pub open spec fn dec_digits(n: int) -> Seq<char>
    decreases n,
{
    if n < 10 {
        seq![digit_char(n)]
    } else {
        dec_digits(n / 10).push(digit_char(n % 10))
    }
}

pub open spec fn reset_seq() -> Seq<char> {
    seq!['\u{1b}', '[', '0', 'm']
}

/// The escape-wrapped text for a 256-color palette index: the SGR 38;5
/// prefix, the text, and the reset suffix.
pub open spec fn sgr_fixed_seq(code: u8, text: Seq<char>) -> Seq<char> {
    seq!['\u{1b}', '[', '3', '8', ';', '5', ';'] + dec_digits(code as int) + seq!['m'] + text
        + reset_seq()
}

/// The escape-wrapped text for a 24-bit color: the SGR 38;2 prefix with the
/// three channels, the text, and the reset suffix.
pub open spec fn sgr_rgb_seq(r: u8, g: u8, b: u8, text: Seq<char>) -> Seq<char> {
    seq!['\u{1b}', '[', '3', '8', ';', '2', ';'] + dec_digits(r as int) + seq![';'] + dec_digits(
        g as int,
    ) + seq![';'] + dec_digits(b as int) + seq!['m'] + text + reset_seq()
}

/// Relies on `ansi_term`: painting with `Colour::Fixed(code).normal()` wraps
/// the text in exactly the 38;5 foreground prefix for `code` and the reset
/// suffix.
#[verifier::external_body]
fn paint_fixed(x: String, code: u8) -> (r: String)
    ensures
        r@ == sgr_fixed_seq(code, x@),
{
    ansi_term::Colour::Fixed(code).normal().paint(x).to_string()
}

/// Relies on `ansi_term`: painting with `Colour::RGB(r, g, b).normal()` wraps
/// the text in exactly the 38;2 foreground prefix for the three channels and
/// the reset suffix.
#[verifier::external_body]
fn paint_rgb(x: String, cr: u8, cg: u8, cb: u8) -> (r: String)
    ensures
        r@ == sgr_rgb_seq(cr, cg, cb, x@),
{
    ansi_term::Colour::RGB(cr, cg, cb).normal().paint(x).to_string()
}

pub open spec fn is_hex_digit(c: char) -> bool {
    is_digit_char(c) || ('a' <= c && c <= 'f') || ('A' <= c && c <= 'F')
}

pub open spec fn hex_digit_val(c: char) -> int {
    if is_digit_char(c) {
        c as u32 - 48
    } else if 'a' <= c && c <= 'f' {
        c as u32 - 87
    } else if 'A' <= c && c <= 'F' {
        c as u32 - 55
    } else {
        0
    }
}

/// One color channel of an RGB hex code: the two hex digits starting at
/// position `i`, or 0 when they are missing or malformed.
pub open spec fn hex_channel(s: Seq<char>, i: int) -> int {
    if 0 <= i && i + 2 <= s.len() && is_hex_digit(s[i]) && is_hex_digit(s[i + 1]) {
        16 * hex_digit_val(s[i]) + hex_digit_val(s[i + 1])
    } else {
        0
    }
}

fn hex_digit_of(c: char) -> (r: Option<u8>)
    ensures
        r is Some <==> is_hex_digit(c),
        r is Some ==> r->0 == hex_digit_val(c) && r->0 < 16,
{
    if '0' <= c && c <= '9' {
        Some((c as u8) - 48)
    } else if 'a' <= c && c <= 'f' {
        Some((c as u8) - 87)
    } else if 'A' <= c && c <= 'F' {
        Some((c as u8) - 55)
    } else {
        None
    }
}

fn hex_channel_at(s: &str, i: usize, len: usize) -> (r: u8)
    requires
        len == s@.len(),
    ensures
        r == hex_channel(s@, i as int),
{
    if i < len && len - i >= 2 {
        let hi = hex_digit_of(s.get_char(i));
        let lo = hex_digit_of(s.get_char(i + 1));
        match (hi, lo) {
            (Some(h), Some(l)) => 16 * h + l,
            _ => 0,
        }
    } else {
        0
    }
}

/// Parses a `#RRGGBB` hex code into its three channels; a missing or
/// malformed channel silently becomes 0.
pub fn hexcode2color(hexcode: &str) -> (r: (u8, u8, u8))
    ensures
        r.0 == hex_channel(hexcode@, 1),
        r.1 == hex_channel(hexcode@, 3),
        r.2 == hex_channel(hexcode@, 5),
{
    let len: usize = hexcode.unicode_len();
    let cr = hex_channel_at(hexcode, 1, len);
    let cg = hex_channel_at(hexcode, 3, len);
    let cb = hex_channel_at(hexcode, 5, len);
    (cr, cg, cb)
}

/// The percentage buckets, strictly above 100, 75, 50 and 25, and the rest.
#[derive(Clone, Copy, PartialEq, Eq, Structural, Debug)]
pub enum PercentBucket {
    Bucket100,
    Bucket075,
    Bucket050,
    Bucket025,
    Bucket000,
}

/// The digits of the integer part: everything before the first dot.
pub open spec fn int_part(s: Seq<char>) -> Seq<char>
    decreases s.len(),
{
    if s.len() == 0 {
        Seq::empty()
    } else if s[0] == '.' {
        Seq::empty()
    } else {
        seq![s[0]] + int_part(s.drop_first())
    }
}

/// Everything after the first dot; empty when there is no dot.
pub open spec fn frac_part(s: Seq<char>) -> Seq<char>
    decreases s.len(),
{
    if s.len() == 0 {
        Seq::empty()
    } else if s[0] == '.' {
        s.drop_first()
    } else {
        frac_part(s.drop_first())
    }
}

pub open spec fn all_digits(s: Seq<char>) -> bool {
    forall|i: int| 0 <= i < s.len() ==> is_digit_char(#[trigger] s[i])
}

pub open spec fn digit_val(c: char) -> int {
    c as u32 - 48
}

/// The value of a digit string read as a decimal number.
pub open spec fn digits_val(s: Seq<char>) -> int
    decreases s.len(),
{
    if s.len() == 0 {
        0
    } else {
        digits_val(s.drop_last()) * 10 + digit_val(s[s.len() - 1])
    }
}

pub open spec fn strip_sign(s: Seq<char>) -> Seq<char> {
    if s.len() > 0 && (s[0] == '+' || s[0] == '-') {
        s.drop_first()
    } else {
        s
    }
}

pub open spec fn is_negative(s: Seq<char>) -> bool {
    s.len() > 0 && s[0] == '-'
}

/// A sign-stripped decimal literal: digits, optionally one dot, with at least
/// one digit somewhere.
pub open spec fn valid_decimal(u: Seq<char>) -> bool {
    all_digits(int_part(u)) && all_digits(frac_part(u)) && int_part(u).len() + frac_part(u).len()
        > 0
}

pub open spec fn has_nonzero_digit(s: Seq<char>) -> bool {
    exists|i: int| 0 <= i < s.len() && s[i] != '0'
}

/// The parsed value lies strictly above the integer threshold `t`.
pub open spec fn value_gt(u: Seq<char>, t: int) -> bool {
    digits_val(int_part(u)) > t || (digits_val(int_part(u)) == t && has_nonzero_digit(
        frac_part(u),
    ))
}

/// The bucket of a percentage cell: the text is trimmed and read as a plain
/// decimal number; unreadable text and negative values fall to the lowest
/// bucket, exactly as a parse failure defaults to 0. Comparison against the
/// four thresholds is strict.
pub open spec fn percent_bucket(raw: Seq<char>) -> PercentBucket {
    let t = trim_spec(raw);
    let u = strip_sign(t);
    if !valid_decimal(u) || is_negative(t) {
        PercentBucket::Bucket000
    } else if value_gt(u, 100) {
        PercentBucket::Bucket100
    } else if value_gt(u, 75) {
        PercentBucket::Bucket075
    } else if value_gt(u, 50) {
        PercentBucket::Bucket050
    } else if value_gt(u, 25) {
        PercentBucket::Bucket025
    } else {
        PercentBucket::Bucket000
    }
}

proof fn lemma_int_frac(s: Seq<char>, d: int)
    requires
        0 <= d <= s.len(),
        forall|j: int| 0 <= j < d ==> s[j] != '.',
    ensures
        d < s.len() && s[d] == '.' ==> int_part(s) == s.subrange(0, d) && frac_part(s)
            == s.subrange(d + 1, s.len() as int),
        forall|j: int| 0 <= j < d ==> j < int_part(s).len() && int_part(s)[j] == s[j],
        d == s.len() ==> int_part(s) == s && frac_part(s) == Seq::<char>::empty(),
    decreases d,
{
    if d == 0 {
        if 0 < s.len() && s[0] == '.' {
            assert(int_part(s) =~= s.subrange(0, 0));
            assert(frac_part(s) =~= s.subrange(1, s.len() as int));
        }
    } else {
        let ds = s.drop_first();
        lemma_int_frac(ds, d - 1);
        assert(s[0] != '.');
        if d < s.len() && s[d] == '.' {
            assert(ds[d - 1] == '.');
            assert(int_part(s) =~= s.subrange(0, d)) by {
                assert(int_part(s) == seq![s[0]] + int_part(ds));
                assert(int_part(ds) == ds.subrange(0, d - 1));
                assert((seq![s[0]] + ds.subrange(0, d - 1)) =~= s.subrange(0, d));
            }
            assert(frac_part(s) =~= s.subrange(d + 1, s.len() as int)) by {
                assert(frac_part(s) == frac_part(ds));
                assert(frac_part(ds) == ds.subrange(d, ds.len() as int));
                assert(ds.subrange(d, ds.len() as int) =~= s.subrange(d + 1, s.len() as int));
            }
        }
        if d == s.len() {
            assert(int_part(s) =~= s) by {
                assert(int_part(ds) == ds);
            }
            assert(frac_part(s) =~= Seq::<char>::empty()) by {
                assert(frac_part(ds) == Seq::<char>::empty());
            }
        }
        assert forall|j: int| 0 <= j < d implies j < int_part(s).len() && int_part(s)[j]
            == s[j] by {
            assert(int_part(s) == seq![s[0]] + int_part(ds));
            if j > 0 {
                assert(int_part(ds)[j - 1] == ds[j - 1]);
            }
        }
    }
}

/// Reads a percentage cell and returns its threshold bucket.
pub fn percent_bucket_of(x: &str) -> (r: PercentBucket)
    ensures
        r == percent_bucket(x@),
{
    let t: &str = trim_str(x);
    let ghost ts = trim_spec(x@);
    let len: usize = t.unicode_len();
    let mut start: usize = 0;
    let mut neg: bool = false;
    if len > 0 {
        let c0 = t.get_char(0);
        if c0 == '+' {
            start = 1;
        } else if c0 == '-' {
            neg = true;
            start = 1;
        }
    }
    let ghost u = strip_sign(ts);
    proof {
        assert(u =~= ts.subrange(start as int, len as int));
        assert(neg == is_negative(ts));
    }
    let mut k: usize = start;
    let mut val: u64 = 0;
    while k < len && t.get_char(k) != '.'
        invariant
            start <= k <= len,
            t@ == ts,
            ts == trim_spec(x@),
            u == strip_sign(ts),
            neg == is_negative(ts),
            len == ts.len(),
            u == ts.subrange(start as int, len as int),
            forall|j: int| start <= j < k ==> ts[j] != '.' && is_digit_char(#[trigger] ts[j]),
            digits_val(ts.subrange(start as int, k as int)) <= 1000 ==> val == digits_val(
                ts.subrange(start as int, k as int),
            ),
            digits_val(ts.subrange(start as int, k as int)) > 1000 ==> val == 1001,
            0 <= val <= 1001,
        decreases len - k,
    {
        let c = t.get_char(k);
        if !('0' <= c && c <= '9') {
            proof {
                lemma_int_frac(u, k - start + 1);
                assert(int_part(u)[k - start] == u[k - start]);
                assert(!is_digit_char(int_part(u)[k - start]));
                assert(!valid_decimal(u));
            }
            return PercentBucket::Bucket000;
        }
        proof {
            assert(ts.subrange(start as int, k + 1 as int).drop_last() =~= ts.subrange(
                start as int,
                k as int,
            ));
            assert(digits_val(ts.subrange(start as int, k + 1 as int)) == digits_val(
                ts.subrange(start as int, k as int),
            ) * 10 + digit_val(ts[k as int]));
        }
        let d: u64 = ((c as u8) - 48) as u64;
        val = val * 10 + d;
        if val > 1000 {
            val = 1001;
        }
        k = k + 1;
    }
    let ghost ipart = ts.subrange(start as int, k as int);
    let mut fnz: bool = false;
    let has_int: bool = k > start;
    let mut has_frac: bool = false;
    if k < len {
        // the character at k is the first dot; scan the fraction
        has_frac = k + 1 < len;
        let mut j: usize = k + 1;
        while j < len
            invariant
                k + 1 <= j <= len,
                start <= k < len,
                t@ == ts,
                ts == trim_spec(x@),
                u == strip_sign(ts),
                neg == is_negative(ts),
                len == ts.len(),
                u == ts.subrange(start as int, len as int),
                ts[k as int] == '.',
                forall|m: int| start <= m < k ==> ts[m] != '.',
                forall|m: int| k + 1 <= m < j ==> is_digit_char(#[trigger] ts[m]),
                fnz == has_nonzero_digit(ts.subrange(k + 1 as int, j as int)),
            decreases len - j,
        {
            let c = t.get_char(j);
            if !('0' <= c && c <= '9') {
                proof {
                    lemma_int_frac(u, k - start);
                    assert(frac_part(u) == u.subrange(k - start + 1, u.len() as int));
                    assert(frac_part(u)[j - k - 1] == ts[j as int]);
                    assert(!valid_decimal(u));
                }
                return PercentBucket::Bucket000;
            }
            proof {
                let pre = ts.subrange(k + 1 as int, j as int);
                let post = ts.subrange(k + 1 as int, j + 1 as int);
                assert(post =~= pre.push(ts[j as int]));
                assert(has_nonzero_digit(post) == (has_nonzero_digit(pre) || ts[j as int]
                    != '0')) by {
                    if has_nonzero_digit(pre) {
                        let w = choose|i: int| 0 <= i < pre.len() && pre[i] != '0';
                        assert(post[w] != '0');
                    }
                    if ts[j as int] != '0' {
                        assert(post[post.len() - 1] != '0');
                    }
                }
            }
            if c != '0' {
                fnz = true;
            }
            j = j + 1;
        }
        proof {
            lemma_int_frac(u, k - start);
            assert(int_part(u) =~= ipart);
            assert(frac_part(u) =~= ts.subrange(k + 1 as int, len as int));
        }
    } else {
        proof {
            lemma_int_frac(u, k - start);
            assert(int_part(u) =~= ipart);
            assert(frac_part(u) =~= Seq::<char>::empty());
        }
    }
    if !has_int && !has_frac {
        proof {
            assert(!valid_decimal(u));
        }
        return PercentBucket::Bucket000;
    }
    proof {
        assert(valid_decimal(u));
        assert(fnz == has_nonzero_digit(frac_part(u)));
        let iv = digits_val(int_part(u));
        assert(iv > 1000 ==> val == 1001 && iv > 100);
        assert(iv <= 1000 ==> val == iv);
    }
    if neg {
        proof {
            assert(is_negative(ts));
        }
        return PercentBucket::Bucket000;
    }
    if val > 100 || (val == 100 && fnz) {
        PercentBucket::Bucket100
    } else if val > 75 || (val == 75 && fnz) {
        PercentBucket::Bucket075
    } else if val > 50 || (val == 50 && fnz) {
        PercentBucket::Bucket050
    } else if val > 25 || (val == 25 && fnz) {
        PercentBucket::Bucket025
    } else {
        PercentBucket::Bucket000
    }
}

/// The color of one side of a theme pair.
pub open spec fn theme_color(c: ColorPairModel, theme: ConfigTheme) -> ColorModel {
    match theme {
        ConfigTheme::Dark => c.dark,
        ConfigTheme::Light => c.light,
    }
}

/// Fading degrades the eight bright names to their plain forms and leaves
/// everything else alone; palette indices and RGB codes are applied exactly
/// as given even when faded.
pub open spec fn fade_color(c: ColorModel) -> ColorModel {
    match c {
        ColorModel::BrightBlack => ColorModel::Black,
        ColorModel::BrightRed => ColorModel::Red,
        ColorModel::BrightGreen => ColorModel::Green,
        ColorModel::BrightYellow => ColorModel::Yellow,
        ColorModel::BrightBlue => ColorModel::Blue,
        ColorModel::BrightMagenta => ColorModel::Magenta,
        ColorModel::BrightCyan => ColorModel::Cyan,
        ColorModel::BrightWhite => ColorModel::White,
        _ => c,
    }
}

/// The palette index or RGB triple a color resolves to: the eight base names
/// map to indices 0 through 7, the bright names to 8 through 15.
pub open spec fn resolved_code(c: ColorModel) -> PaintCode {
    match c {
        ColorModel::Black => PaintCode::Fixed(0),
        ColorModel::Red => PaintCode::Fixed(1),
        ColorModel::Green => PaintCode::Fixed(2),
        ColorModel::Yellow => PaintCode::Fixed(3),
        ColorModel::Blue => PaintCode::Fixed(4),
        ColorModel::Magenta => PaintCode::Fixed(5),
        ColorModel::Cyan => PaintCode::Fixed(6),
        ColorModel::White => PaintCode::Fixed(7),
        ColorModel::BrightBlack => PaintCode::Fixed(8),
        ColorModel::BrightRed => PaintCode::Fixed(9),
        ColorModel::BrightGreen => PaintCode::Fixed(10),
        ColorModel::BrightYellow => PaintCode::Fixed(11),
        ColorModel::BrightBlue => PaintCode::Fixed(12),
        ColorModel::BrightMagenta => PaintCode::Fixed(13),
        ColorModel::BrightCyan => PaintCode::Fixed(14),
        ColorModel::BrightWhite => PaintCode::Fixed(15),
        ColorModel::Color256(n) => PaintCode::Fixed(n),
        ColorModel::Rgb(s) => PaintCode::Rgb(
            hex_channel(s, 1) as u8,
            hex_channel(s, 3) as u8,
            hex_channel(s, 5) as u8,
        ),
    }
}

/// The text wrapped in the escape codes of the given paint code.
pub open spec fn painted(text: Seq<char>, pc: PaintCode) -> Seq<char> {
    match pc {
        PaintCode::Fixed(n) => sgr_fixed_seq(n, text),
        PaintCode::Rgb(r, g, b) => sgr_rgb_seq(r, g, b, text),
    }
}

/// What `apply_color` returns: the text painted with the theme side of the
/// pair, faded if asked.
pub open spec fn apply_color_spec(
    text: Seq<char>,
    c: ColorPairModel,
    theme: ConfigTheme,
    faded: bool,
) -> Seq<char> {
    let side = theme_color(c, theme);
    let side = if faded {
        fade_color(side)
    } else {
        side
    };
    painted(text, resolved_code(side))
}

fn color_code(c: &ConfigColor, faded: bool) -> (r: PaintCode)
    ensures
        r == resolved_code(if faded {
            fade_color(c@)
        } else {
            c@
        }),
{
    match c {
        ConfigColor::BrightBlack => PaintCode::Fixed(if faded { 0 } else { 8 }),
        ConfigColor::BrightRed => PaintCode::Fixed(if faded { 1 } else { 9 }),
        ConfigColor::BrightGreen => PaintCode::Fixed(if faded { 2 } else { 10 }),
        ConfigColor::BrightYellow => PaintCode::Fixed(if faded { 3 } else { 11 }),
        ConfigColor::BrightBlue => PaintCode::Fixed(if faded { 4 } else { 12 }),
        ConfigColor::BrightMagenta => PaintCode::Fixed(if faded { 5 } else { 13 }),
        ConfigColor::BrightCyan => PaintCode::Fixed(if faded { 6 } else { 14 }),
        ConfigColor::BrightWhite => PaintCode::Fixed(if faded { 7 } else { 15 }),
        ConfigColor::Black => PaintCode::Fixed(0),
        ConfigColor::Red => PaintCode::Fixed(1),
        ConfigColor::Green => PaintCode::Fixed(2),
        ConfigColor::Yellow => PaintCode::Fixed(3),
        ConfigColor::Blue => PaintCode::Fixed(4),
        ConfigColor::Magenta => PaintCode::Fixed(5),
        ConfigColor::Cyan => PaintCode::Fixed(6),
        ConfigColor::White => PaintCode::Fixed(7),
        ConfigColor::Color256(n) => PaintCode::Fixed(*n),
        ConfigColor::Rgb(s) => {
            let (cr, cg, cb) = hexcode2color(s.as_str());
            PaintCode::Rgb(cr, cg, cb)
        },
    }
}

/// Paints the text with the theme-appropriate side of a color pair. When
/// `faded`, the sixteen named colors degrade to their plain forms; explicit
/// palette indices and RGB codes are unaffected.
pub fn apply_color(x: String, c: &ConfigColorByTheme, theme: &ConfigTheme, faded: bool) -> (r:
    String)
    ensures
        r@ == apply_color_spec(x@, c@, *theme, faded),
{
    let side: &ConfigColor = match theme {
        ConfigTheme::Dark => &c.dark,
        ConfigTheme::Light => &c.light,
    };
    let code = color_code(side, faded);
    match code {
        PaintCode::Fixed(n) => paint_fixed(x, n),
        PaintCode::Rgb(cr, cg, cb) => paint_rgb(x, cr, cg, cb),
    }
}

/// The state category's color pair: the first of the letters
/// D, R, S, T, t, Z, X, K, W, P found in the text wins; no match falls back
/// to the unknown-state color.
pub open spec fn by_state_pair(s: ConfigStyleByState, x: Seq<char>) -> ColorPairModel {
    if x.contains('D') {
        s.color_d@
    } else if x.contains('R') {
        s.color_r@
    } else if x.contains('S') {
        s.color_s@
    } else if x.contains('T') {
        s.color_t@
    } else if x.contains('t') {
        s.color_t@
    } else if x.contains('Z') {
        s.color_z@
    } else if x.contains('X') {
        s.color_x@
    } else if x.contains('K') {
        s.color_k@
    } else if x.contains('W') {
        s.color_w@
    } else if x.contains('P') {
        s.color_p@
    } else {
        s.color_x@
    }
}

/// The unit category's color pair: the first of the letters K, M, G, T, P
/// found in the text wins; no match falls back to the unknown-unit color.
pub open spec fn by_unit_pair(s: ConfigStyleByUnit, x: Seq<char>) -> ColorPairModel {
    if x.contains('K') {
        s.color_k@
    } else if x.contains('M') {
        s.color_m@
    } else if x.contains('G') {
        s.color_g@
    } else if x.contains('T') {
        s.color_t@
    } else if x.contains('P') {
        s.color_p@
    } else {
        s.color_x@
    }
}

/// The percentage bucket's color pair.
pub open spec fn by_percentage_pair(
    s: ConfigStyleByPercentage,
    x: Seq<char>,
) -> ColorPairModel {
    match percent_bucket(x) {
        PercentBucket::Bucket100 => s.color_100@,
        PercentBucket::Bucket075 => s.color_075@,
        PercentBucket::Bucket050 => s.color_050@,
        PercentBucket::Bucket025 => s.color_025@,
        PercentBucket::Bucket000 => s.color_000@,
    }
}

fn apply_style_by_state(x: String, s: &ConfigStyle, theme: &ConfigTheme, faded: bool) -> (r:
    String)
    ensures
        r@ == apply_color_spec(x@, by_state_pair(s.by_state, x@), *theme, faded),
{
    let pair: &ConfigColorByTheme = if contains_char(x.as_str(), 'D') {
        &s.by_state.color_d
    } else if contains_char(x.as_str(), 'R') {
        &s.by_state.color_r
    } else if contains_char(x.as_str(), 'S') {
        &s.by_state.color_s
    } else if contains_char(x.as_str(), 'T') {
        &s.by_state.color_t
    } else if contains_char(x.as_str(), 't') {
        &s.by_state.color_t
    } else if contains_char(x.as_str(), 'Z') {
        &s.by_state.color_z
    } else if contains_char(x.as_str(), 'X') {
        &s.by_state.color_x
    } else if contains_char(x.as_str(), 'K') {
        &s.by_state.color_k
    } else if contains_char(x.as_str(), 'W') {
        &s.by_state.color_w
    } else if contains_char(x.as_str(), 'P') {
        &s.by_state.color_p
    } else {
        &s.by_state.color_x
    };
    apply_color(x, pair, theme, faded)
}

fn apply_style_by_unit(x: String, s: &ConfigStyle, theme: &ConfigTheme, faded: bool) -> (r:
    String)
    ensures
        r@ == apply_color_spec(x@, by_unit_pair(s.by_unit, x@), *theme, faded),
{
    let pair: &ConfigColorByTheme = if contains_char(x.as_str(), 'K') {
        &s.by_unit.color_k
    } else if contains_char(x.as_str(), 'M') {
        &s.by_unit.color_m
    } else if contains_char(x.as_str(), 'G') {
        &s.by_unit.color_g
    } else if contains_char(x.as_str(), 'T') {
        &s.by_unit.color_t
    } else if contains_char(x.as_str(), 'P') {
        &s.by_unit.color_p
    } else {
        &s.by_unit.color_x
    };
    apply_color(x, pair, theme, faded)
}

fn apply_style_by_percentage(x: String, s: &ConfigStyle, theme: &ConfigTheme, faded: bool) -> (r:
    String)
    ensures
        r@ == apply_color_spec(x@, by_percentage_pair(s.by_percentage, x@), *theme, faded),
{
    let bucket = percent_bucket_of(x.as_str());
    let pair: &ConfigColorByTheme = match bucket {
        PercentBucket::Bucket100 => &s.by_percentage.color_100,
        PercentBucket::Bucket075 => &s.by_percentage.color_075,
        PercentBucket::Bucket050 => &s.by_percentage.color_050,
        PercentBucket::Bucket025 => &s.by_percentage.color_025,
        PercentBucket::Bucket000 => &s.by_percentage.color_000,
    };
    apply_color(x, pair, theme, faded)
}

/// What `apply_style` returns: the column style decides which color pair is
/// used, classification styles classify the text itself.
pub open spec fn apply_style_spec(
    text: Seq<char>,
    cs: ColumnStyleModel,
    sheet: ConfigStyle,
    theme: ConfigTheme,
    faded: bool,
) -> Seq<char> {
    match cs {
        ColumnStyleModel::Fixed(pair) => apply_color_spec(text, pair, theme, faded),
        ColumnStyleModel::ByPercentage => apply_color_spec(
            text,
            by_percentage_pair(sheet.by_percentage, text),
            theme,
            faded,
        ),
        ColumnStyleModel::ByState => apply_color_spec(
            text,
            by_state_pair(sheet.by_state, text),
            theme,
            faded,
        ),
        ColumnStyleModel::ByUnit => apply_color_spec(
            text,
            by_unit_pair(sheet.by_unit, text),
            theme,
            faded,
        ),
    }
}

/// Styles one cell according to its column's style specification.
pub fn apply_style(
    x: String,
    cs: &ConfigColumnStyle,
    s: &ConfigStyle,
    theme: &ConfigTheme,
    faded: bool,
) -> (r: String)
    ensures
        r@ == apply_style_spec(x@, cs@, *s, *theme, faded),
{
    match cs {
        ConfigColumnStyle::Fixed(c) => apply_color(x, c, theme, faded),
        ConfigColumnStyle::ByPercentage => apply_style_by_percentage(x, s, theme, faded),
        ConfigColumnStyle::ByState => apply_style_by_state(x, s, theme, faded),
        ConfigColumnStyle::ByUnit => apply_style_by_unit(x, s, theme, faded),
    }
}

/// Wraps a fixed theme-aware color as a column style.
pub fn color_to_column_style(c: &ConfigColorByTheme) -> (r: ConfigColumnStyle)
    ensures
        r@ == ColumnStyleModel::Fixed(c@),
{
    ConfigColumnStyle::Fixed(crate::config::clone_color_pair(c))
}

} // verus!
