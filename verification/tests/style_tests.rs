use procview::config::{
    ConfigColor, ConfigColorByTheme, ConfigColumnStyle, ConfigStyle, ConfigStyleByPercentage,
    ConfigStyleByState, ConfigStyleByUnit, ConfigTheme,
};
use procview::style::{
    apply_color, apply_style, color_to_column_style, hexcode2color, percent_bucket_of,
    PercentBucket,
};
use procview::util::{classify, KeywordClass};

fn pair(dark: ConfigColor, light: ConfigColor) -> ConfigColorByTheme {
    ConfigColorByTheme { dark, light }
}

fn sheet() -> ConfigStyle {
    ConfigStyle {
        by_state: ConfigStyleByState {
            color_d: pair(ConfigColor::Color256(41), ConfigColor::Color256(41)),
            color_r: pair(ConfigColor::Color256(42), ConfigColor::Color256(42)),
            color_s: pair(ConfigColor::Color256(43), ConfigColor::Color256(43)),
            color_t: pair(ConfigColor::Color256(44), ConfigColor::Color256(44)),
            color_z: pair(ConfigColor::Color256(45), ConfigColor::Color256(45)),
            color_x: pair(ConfigColor::Color256(46), ConfigColor::Color256(46)),
            color_k: pair(ConfigColor::Color256(47), ConfigColor::Color256(47)),
            color_w: pair(ConfigColor::Color256(48), ConfigColor::Color256(48)),
            color_p: pair(ConfigColor::Color256(49), ConfigColor::Color256(49)),
        },
        by_unit: ConfigStyleByUnit {
            color_k: pair(ConfigColor::Color256(61), ConfigColor::Color256(61)),
            color_m: pair(ConfigColor::Color256(62), ConfigColor::Color256(62)),
            color_g: pair(ConfigColor::Color256(63), ConfigColor::Color256(63)),
            color_t: pair(ConfigColor::Color256(64), ConfigColor::Color256(64)),
            color_p: pair(ConfigColor::Color256(65), ConfigColor::Color256(65)),
            color_x: pair(ConfigColor::Color256(66), ConfigColor::Color256(66)),
        },
        by_percentage: ConfigStyleByPercentage {
            color_000: pair(ConfigColor::Color256(70), ConfigColor::Color256(70)),
            color_025: pair(ConfigColor::Color256(71), ConfigColor::Color256(71)),
            color_050: pair(ConfigColor::Color256(72), ConfigColor::Color256(72)),
            color_075: pair(ConfigColor::Color256(73), ConfigColor::Color256(73)),
            color_100: pair(ConfigColor::Color256(74), ConfigColor::Color256(74)),
        },
        header: pair(ConfigColor::BrightBlue, ConfigColor::Blue),
        unit: pair(ConfigColor::White, ConfigColor::Black),
        tree: pair(ConfigColor::Cyan, ConfigColor::Cyan),
    }
}

#[test]
fn classification_is_total_and_exclusive() {
    assert_eq!(classify("123"), KeywordClass::Numeric);
    assert_eq!(classify("0"), KeywordClass::Numeric);
    assert_eq!(classify("12a"), KeywordClass::NonNumeric);
    assert_eq!(classify(""), KeywordClass::NonNumeric);
    assert_eq!(classify("-12"), KeywordClass::NonNumeric);
    assert_eq!(classify("1.5"), KeywordClass::NonNumeric);
}

#[test]
fn hex_parsing_good_code() {
    assert_eq!(hexcode2color("#ff0000"), (255, 0, 0));
    assert_eq!(hexcode2color("#00ff7f"), (0, 255, 127));
}

#[test]
fn hex_parsing_malformed_channel_defaults_to_zero() {
    assert_eq!(hexcode2color("#zz0000"), (0, 0, 0));
    assert_eq!(hexcode2color("#ffzz01"), (255, 0, 1));
    assert_eq!(hexcode2color("#ff"), (255, 0, 0));
    assert_eq!(hexcode2color(""), (0, 0, 0));
}

#[test]
fn percentage_bucket_boundaries_are_strict() {
    // strictly-greater comparisons: a value equal to a threshold falls into
    // the next lower bucket
    assert_eq!(percent_bucket_of("100.0"), PercentBucket::Bucket075);
    assert_eq!(percent_bucket_of("100.1"), PercentBucket::Bucket100);
    assert_eq!(percent_bucket_of("75.0"), PercentBucket::Bucket050);
    assert_eq!(percent_bucket_of("75.1"), PercentBucket::Bucket075);
    assert_eq!(percent_bucket_of("50.0"), PercentBucket::Bucket025);
    assert_eq!(percent_bucket_of("25.0"), PercentBucket::Bucket000);
    assert_eq!(percent_bucket_of("24.9"), PercentBucket::Bucket000);
}

#[test]
fn percentage_unparsable_defaults_to_lowest_bucket() {
    assert_eq!(percent_bucket_of(""), PercentBucket::Bucket000);
    assert_eq!(percent_bucket_of("abc"), PercentBucket::Bucket000);
    assert_eq!(percent_bucket_of("-80.0"), PercentBucket::Bucket000);
    assert_eq!(percent_bucket_of("  60.0  "), PercentBucket::Bucket050);
}

#[test]
fn apply_color_paints_fixed_codes() {
    let c = pair(ConfigColor::BrightRed, ConfigColor::Red);
    let painted = apply_color("hi".to_string(), &c, &ConfigTheme::Dark, false);
    assert_eq!(painted, "\u{1b}[38;5;9mhi\u{1b}[0m");
    // light theme picks the other side
    let painted = apply_color("hi".to_string(), &c, &ConfigTheme::Light, false);
    assert_eq!(painted, "\u{1b}[38;5;1mhi\u{1b}[0m");
}

#[test]
fn faded_degrades_named_colors_only() {
    let named = pair(ConfigColor::BrightGreen, ConfigColor::BrightGreen);
    let painted = apply_color("x".to_string(), &named, &ConfigTheme::Dark, true);
    assert_eq!(painted, "\u{1b}[38;5;2mx\u{1b}[0m");
    // an explicit palette index is applied exactly as given even when faded
    let fixed = pair(ConfigColor::Color256(13), ConfigColor::Color256(13));
    let painted = apply_color("x".to_string(), &fixed, &ConfigTheme::Dark, true);
    assert_eq!(painted, "\u{1b}[38;5;13mx\u{1b}[0m");
    // an RGB code too
    let rgb = pair(
        ConfigColor::Rgb("#010203".to_string()),
        ConfigColor::Rgb("#010203".to_string()),
    );
    let painted = apply_color("x".to_string(), &rgb, &ConfigTheme::Dark, true);
    assert_eq!(painted, "\u{1b}[38;2;1;2;3mx\u{1b}[0m");
}

#[test]
fn apply_style_by_state_scans_priority_order() {
    let s = sheet();
    let style = ConfigColumnStyle::ByState;
    // D wins over R
    let painted = apply_style("DR".to_string(), &style, &s, &ConfigTheme::Dark, false);
    assert_eq!(painted, "\u{1b}[38;5;41mDR\u{1b}[0m");
    // no known letter falls back to the unknown-state color
    let painted = apply_style("??".to_string(), &style, &s, &ConfigTheme::Dark, false);
    assert_eq!(painted, "\u{1b}[38;5;46m??\u{1b}[0m");
}

#[test]
fn apply_style_by_unit_scans_priority_order() {
    let s = sheet();
    let style = ConfigColumnStyle::ByUnit;
    let painted = apply_style("10M".to_string(), &style, &s, &ConfigTheme::Dark, false);
    assert_eq!(painted, "\u{1b}[38;5;62m10M\u{1b}[0m");
    let painted = apply_style("10".to_string(), &style, &s, &ConfigTheme::Dark, false);
    assert_eq!(painted, "\u{1b}[38;5;66m10\u{1b}[0m");
}

#[test]
fn apply_style_by_percentage_uses_buckets() {
    let s = sheet();
    let style = ConfigColumnStyle::ByPercentage;
    let painted = apply_style("80.5".to_string(), &style, &s, &ConfigTheme::Dark, false);
    assert_eq!(painted, "\u{1b}[38;5;73m80.5\u{1b}[0m");
    let painted = apply_style("nope".to_string(), &style, &s, &ConfigTheme::Dark, false);
    assert_eq!(painted, "\u{1b}[38;5;70mnope\u{1b}[0m");
}

#[test]
fn color_to_column_style_wraps_fixed() {
    let c = pair(ConfigColor::Cyan, ConfigColor::Cyan);
    match color_to_column_style(&c) {
        ConfigColumnStyle::Fixed(p) => match (p.dark, p.light) {
            (ConfigColor::Cyan, ConfigColor::Cyan) => {}
            _ => panic!("wrong colors"),
        },
        _ => panic!("not fixed"),
    }
}
