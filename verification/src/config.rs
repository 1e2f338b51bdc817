use vstd::prelude::*;

verus! {

/// Active theme: selects one side of every `{dark, light}` color pair.
/// Automatic theme detection happens outside this library; a caller hands in
/// the already-resolved theme.
#[derive(Clone, Copy, PartialEq, Eq, Structural, Debug)]
pub enum ConfigTheme {
    Dark,
    Light,
}

/// A single color value: one of the eight base names, one of the eight bright
/// names, an 8-bit palette index, or an RGB hex string such as `"#ff0000"`.
#[derive(Debug)]
pub enum ConfigColor {
    BrightBlack,
    BrightRed,
    BrightGreen,
    BrightYellow,
    BrightBlue,
    BrightMagenta,
    BrightCyan,
    BrightWhite,
    Black,
    Red,
    Green,
    Yellow,
    Blue,
    Magenta,
    Cyan,
    White,
    Color256(u8),
    Rgb(String),
}

/// Mathematical model of a `ConfigColor`: the same shape with the hex string
/// abstracted to a sequence of characters.
pub enum ColorModel {
    BrightBlack,
    BrightRed,
    BrightGreen,
    BrightYellow,
    BrightBlue,
    BrightMagenta,
    BrightCyan,
    BrightWhite,
    Black,
    Red,
    Green,
    Yellow,
    Blue,
    Magenta,
    Cyan,
    White,
    Color256(u8),
    Rgb(Seq<char>),
}

impl View for ConfigColor {
    type V = ColorModel;

    open spec fn view(&self) -> ColorModel {
        match self {
            ConfigColor::BrightBlack => ColorModel::BrightBlack,
            ConfigColor::BrightRed => ColorModel::BrightRed,
            ConfigColor::BrightGreen => ColorModel::BrightGreen,
            ConfigColor::BrightYellow => ColorModel::BrightYellow,
            ConfigColor::BrightBlue => ColorModel::BrightBlue,
            ConfigColor::BrightMagenta => ColorModel::BrightMagenta,
            ConfigColor::BrightCyan => ColorModel::BrightCyan,
            ConfigColor::BrightWhite => ColorModel::BrightWhite,
            ConfigColor::Black => ColorModel::Black,
            ConfigColor::Red => ColorModel::Red,
            ConfigColor::Green => ColorModel::Green,
            ConfigColor::Yellow => ColorModel::Yellow,
            ConfigColor::Blue => ColorModel::Blue,
            ConfigColor::Magenta => ColorModel::Magenta,
            ConfigColor::Cyan => ColorModel::Cyan,
            ConfigColor::White => ColorModel::White,
            ConfigColor::Color256(n) => ColorModel::Color256(*n),
            ConfigColor::Rgb(s) => ColorModel::Rgb(s@),
        }
    }
}

/// Deep copy of a color; the copy's model equals the source's.
pub fn clone_color(c: &ConfigColor) -> (r: ConfigColor)
    ensures
        r@ == c@,
{
    match c {
        ConfigColor::BrightBlack => ConfigColor::BrightBlack,
        ConfigColor::BrightRed => ConfigColor::BrightRed,
        ConfigColor::BrightGreen => ConfigColor::BrightGreen,
        ConfigColor::BrightYellow => ConfigColor::BrightYellow,
        ConfigColor::BrightBlue => ConfigColor::BrightBlue,
        ConfigColor::BrightMagenta => ConfigColor::BrightMagenta,
        ConfigColor::BrightCyan => ConfigColor::BrightCyan,
        ConfigColor::BrightWhite => ConfigColor::BrightWhite,
        ConfigColor::Black => ConfigColor::Black,
        ConfigColor::Red => ConfigColor::Red,
        ConfigColor::Green => ConfigColor::Green,
        ConfigColor::Yellow => ConfigColor::Yellow,
        ConfigColor::Blue => ConfigColor::Blue,
        ConfigColor::Magenta => ConfigColor::Magenta,
        ConfigColor::Cyan => ConfigColor::Cyan,
        ConfigColor::White => ConfigColor::White,
        ConfigColor::Color256(n) => ConfigColor::Color256(*n),
        ConfigColor::Rgb(s) => ConfigColor::Rgb(s.clone()),
    }
}

/// A theme-aware color: one value for dark terminals, one for light ones.
#[derive(Debug)]
pub struct ConfigColorByTheme {
    pub dark: ConfigColor,
    pub light: ConfigColor,
}

/// Model of a theme-aware color pair.
pub struct ColorPairModel {
    pub dark: ColorModel,
    pub light: ColorModel,
}

impl View for ConfigColorByTheme {
    type V = ColorPairModel;

    open spec fn view(&self) -> ColorPairModel {
        ColorPairModel { dark: self.dark@, light: self.light@ }
    }
}

/// Deep copy of a color pair; the copy's model equals the source's.
pub fn clone_color_pair(c: &ConfigColorByTheme) -> (r: ConfigColorByTheme)
    ensures
        r@ == c@,
{
    ConfigColorByTheme { dark: clone_color(&c.dark), light: clone_color(&c.light) }
}

/// How a column's content is colored: a fixed theme-aware color, or one of
/// the three classification modes.
#[derive(Debug)]
pub enum ConfigColumnStyle {
    Fixed(ConfigColorByTheme),
    ByPercentage,
    ByState,
    ByUnit,
}

/// Model of a column style.
pub enum ColumnStyleModel {
    Fixed(ColorPairModel),
    ByPercentage,
    ByState,
    ByUnit,
}

impl View for ConfigColumnStyle {
    type V = ColumnStyleModel;

    open spec fn view(&self) -> ColumnStyleModel {
        match self {
            ConfigColumnStyle::Fixed(c) => ColumnStyleModel::Fixed(c@),
            ConfigColumnStyle::ByPercentage => ColumnStyleModel::ByPercentage,
            ConfigColumnStyle::ByState => ColumnStyleModel::ByState,
            ConfigColumnStyle::ByUnit => ColumnStyleModel::ByUnit,
        }
    }
}

/// Deep copy of a column style; the copy's model equals the source's.
pub fn clone_column_style(c: &ConfigColumnStyle) -> (r: ConfigColumnStyle)
    ensures
        r@ == c@,
{
    match c {
        ConfigColumnStyle::Fixed(p) => ConfigColumnStyle::Fixed(clone_color_pair(p)),
        ConfigColumnStyle::ByPercentage => ConfigColumnStyle::ByPercentage,
        ConfigColumnStyle::ByState => ConfigColumnStyle::ByState,
        ConfigColumnStyle::ByUnit => ConfigColumnStyle::ByUnit,
    }
}

/// Per-category colors for the process-state classification.
#[derive(Debug)]
pub struct ConfigStyleByState {
    pub color_d: ConfigColorByTheme,
    pub color_r: ConfigColorByTheme,
    pub color_s: ConfigColorByTheme,
    pub color_t: ConfigColorByTheme,
    pub color_z: ConfigColorByTheme,
    pub color_x: ConfigColorByTheme,
    pub color_k: ConfigColorByTheme,
    pub color_w: ConfigColorByTheme,
    pub color_p: ConfigColorByTheme,
}

/// Per-category colors for the memory-unit classification.
#[derive(Debug)]
pub struct ConfigStyleByUnit {
    pub color_k: ConfigColorByTheme,
    pub color_m: ConfigColorByTheme,
    pub color_g: ConfigColorByTheme,
    pub color_t: ConfigColorByTheme,
    pub color_p: ConfigColorByTheme,
    pub color_x: ConfigColorByTheme,
}

/// Per-bucket colors for the percentage classification.
#[derive(Debug)]
pub struct ConfigStyleByPercentage {
    pub color_000: ConfigColorByTheme,
    pub color_025: ConfigColorByTheme,
    pub color_050: ConfigColorByTheme,
    pub color_075: ConfigColorByTheme,
    pub color_100: ConfigColorByTheme,
}

/// The style sheet: classification tables plus the fixed colors for the
/// header row, the unit row, and the tree column.
#[derive(Debug)]
pub struct ConfigStyle {
    pub by_state: ConfigStyleByState,
    pub by_unit: ConfigStyleByUnit,
    pub by_percentage: ConfigStyleByPercentage,
    pub header: ConfigColorByTheme,
    pub unit: ConfigColorByTheme,
    pub tree: ConfigColorByTheme,
}

/// Sort direction of the active sort column.
#[derive(Clone, Copy, PartialEq, Eq, Structural, Debug)]
pub enum ConfigSortOrder {
    Ascending,
    Descending,
}

/// Boolean combinator applied to the two per-class search results.
#[derive(Clone, Copy, PartialEq, Eq, Structural, Debug)]
pub enum ConfigSearchLogic {
    And,
    Or,
    Nand,
    Nor,
}

/// Matching kind for one keyword class: exact cell equality, or substring.
#[derive(Clone, Copy, PartialEq, Eq, Structural, Debug)]
pub enum ConfigSearchKind {
    Exact,
    Partial,
}

/// Cell alignment within a column.
#[derive(Clone, Copy, PartialEq, Eq, Structural, Debug)]
pub enum ConfigColumnAlign {
    Left,
    Right,
    Center,
}

/// Configured pager behavior.
#[derive(Clone, Copy, PartialEq, Eq, Structural, Debug)]
pub enum ConfigPagerMode {
    Auto,
    Always,
    Disable,
}

/// Configured color behavior.
#[derive(Clone, Copy, PartialEq, Eq, Structural, Debug)]
pub enum ConfigColorMode {
    Auto,
    Always,
    Disable,
}

/// Search options: default combinator, matching kind per keyword class, and
/// the smart-case toggle for non-numeric partial matching.
#[derive(Debug)]
pub struct ConfigSearch {
    pub logic: ConfigSearchLogic,
    pub nonnumeric_search: ConfigSearchKind,
    pub numeric_search: ConfigSearchKind,
    pub smart_case: bool,
}

/// Display options consumed by this library.
#[derive(Debug)]
pub struct ConfigDisplay {
    pub show_self: bool,
    pub cut_to_terminal: bool,
    pub cut_to_pager: bool,
    pub cut_to_pipe: bool,
    pub color_mode: ConfigColorMode,
    pub theme: ConfigTheme,
}

/// Default sort column and order, used when no override matches.
#[derive(Debug)]
pub struct ConfigSort {
    pub column: usize,
    pub order: ConfigSortOrder,
}

/// Pager options: mode and an optional external pager command.
#[derive(Debug)]
pub struct ConfigPager {
    pub mode: ConfigPagerMode,
    pub command: Option<String>,
}

/// A configured column slot: either a fixed kind, named by its display name,
/// or a `Slot` filled from the runtime insertion list.
#[derive(Debug)]
pub enum ConfigColumnKind {
    Slot,
    Named(String),
}

/// One configured column: its kind, an optional header override, its style,
/// search eligibility flags, alignment, and optional width bounds.
#[derive(Debug)]
pub struct ConfigColumn {
    pub kind: ConfigColumnKind,
    pub header: Option<String>,
    pub style: ConfigColumnStyle,
    pub nonnumeric_search: bool,
    pub numeric_search: bool,
    pub align: ConfigColumnAlign,
    pub max_width: Option<usize>,
    pub min_width: Option<usize>,
}

/// The whole configuration consumed by the view layer.
#[derive(Debug)]
pub struct Config {
    pub columns: Vec<ConfigColumn>,
    pub search: ConfigSearch,
    pub display: ConfigDisplay,
    pub sort: ConfigSort,
    pub pager: ConfigPager,
    pub style: ConfigStyle,
}

/// Runtime overrides, highest precedence: tree mode, keywords, explicit
/// search-logic flags, watch mode, sort-by-name requests, pager and color
/// override strings, and the dynamic column insertion list.
#[derive(Debug)]
pub struct Opt {
    pub tree: bool,
    pub keyword: Vec<String>,
    pub and: bool,
    pub or: bool,
    pub nand: bool,
    pub nor: bool,
    pub watch_mode: bool,
    pub sorta: Option<String>,
    pub sortd: Option<String>,
    pub pager: Option<String>,
    pub color: Option<String>,
    pub insert: Vec<String>,
}

} // verus!
