use procview::config::{
    Config, ConfigColor, ConfigColorByTheme, ConfigColorMode, ConfigColumn, ConfigColumnAlign,
    ConfigColumnKind, ConfigColumnStyle, ConfigDisplay, ConfigPager, ConfigPagerMode,
    ConfigSearch, ConfigSearchKind, ConfigSearchLogic, ConfigSort, ConfigSortOrder, ConfigStyle,
    ConfigStyleByPercentage, ConfigStyleByState, ConfigStyleByUnit, ConfigTheme, Opt,
};
use procview::view::{ColorAction, ColumnInfo, ColumnSource, SortInfo, View};

fn vp(dark: ConfigColor, light: ConfigColor) -> ConfigColorByTheme {
    ConfigColorByTheme { dark, light }
}

fn vsheet() -> ConfigStyle {
    ConfigStyle {
        by_state: ConfigStyleByState {
            color_d: vp(ConfigColor::Color256(41), ConfigColor::Color256(41)),
            color_r: vp(ConfigColor::Color256(42), ConfigColor::Color256(42)),
            color_s: vp(ConfigColor::Color256(43), ConfigColor::Color256(43)),
            color_t: vp(ConfigColor::Color256(44), ConfigColor::Color256(44)),
            color_z: vp(ConfigColor::Color256(45), ConfigColor::Color256(45)),
            color_x: vp(ConfigColor::Color256(46), ConfigColor::Color256(46)),
            color_k: vp(ConfigColor::Color256(47), ConfigColor::Color256(47)),
            color_w: vp(ConfigColor::Color256(48), ConfigColor::Color256(48)),
            color_p: vp(ConfigColor::Color256(49), ConfigColor::Color256(49)),
        },
        by_unit: ConfigStyleByUnit {
            color_k: vp(ConfigColor::Color256(61), ConfigColor::Color256(61)),
            color_m: vp(ConfigColor::Color256(62), ConfigColor::Color256(62)),
            color_g: vp(ConfigColor::Color256(63), ConfigColor::Color256(63)),
            color_t: vp(ConfigColor::Color256(64), ConfigColor::Color256(64)),
            color_p: vp(ConfigColor::Color256(65), ConfigColor::Color256(65)),
            color_x: vp(ConfigColor::Color256(66), ConfigColor::Color256(66)),
        },
        by_percentage: ConfigStyleByPercentage {
            color_000: vp(ConfigColor::Color256(70), ConfigColor::Color256(70)),
            color_025: vp(ConfigColor::Color256(71), ConfigColor::Color256(71)),
            color_050: vp(ConfigColor::Color256(72), ConfigColor::Color256(72)),
            color_075: vp(ConfigColor::Color256(73), ConfigColor::Color256(73)),
            color_100: vp(ConfigColor::Color256(74), ConfigColor::Color256(74)),
        },
        header: vp(ConfigColor::BrightBlue, ConfigColor::Blue),
        unit: vp(ConfigColor::White, ConfigColor::Black),
        tree: vp(ConfigColor::Cyan, ConfigColor::Cyan),
    }
}

fn base_config() -> Config {
    Config {
        columns: Vec::new(),
        search: ConfigSearch {
            logic: ConfigSearchLogic::And,
            nonnumeric_search: ConfigSearchKind::Partial,
            numeric_search: ConfigSearchKind::Exact,
            smart_case: false,
        },
        display: ConfigDisplay {
            show_self: false,
            cut_to_terminal: false,
            cut_to_pager: false,
            cut_to_pipe: false,
            color_mode: ConfigColorMode::Auto,
            theme: ConfigTheme::Dark,
        },
        sort: ConfigSort { column: 0, order: ConfigSortOrder::Ascending },
        pager: ConfigPager { mode: ConfigPagerMode::Disable, command: None },
        style: vsheet(),
    }
}

fn base_opt() -> Opt {
    Opt {
        tree: false,
        keyword: Vec::new(),
        and: false,
        or: false,
        nand: false,
        nor: false,
        watch_mode: false,
        sorta: None,
        sortd: None,
        pager: None,
        color: None,
        insert: Vec::new(),
    }
}

fn mk_col(
    kind_name: &str,
    nonnumeric: bool,
    numeric: bool,
    cells: Vec<(i32, &str)>,
    sorted: Vec<i32>,
) -> ColumnInfo {
    ColumnInfo {
        kind_name: kind_name.to_string(),
        style: ConfigColumnStyle::Fixed(vp(ConfigColor::Cyan, ConfigColor::Cyan)),
        nonnumeric_search: nonnumeric,
        numeric_search: numeric,
        align: ConfigColumnAlign::Left,
        max_width: None,
        min_width: None,
        sortable: true,
        header: kind_name.to_string(),
        unit: "".to_string(),
        cells: cells.into_iter().map(|(p, s)| (p, s.to_string())).collect(),
        sorted_asc: sorted,
        width: 0,
    }
}

fn pid_source(name: &str, pids: &[i32]) -> ColumnSource {
    ColumnSource {
        kind_name: name.to_string(),
        available: true,
        sortable: true,
        header: name.to_string(),
        unit: "".to_string(),
        cells: pids.iter().map(|p| (*p, p.to_string())).collect(),
        sorted_asc: pids.to_vec(),
    }
}

fn pid_view(opt: &Opt, pids: &[i32], ppids: Vec<(i32, i32)>, h: usize) -> View {
    let mut config = base_config();
    config.columns = vec![ConfigColumn {
        kind: ConfigColumnKind::Named("pid".to_string()),
        header: None,
        style: ConfigColumnStyle::Fixed(vp(ConfigColor::Cyan, ConfigColor::Cyan)),
        nonnumeric_search: false,
        numeric_search: true,
        align: ConfigColumnAlign::Left,
        max_width: None,
        min_width: None,
    }];
    let catalog = vec![pid_source("pid", pids)];
    View::new(opt, &config, &catalog, ppids, 100, h)
}

#[test]
fn search_logic_truth_table() {
    // (nonnumeric, numeric) result pairs through every combinator
    let columns = vec![
        mk_col("name", true, false, vec![(1, "apple")], vec![1]),
        mk_col("pid", false, true, vec![(1, "42")], vec![1]),
    ];
    let config = base_config();
    let t_nn = vec!["apple".to_string()]; // nonnumeric keyword that matches
    let f_nn = vec!["zebra".to_string()]; // nonnumeric keyword that does not
    let t_n = vec!["42".to_string()]; // numeric keyword that matches
    let f_n = vec!["99".to_string()]; // numeric keyword that does not
    let cases: Vec<(&Vec<String>, &Vec<String>, [bool; 4])> = vec![
        // (nonnumeric, numeric): [And, Or, Nand, Nor]
        (&t_nn, &t_n, [true, true, false, false]),
        (&t_nn, &f_n, [false, true, true, false]),
        (&f_nn, &t_n, [false, true, true, false]),
        (&f_nn, &f_n, [false, false, true, true]),
    ];
    for (nn, n, expect) in cases {
        let logics = [
            ConfigSearchLogic::And,
            ConfigSearchLogic::Or,
            ConfigSearchLogic::Nand,
            ConfigSearchLogic::Nor,
        ];
        for (i, logic) in logics.iter().enumerate() {
            let got = View::search(1, n, nn, &columns, &config, *logic);
            assert_eq!(got, expect[i], "logic {:?} nn={:?} n={:?}", logic, nn, n);
        }
    }
}

#[test]
fn empty_keyword_passthrough_drops_self_pid() {
    let config = base_config();
    let opt = base_opt();
    let mut view = pid_view(&opt, &[1, 2, 3], Vec::new(), 50);
    view.filter(&opt, &config, 2);
    assert_eq!(view.visible_pids, vec![1, 3]);
    assert!(view.auxiliary_pids.is_empty());
}

#[test]
fn watch_mode_truncates_to_height_minus_five() {
    let config = base_config();
    let mut opt = base_opt();
    opt.watch_mode = true;
    // height 8 leaves room for exactly 3 pids
    let mut view = pid_view(&opt, &[1, 2, 3, 4, 5], Vec::new(), 8);
    view.filter(&opt, &config, -1);
    assert_eq!(view.visible_pids, vec![1, 2, 3]);
    assert!(view.auxiliary_pids.is_empty());
}

#[test]
fn tree_mode_collects_ancestors_as_auxiliary() {
    let config = base_config();
    let mut opt = base_opt();
    opt.tree = true;
    opt.keyword = vec!["3".to_string()];
    let ppids = vec![(3, 2), (2, 1)];
    let mut view = pid_view(&opt, &[1, 2, 3], ppids, 50);
    view.filter(&opt, &config, -1);
    // 3 matched; 2 and 1 are shown for context only
    assert_eq!(view.visible_pids, vec![1, 2, 3]);
    let mut aux = view.auxiliary_pids.clone();
    aux.sort();
    assert_eq!(aux, vec![1, 2]);
    // the auxiliary set never holds a matched candidate
    assert!(!view.auxiliary_pids.contains(&3));
}

#[test]
fn tree_closure_is_repeatable_and_cycle_safe() {
    let config = base_config();
    let mut opt = base_opt();
    opt.tree = true;
    opt.keyword = vec!["1".to_string()];
    // a cyclic parent map must not hang the walk
    let mut view = pid_view(&opt, &[1, 2], vec![(1, 2), (2, 1)], 50);
    view.filter(&opt, &config, -1);
    let first_aux = view.auxiliary_pids.clone();
    let first_visible = view.visible_pids.clone();
    assert_eq!(first_aux, vec![2]);
    // an unchanged parent map yields the identical sets again
    view.filter(&opt, &config, -1);
    assert_eq!(view.auxiliary_pids, first_aux);
    assert_eq!(view.visible_pids, first_visible);
}

#[test]
fn get_ppids_walks_chain_nearest_first() {
    let config = base_config();
    let opt = base_opt();
    let ppids = vec![(5, 4), (4, 3), (3, 3)];
    let view = pid_view(&opt, &[3, 4, 5], ppids, 50);
    assert_eq!(view.get_ppids(5), vec![4, 3]);
    // a self-referential entry ends the walk
    assert_eq!(view.get_ppids(3), Vec::<i32>::new());
    assert_eq!(view.get_ppids(99), Vec::<i32>::new());
}

#[test]
fn sort_by_name_resolution_picks_first_match() {
    let cols = vec![
        mk_col("CPU", false, false, vec![], vec![]),
        mk_col("MEM", false, false, vec![], vec![]),
        mk_col("PID", false, false, vec![], vec![]),
    ];
    let mut config = base_config();
    config.sort = ConfigSort { column: 2, order: ConfigSortOrder::Descending };
    let mut opt = base_opt();
    opt.sorta = Some("mem".to_string());
    let si: SortInfo = View::get_sort_info(&opt, &config, &cols);
    assert_eq!(si.idx, 1);
    assert_eq!(si.order, ConfigSortOrder::Ascending);
}

#[test]
fn sort_by_name_unmatched_keeps_default() {
    let cols = vec![
        mk_col("CPU", false, false, vec![], vec![]),
        mk_col("MEM", false, false, vec![], vec![]),
        mk_col("PID", false, false, vec![], vec![]),
    ];
    let mut config = base_config();
    config.sort = ConfigSort { column: 2, order: ConfigSortOrder::Descending };
    let mut opt = base_opt();
    opt.sortd = Some("zzz".to_string());
    let si = View::get_sort_info(&opt, &config, &cols);
    assert_eq!(si.idx, 2);
    assert_eq!(si.order, ConfigSortOrder::Descending);
}

#[test]
fn tree_mode_forces_sort_index_zero() {
    let cols = vec![
        mk_col("CPU", false, false, vec![], vec![]),
        mk_col("MEM", false, false, vec![], vec![]),
    ];
    let mut config = base_config();
    config.sort = ConfigSort { column: 1, order: ConfigSortOrder::Ascending };
    let mut opt = base_opt();
    opt.tree = true;
    let si = View::get_sort_info(&opt, &config, &cols);
    assert_eq!(si.idx, 0);
}

#[test]
fn sort_column_cycling_skips_unsortable() {
    let config = base_config();
    let opt = base_opt();
    let mut view = pid_view(&opt, &[1], Vec::new(), 50);
    let mut b = mk_col("b", false, false, vec![(1, "x")], vec![1]);
    b.sortable = false;
    let c = mk_col("c", false, false, vec![(1, "y")], vec![1]);
    view.columns.push(b);
    view.columns.push(c);
    assert_eq!(view.inc_sort_column(), 2);
    assert_eq!(view.dec_sort_column(), 2);
    // with no other sortable column the index is unchanged
    view.columns[1].sortable = false;
    view.columns[2].sortable = false;
    assert_eq!(view.inc_sort_column(), 0);
}

#[test]
fn adjust_negotiates_widths_over_visible_pids_only() {
    let config = base_config();
    let opt = base_opt();
    let mut view = pid_view(&opt, &[1, 2], Vec::new(), 50);
    view.columns[0].cells = vec![(1, "a".to_string()), (2, "longvalue".to_string())];
    view.visible_pids = vec![1];
    view.adjust(&config, &Vec::new());
    // header "pid" is 3 wide; the hidden long cell must not distort it
    assert_eq!(view.columns[0].width, 3);
    view.visible_pids = vec![1, 2];
    view.adjust(&config, &Vec::new());
    assert_eq!(view.columns[0].width, 9);
    view.columns[0].max_width = Some(6);
    view.adjust(&config, &Vec::new());
    assert_eq!(view.columns[0].width, 6);
    view.columns[0].max_width = None;
    view.adjust(&config, &vec![(0usize, 12usize)]);
    assert_eq!(view.columns[0].width, 12);
}

#[test]
fn display_builds_painted_rows() {
    let config = base_config();
    let opt = base_opt();
    let mut view = pid_view(&opt, &[1], Vec::new(), 50);
    view.filter(&opt, &config, -1);
    view.adjust(&config, &Vec::new());
    let (plan, rows) = view.display(&opt, &config, false);
    assert!(!plan.use_pager);
    assert_eq!(plan.color_action, ColorAction::Leave);
    assert!(!plan.truncate);
    assert_eq!(rows.len(), 3);
    // header: BrightBlue is palette index 12; width 3, left aligned
    assert_eq!(rows[0], " \u{1b}[38;5;12mpid\u{1b}[0m");
    // unit row: empty unit padded to width 3, White is index 7
    assert_eq!(rows[1], " \u{1b}[38;5;7m   \u{1b}[0m");
    // content: Cyan is index 6; cell "1" padded to "1  "
    assert_eq!(rows[2], " \u{1b}[38;5;6m1  \u{1b}[0m");
}

#[test]
fn display_truncates_when_piped_and_cut_to_pipe() {
    let mut config = base_config();
    config.display.cut_to_pipe = true;
    let opt = base_opt();
    let mut view = pid_view(&opt, &[1], Vec::new(), 50);
    view.filter(&opt, &config, -1);
    view.adjust(&config, &Vec::new());
    view.term_width = 5;
    let (plan, rows) = view.display(&opt, &config, false);
    assert!(plan.truncate);
    assert_eq!(rows[0], " \u{1b}[38");
}

#[test]
fn pager_command_selection() {
    let mut config = base_config();
    config.pager.command = Some("bat -p".to_string());
    assert_eq!(View::pager(&config, true), "bat -p");
    config.pager.command = None;
    assert_eq!(View::pager(&config, true), "less -SR");
    assert_eq!(View::pager(&config, false), "more -f");
}

#[test]
fn pager_mode_auto_depends_on_height() {
    let mut config = base_config();
    config.pager.mode = ConfigPagerMode::Auto;
    let opt = base_opt();
    // 3 visible pids + 3 reserved lines = 6; height 5 pages, height 10 does not
    let mut view = pid_view(&opt, &[1, 2, 3], Vec::new(), 5);
    view.filter(&opt, &config, -1);
    let (plan, _) = view.display(&opt, &config, true);
    assert!(plan.use_pager);
    let mut view = pid_view(&opt, &[1, 2, 3], Vec::new(), 10);
    view.filter(&opt, &config, -1);
    let (plan, _) = view.display(&opt, &config, true);
    assert!(!plan.use_pager);
}

#[test]
fn smart_case_controls_sensitivity() {
    let columns = vec![mk_col("name", true, false, vec![(1, "Apple")], vec![1])];
    let mut config = base_config();
    config.search.smart_case = true;
    // a lowercase keyword matches case-insensitively
    let kw = vec!["apple".to_string()];
    let none: Vec<String> = Vec::new();
    assert!(View::search(1, &none, &kw, &columns, &config, ConfigSearchLogic::Or));
    // an uppercase letter in the keyword makes the match exact about case
    let kw = vec!["APPLE".to_string()];
    assert!(!View::search(1, &none, &kw, &columns, &config, ConfigSearchLogic::Or));
    // smart case off: case-sensitive
    config.search.smart_case = false;
    let kw = vec!["apple".to_string()];
    assert!(!View::search(1, &none, &kw, &columns, &config, ConfigSearchLogic::Or));
}

#[test]
fn new_resolves_slots_and_skips_unavailable() {
    let mut config = base_config();
    config.columns = vec![
        ConfigColumn {
            kind: ConfigColumnKind::Named("pid".to_string()),
            header: Some("Proc".to_string()),
            style: ConfigColumnStyle::Fixed(vp(ConfigColor::Cyan, ConfigColor::Cyan)),
            nonnumeric_search: false,
            numeric_search: true,
            align: ConfigColumnAlign::Right,
            max_width: None,
            min_width: None,
        },
        ConfigColumn {
            kind: ConfigColumnKind::Slot,
            header: None,
            style: ConfigColumnStyle::Fixed(vp(ConfigColor::Red, ConfigColor::Red)),
            nonnumeric_search: true,
            numeric_search: false,
            align: ConfigColumnAlign::Left,
            max_width: None,
            min_width: None,
        },
        ConfigColumn {
            kind: ConfigColumnKind::Named("gone".to_string()),
            header: None,
            style: ConfigColumnStyle::Fixed(vp(ConfigColor::Red, ConfigColor::Red)),
            nonnumeric_search: false,
            numeric_search: false,
            align: ConfigColumnAlign::Left,
            max_width: None,
            min_width: None,
        },
    ];
    let mut gone = pid_source("gone", &[1]);
    gone.available = false;
    let catalog = vec![
        pid_source("pid", &[1]),
        pid_source("UserName", &[1]),
        gone,
    ];
    let mut opt = base_opt();
    // the slot resolves its inserted name case-insensitively by containment
    opt.insert = vec!["user".to_string()];
    let view = View::new(&opt, &config, &catalog, Vec::new(), 100, 50);
    assert_eq!(view.columns.len(), 2);
    assert_eq!(view.columns[0].kind_name, "pid");
    // the configured header overrides the catalog's
    assert_eq!(view.columns[0].header, "Proc");
    assert_eq!(view.columns[1].kind_name, "UserName");
}

#[test]
fn new_puts_tree_column_first() {
    let mut config = base_config();
    config.columns = vec![ConfigColumn {
        kind: ConfigColumnKind::Named("pid".to_string()),
        header: None,
        style: ConfigColumnStyle::Fixed(vp(ConfigColor::Cyan, ConfigColor::Cyan)),
        nonnumeric_search: false,
        numeric_search: true,
        align: ConfigColumnAlign::Left,
        max_width: None,
        min_width: None,
    }];
    let catalog = vec![pid_source("pid", &[1]), pid_source("tree", &[1])];
    let mut opt = base_opt();
    opt.tree = true;
    let view = View::new(&opt, &config, &catalog, Vec::new(), 100, 50);
    assert_eq!(view.columns.len(), 2);
    assert_eq!(view.columns[0].kind_name, "tree");
    // the tree column never takes part in the search
    assert!(!view.columns[0].nonnumeric_search);
    assert!(!view.columns[0].numeric_search);
    // and tree mode sorts by it
    assert_eq!(view.sort_info.idx, 0);
}

#[test]
fn descending_order_reverses_base_ordering() {
    let mut opt = base_opt();
    opt.sortd = Some("pid".to_string());
    let config = base_config();
    let mut view = pid_view(&opt, &[1, 2, 3], Vec::new(), 50);
    assert_eq!(view.sort_info.order, ConfigSortOrder::Descending);
    view.filter(&opt, &config, -1);
    assert_eq!(view.visible_pids, vec![3, 2, 1]);
}

#[test]
fn alignment_pads_cells_on_the_proper_side() {
    let config = base_config();
    let opt = base_opt();
    let mut view = pid_view(&opt, &[7], Vec::new(), 50);
    view.filter(&opt, &config, -1);
    view.columns[0].min_width = Some(5);
    view.adjust(&config, &Vec::new());
    assert_eq!(view.columns[0].width, 5);
    view.columns[0].align = ConfigColumnAlign::Right;
    let (_, rows) = view.display(&opt, &config, false);
    assert_eq!(rows[2], " \u{1b}[38;5;6m    7\u{1b}[0m");
    view.columns[0].align = ConfigColumnAlign::Center;
    let (_, rows) = view.display(&opt, &config, false);
    assert_eq!(rows[2], " \u{1b}[38;5;6m  7  \u{1b}[0m");
}

#[test]
fn explicit_pager_and_color_overrides_win() {
    let config = base_config();
    let opt0 = base_opt();
    let mut view = pid_view(&opt0, &[1], Vec::new(), 50);
    view.filter(&opt0, &config, -1);
    // configured mode is Disable, but the override forces the pager on
    let mut opt = base_opt();
    opt.pager = Some("always".to_string());
    opt.color = Some("disable".to_string());
    let (plan, _) = view.display(&opt, &config, true);
    assert!(plan.use_pager);
    assert_eq!(plan.color_action, ColorAction::Disable);
    // an unrecognized override string disables the pager and leaves colors
    let mut opt = base_opt();
    opt.pager = Some("sometimes".to_string());
    opt.color = Some("sometimes".to_string());
    let (plan, _) = view.display(&opt, &config, true);
    assert!(!plan.use_pager);
    assert_eq!(plan.color_action, ColorAction::Leave);
    // watch mode forces the pager off even against an override
    let mut opt = base_opt();
    opt.watch_mode = true;
    opt.pager = Some("always".to_string());
    let (plan, _) = view.display(&opt, &config, true);
    assert!(!plan.use_pager);
}
