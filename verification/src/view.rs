use vstd::prelude::*;
use vstd::view::View as _;

use crate::config::{
    Config, ConfigColumn, ConfigColumnAlign, ConfigColumnKind, ConfigColumnStyle,
    ConfigSearchKind, ConfigSearchLogic, ConfigSortOrder, Opt,
};
use crate::util::{
    contains_i32, fold_case, has_substring, has_upper, has_uppercase, contains_substring,
    is_numeric_keyword, lower_seq, reversed_i32, str_eq,
};

verus! {

broadcast use vstd::seq_lib::seq_to_set_is_finite;

/// The active sort column and direction.
pub struct SortInfo {
    pub idx: usize,
    pub order: ConfigSortOrder,
}

/// One column held by the view: its configuration, its ingested per-pid cell
/// text, its own ascending pid ordering, and its negotiated width.
pub struct ColumnInfo {
    pub kind_name: String,
    pub style: ConfigColumnStyle,
    pub nonnumeric_search: bool,
    pub numeric_search: bool,
    pub align: ConfigColumnAlign,
    pub max_width: Option<usize>,
    pub min_width: Option<usize>,
    pub sortable: bool,
    pub header: String,
    pub unit: String,
    pub cells: Vec<(i32, String)>,
    pub sorted_asc: Vec<i32>,
    pub width: usize,
}

/// One available column kind as the collector ingested it: its display name,
/// availability, formatted per-pid cells, and its own ascending pid order.
pub struct ColumnSource {
    pub kind_name: String,
    pub available: bool,
    pub sortable: bool,
    pub header: String,
    pub unit: String,
    pub cells: Vec<(i32, String)>,
    pub sorted_asc: Vec<i32>,
}

/// The view bound to one process snapshot.
pub struct View {
    pub columns: Vec<ColumnInfo>,
    pub term_width: usize,
    pub term_height: usize,
    pub sort_info: SortInfo,
    pub visible_pids: Vec<i32>,
    pub auxiliary_pids: Vec<i32>,
    pub ppids: Vec<(i32, i32)>,
}

/// The cell text a column holds for a pid: the first entry with that pid.
pub open spec fn cell_lookup(cells: Seq<(i32, String)>, pid: i32) -> Option<Seq<char>>
    decreases cells.len(),
{
    if cells.len() == 0 {
        None
    } else if cells[0].0 == pid {
        Some(cells[0].1@)
    } else {
        cell_lookup(cells.drop_first(), pid)
    }
}

/// Linear scan for a pid's cell.
pub fn get_cell<'a>(cells: &'a Vec<(i32, String)>, pid: i32) -> (r: Option<&'a String>)
    ensures
        match r {
            Some(s) => cell_lookup(cells@, pid) == Some(s@),
            None => cell_lookup(cells@, pid) is None,
        },
{
    let mut i: usize = 0;
    proof {
        assert(cells@.skip(0) =~= cells@);
    }
    while i < cells.len()
        invariant
            0 <= i <= cells@.len(),
            cell_lookup(cells@.skip(i as int), pid) == cell_lookup(cells@, pid),
            forall|k: int| 0 <= k < i ==> cells@[k].0 != pid,
        decreases cells@.len() - i,
    {
        proof {
            assert(cells@.skip(i as int)[0] == cells@[i as int]);
            assert(cells@.skip(i as int).drop_first() =~= cells@.skip(i + 1));
        }
        if cells[i].0 == pid {
            return Some(&cells[i].1);
        }
        i = i + 1;
    }
    proof {
        assert(cells@.skip(i as int) =~= Seq::<(i32, String)>::empty());
    }
    None
}

/// The parent recorded for a pid, if any: the first entry with that pid.
pub open spec fn ppid_lookup(m: Seq<(i32, i32)>, pid: i32) -> Option<i32>
    decreases m.len(),
{
    if m.len() == 0 {
        None
    } else if m[0].0 == pid {
        Some(m[0].1)
    } else {
        ppid_lookup(m.drop_first(), pid)
    }
}

fn get_ppid(m: &Vec<(i32, i32)>, pid: i32) -> (r: Option<i32>)
    ensures
        r == ppid_lookup(m@, pid),
{
    let mut i: usize = 0;
    proof {
        assert(m@.skip(0) =~= m@);
    }
    while i < m.len()
        invariant
            0 <= i <= m@.len(),
            ppid_lookup(m@.skip(i as int), pid) == ppid_lookup(m@, pid),
            forall|k: int| 0 <= k < i ==> m@[k].0 != pid,
        decreases m@.len() - i,
    {
        proof {
            assert(m@.skip(i as int)[0] == m@[i as int]);
            assert(m@.skip(i as int).drop_first() =~= m@.skip(i + 1));
        }
        if m[i].0 == pid {
            return Some(m[i].1);
        }
        i = i + 1;
    }
    proof {
        assert(m@.skip(i as int) =~= Seq::<(i32, i32)>::empty());
    }
    None
}

/// The pids that have an entry in the parent map.
pub open spec fn parent_keys(m: Seq<(i32, i32)>) -> Set<i32> {
    m.map_values(|e: (i32, i32)| e.0).to_set()
}

proof fn lemma_parent_keys_finite(m: Seq<(i32, i32)>)
    ensures
        parent_keys(m).finite(),
{
}

proof fn lemma_lookup_in_keys(m: Seq<(i32, i32)>, x: i32)
    requires
        ppid_lookup(m, x) is Some,
    ensures
        parent_keys(m).contains(x),
    decreases m.len(),
{
    let names = m.map_values(|e: (i32, i32)| e.0);
    if m.len() > 0 && m[0].0 == x {
        assert(names[0] == x);
        assert(names.contains(x));
    } else {
        lemma_lookup_in_keys(m.drop_first(), x);
        let dnames = m.drop_first().map_values(|e: (i32, i32)| e.0);
        assert(parent_keys(m.drop_first()).contains(x));
        let i = choose|i: int| 0 <= i < dnames.len() && dnames[i] == x;
        assert(names[i + 1] == x);
        assert(names.contains(x));
    }
}

/// The strict ancestors walked from `cur`: follow the parent map, stop when a
/// pid has no entry or the next pid was already seen. The guard makes the
/// walk terminate even on a cyclic or self-referential map.
pub open spec fn ancestor_chain(m: Seq<(i32, i32)>, cur: i32, seen: Set<i32>) -> Seq<i32>
    decreases
            parent_keys(m).difference(seen).len(),
            (if ppid_lookup(m, cur) is Some {
                1int
            } else {
                0int
            }),
    when seen.finite()
    via ancestor_chain_dec
{
    match ppid_lookup(m, cur) {
        None => Seq::empty(),
        Some(p) => {
            if seen.contains(p) {
                Seq::empty()
            } else {
                seq![p] + ancestor_chain(m, p, seen.insert(p))
            }
        },
    }
}

#[via_fn]
proof fn ancestor_chain_dec(m: Seq<(i32, i32)>, cur: i32, seen: Set<i32>) {
    lemma_parent_keys_finite(m);
    match ppid_lookup(m, cur) {
        None => {},
        Some(p) => {
            if !seen.contains(p) {
                if parent_keys(m).contains(p) {
                    assert(parent_keys(m).difference(seen.insert(p)) =~= parent_keys(
                        m,
                    ).difference(seen).remove(p));
                    assert(parent_keys(m).difference(seen).contains(p));
                } else {
                    assert(parent_keys(m).difference(seen.insert(p)) =~= parent_keys(
                        m,
                    ).difference(seen));
                    if ppid_lookup(m, p) is Some {
                        lemma_lookup_in_keys(m, p);
                    }
                    assert(ppid_lookup(m, p) is None);
                }
            }
        },
    }
}

/// The chain of strict ancestors of a pid, oldest last.
pub open spec fn chain_from(m: Seq<(i32, i32)>, pid: i32) -> Seq<i32> {
    ancestor_chain(m, pid, Set::empty().insert(pid))
}

impl View {
    /// The view is well formed: the sort index points at a column.
    pub open spec fn wf(self) -> bool {
        self.sort_info.idx < self.columns.len()
    }

    /// Walks the parent map from `pid` and collects every strict ancestor,
    /// nearest first, guarding against cycles.
    pub fn get_ppids(&self, pid: i32) -> (r: Vec<i32>)
        ensures
            r@ == chain_from(self.ppids@, pid),
    {
        let ghost m = self.ppids@;
        let mut out: Vec<i32> = Vec::new();
        let mut cur: i32 = pid;
        let ghost seen = Set::empty().insert(pid);
        proof {
            lemma_parent_keys_finite(m);
        }
        loop
            invariant
                m == self.ppids@,
                seen.finite(),
                seen =~= out@.to_set().insert(pid),
                chain_from(m, pid) == out@ + ancestor_chain(m, cur, seen),
            decreases
                    parent_keys(m).difference(seen).len(),
                    (if ppid_lookup(m, cur) is Some {
                        1int
                    } else {
                        0int
                    }),
        {
            proof {
                lemma_parent_keys_finite(m);
            }
            match get_ppid(&self.ppids, cur) {
                None => {
                    proof {
                        assert(ancestor_chain(m, cur, seen) =~= Seq::<i32>::empty());
                        assert(chain_from(m, pid) =~= out@);
                    }
                    return out;
                },
                Some(p) => {
                    let in_seen = if p == pid {
                        true
                    } else {
                        contains_i32(&out, p)
                    };
                    proof {
                        assert(in_seen == seen.contains(p));
                    }
                    if in_seen {
                        proof {
                            assert(ancestor_chain(m, cur, seen) =~= Seq::<i32>::empty());
                            assert(chain_from(m, pid) =~= out@);
                        }
                        return out;
                    }
                    proof {
                        assert(ancestor_chain(m, cur, seen) == seq![p] + ancestor_chain(
                            m,
                            p,
                            seen.insert(p),
                        ));
                        if parent_keys(m).contains(p) {
                            assert(parent_keys(m).difference(seen.insert(p)) =~= parent_keys(
                                m,
                            ).difference(seen).remove(p));
                            assert(parent_keys(m).difference(seen).contains(p));
                        } else {
                            assert(parent_keys(m).difference(seen.insert(p)) =~= parent_keys(
                                m,
                            ).difference(seen));
                            if ppid_lookup(m, p) is Some {
                                lemma_lookup_in_keys(m, p);
                            }
                            assert(ppid_lookup(m, p) is None);
                        }
                    }
                    let ghost old_out = out@;
                    out.push(p);
                    cur = p;
                    proof {
                        seen = seen.insert(p);
                        assert forall|q: i32| out@.contains(q) implies (old_out.contains(q) || q
                            == p) by {
                            let w = choose|w: int| 0 <= w < out@.len() && out@[w] == q;
                            if w < old_out.len() {
                                assert(old_out[w] == q);
                            }
                        }
                        assert forall|q: i32| old_out.contains(q) implies out@.contains(q) by {
                            let w = choose|w: int| 0 <= w < old_out.len() && old_out[w] == q;
                            assert(out@[w] == q);
                        }
                        assert(out@.contains(p)) by {
                            assert(out@[out@.len() - 1] == p);
                        }
                        assert(seen =~= out@.to_set().insert(pid));
                        assert(chain_from(m, pid) =~= out@ + ancestor_chain(m, cur, seen));
                    }
                },
            }
        }
    }
}


/// A column kind's display name matches a request when it contains the
/// requested text, case-insensitively.
pub open spec fn name_matches(name: Seq<char>, q: Seq<char>) -> bool {
    has_substring(lower_seq(name), lower_seq(q))
}

pub open spec fn col_names(cols: Seq<ColumnInfo>) -> Seq<Seq<char>> {
    cols.map_values(|c: ColumnInfo| c.kind_name@)
}

/// The first index at or after `i` whose name matches the request.
pub open spec fn first_name_match(names: Seq<Seq<char>>, q: Seq<char>, i: int) -> Option<int>
    decreases names.len() - i,
{
    if i < 0 || i >= names.len() {
        None
    } else if name_matches(names[i], q) {
        Some(i)
    } else {
        first_name_match(names, q, i + 1)
    }
}

/// The sort request before tree forcing: a sort-by-name override scans the
/// columns for the first matching kind name; an unmatched or absent request
/// falls back to the configured default column and order.
pub open spec fn spec_sort_resolution(opt: Opt, config: Config, names: Seq<Seq<char>>) -> (
    int,
    ConfigSortOrder,
) {
    let q = if opt.sorta is Some {
        Some((opt.sorta->0@, ConfigSortOrder::Ascending))
    } else if opt.sortd is Some {
        Some((opt.sortd->0@, ConfigSortOrder::Descending))
    } else {
        None
    };
    match q {
        Some(qq) => match first_name_match(names, qq.0, 0) {
            Some(i) => (i, qq.1),
            None => (config.sort.column as int, config.sort.order),
        },
        None => (config.sort.column as int, config.sort.order),
    }
}

/// The final sort choice: tree mode unconditionally forces index 0.
pub open spec fn spec_sort_info(opt: Opt, config: Config, names: Seq<Seq<char>>) -> (
    int,
    ConfigSortOrder,
) {
    let base = spec_sort_resolution(opt, config, names);
    if opt.tree {
        (0, base.1)
    } else {
        base
    }
}

/// An unmatched sort-by-name request leaves the configured default column
/// and order unchanged.
pub proof fn lemma_unmatched_sort_name_keeps_default(
    opt: Opt,
    config: Config,
    names: Seq<Seq<char>>,
)
    requires
        !opt.tree,
        opt.sorta is Some,
        forall|i: int| 0 <= i < names.len() ==> !name_matches(#[trigger] names[i], opt.sorta->0@),
    ensures
        spec_sort_info(opt, config, names) == (config.sort.column as int, config.sort.order),
{
    lemma_no_name_match(names, opt.sorta->0@, 0);
}

proof fn lemma_no_name_match(names: Seq<Seq<char>>, q: Seq<char>, i: int)
    requires
        forall|k: int| 0 <= k < names.len() ==> !name_matches(#[trigger] names[k], q),
    ensures
        first_name_match(names, q, i) is None,
    decreases names.len() - i,
{
    if 0 <= i < names.len() {
        lemma_no_name_match(names, q, i + 1);
    }
}

fn find_name_match(cols: &Vec<ColumnInfo>, q: &String) -> (r: Option<usize>)
    ensures
        match r {
            Some(i) => first_name_match(col_names(cols@), q@, 0) == Some(i as int) && i
                < cols@.len(),
            None => first_name_match(col_names(cols@), q@, 0) is None,
        },
{
    let mut i: usize = 0;
    while i < cols.len()
        invariant
            0 <= i <= cols@.len(),
            first_name_match(col_names(cols@), q@, 0) == first_name_match(
                col_names(cols@),
                q@,
                i as int,
            ),
        decreases cols@.len() - i,
    {
        if contains_substring(cols[i].kind_name.as_str(), q.as_str(), true) {
            proof {
                assert(name_matches(col_names(cols@)[i as int], q@));
            }
            return Some(i);
        }
        proof {
            assert(!name_matches(col_names(cols@)[i as int], q@));
        }
        i = i + 1;
    }
    None
}

/// The boolean combinator applied to the per-class results.
pub open spec fn combine_logic(logic: ConfigSearchLogic, a: bool, b: bool) -> bool {
    match logic {
        ConfigSearchLogic::And => a && b,
        ConfigSearchLogic::Or => a || b,
        ConfigSearchLogic::Nand => !(a && b),
        ConfigSearchLogic::Nor => !(a || b),
    }
}

/// The full truth table of the four combinators over both inputs.
pub proof fn lemma_logic_truth_table()
    ensures
        combine_logic(ConfigSearchLogic::And, true, true) == true,
        combine_logic(ConfigSearchLogic::And, true, false) == false,
        combine_logic(ConfigSearchLogic::And, false, true) == false,
        combine_logic(ConfigSearchLogic::And, false, false) == false,
        combine_logic(ConfigSearchLogic::Or, true, true) == true,
        combine_logic(ConfigSearchLogic::Or, true, false) == true,
        combine_logic(ConfigSearchLogic::Or, false, true) == true,
        combine_logic(ConfigSearchLogic::Or, false, false) == false,
        combine_logic(ConfigSearchLogic::Nand, true, true) == false,
        combine_logic(ConfigSearchLogic::Nand, true, false) == true,
        combine_logic(ConfigSearchLogic::Nand, false, true) == true,
        combine_logic(ConfigSearchLogic::Nand, false, false) == true,
        combine_logic(ConfigSearchLogic::Nor, true, true) == false,
        combine_logic(ConfigSearchLogic::Nor, true, false) == false,
        combine_logic(ConfigSearchLogic::Nor, false, true) == false,
        combine_logic(ConfigSearchLogic::Nor, false, false) == true,
{
}

/// Whether a column takes part in the search for the given keyword class.
pub open spec fn eligible(c: ColumnInfo, nonnumeric: bool) -> bool {
    if nonnumeric {
        c.nonnumeric_search
    } else {
        c.numeric_search
    }
}

/// Whether one keyword matches one column's cell for a pid. Partial matching
/// is substring search, case-insensitive when smart case is on and the
/// keyword has no uppercase letter; exact matching is cell equality.
pub open spec fn keyword_col_match(
    c: ColumnInfo,
    pid: i32,
    kw: Seq<char>,
    kind: ConfigSearchKind,
    smart: bool,
) -> bool {
    match kind {
        ConfigSearchKind::Partial => {
            let ins = smart && !has_upper(kw);
            match cell_lookup(c.cells@, pid) {
                Some(t) => has_substring(fold_case(t, ins), fold_case(kw, ins)),
                None => false,
            }
        },
        ConfigSearchKind::Exact => cell_lookup(c.cells@, pid) == Some(kw),
    }
}

/// Whether a keyword matches any eligible column for the pid.
pub open spec fn any_col_match(
    cols: Seq<ColumnInfo>,
    pid: i32,
    kw: Seq<char>,
    nonnumeric: bool,
    kind: ConfigSearchKind,
    smart: bool,
) -> bool {
    exists|i: int|
        0 <= i < cols.len() && eligible(#[trigger] cols[i], nonnumeric) && keyword_col_match(
            cols[i],
            pid,
            kw,
            kind,
            smart,
        )
}

/// The per-class search result over all keywords of the class: under And and
/// Nand every keyword must match some eligible column, under Or and Nor one
/// match suffices.
pub open spec fn find_keywords_spec(
    cols: Seq<ColumnInfo>,
    pid: i32,
    kws: Seq<Seq<char>>,
    nonnumeric: bool,
    kind: ConfigSearchKind,
    smart: bool,
    logic: ConfigSearchLogic,
) -> bool {
    match logic {
        ConfigSearchLogic::And | ConfigSearchLogic::Nand => forall|k: int|
            0 <= k < kws.len() ==> any_col_match(cols, pid, #[trigger] kws[k], nonnumeric, kind, smart),
        ConfigSearchLogic::Or | ConfigSearchLogic::Nor => exists|k: int|
            0 <= k < kws.len() && any_col_match(cols, pid, #[trigger] kws[k], nonnumeric, kind, smart),
    }
}

fn match_keyword_col(
    c: &ColumnInfo,
    pid: i32,
    kw: &String,
    kind: ConfigSearchKind,
    smart: bool,
) -> (r: bool)
    ensures
        r == keyword_col_match(*c, pid, kw@, kind, smart),
{
    match get_cell(&c.cells, pid) {
        None => false,
        Some(t) => {
            match kind {
                ConfigSearchKind::Partial => {
                    let ins = smart && !has_uppercase(kw.as_str());
                    contains_substring(t.as_str(), kw.as_str(), ins)
                },
                ConfigSearchKind::Exact => str_eq(t.as_str(), kw.as_str()),
            }
        },
    }
}

fn match_any_col(
    cols: &Vec<ColumnInfo>,
    pid: i32,
    kw: &String,
    nonnumeric: bool,
    kind: ConfigSearchKind,
    smart: bool,
) -> (r: bool)
    ensures
        r == any_col_match(cols@, pid, kw@, nonnumeric, kind, smart),
{
    let mut i: usize = 0;
    while i < cols.len()
        invariant
            0 <= i <= cols@.len(),
            forall|k: int|
                0 <= k < i ==> !(eligible(#[trigger] cols@[k], nonnumeric) && keyword_col_match(
                    cols@[k],
                    pid,
                    kw@,
                    kind,
                    smart,
                )),
        decreases cols@.len() - i,
    {
        let elig = if nonnumeric {
            cols[i].nonnumeric_search
        } else {
            cols[i].numeric_search
        };
        if elig && match_keyword_col(&cols[i], pid, kw, kind, smart) {
            return true;
        }
        i = i + 1;
    }
    false
}

fn find_keywords(
    cols: &Vec<ColumnInfo>,
    pid: i32,
    kws: &Vec<String>,
    nonnumeric: bool,
    kind: ConfigSearchKind,
    smart: bool,
    logic: ConfigSearchLogic,
) -> (r: bool)
    ensures
        r == find_keywords_spec(cols@, pid, kws.deep_view(), nonnumeric, kind, smart, logic),
{
    let all: bool = match logic {
        ConfigSearchLogic::And | ConfigSearchLogic::Nand => true,
        ConfigSearchLogic::Or | ConfigSearchLogic::Nor => false,
    };
    let mut k: usize = 0;
    while k < kws.len()
        invariant
            0 <= k <= kws@.len(),
            all == (logic == ConfigSearchLogic::And || logic == ConfigSearchLogic::Nand),
            all ==> forall|j: int|
                0 <= j < k ==> any_col_match(cols@, pid, #[trigger] kws.deep_view()[j], nonnumeric, kind, smart),
            !all ==> forall|j: int|
                0 <= j < k ==> !any_col_match(cols@, pid, #[trigger] kws.deep_view()[j], nonnumeric, kind, smart),
        decreases kws@.len() - k,
    {
        let m = match_any_col(cols, pid, &kws[k], nonnumeric, kind, smart);
        if all && !m {
            proof {
                assert(!any_col_match(cols@, pid, kws.deep_view()[k as int], nonnumeric, kind, smart));
            }
            return false;
        }
        if !all && m {
            proof {
                assert(any_col_match(cols@, pid, kws.deep_view()[k as int], nonnumeric, kind, smart));
            }
            return true;
        }
        k = k + 1;
    }
    all
}

/// Partial (substring) search of one keyword class across the eligible
/// columns.
pub fn find_partial(
    cols: &Vec<ColumnInfo>,
    pid: i32,
    kws: &Vec<String>,
    nonnumeric: bool,
    logic: ConfigSearchLogic,
    smart_case: bool,
) -> (r: bool)
    ensures
        r == find_keywords_spec(
            cols@,
            pid,
            kws.deep_view(),
            nonnumeric,
            ConfigSearchKind::Partial,
            smart_case,
            logic,
        ),
{
    find_keywords(cols, pid, kws, nonnumeric, ConfigSearchKind::Partial, smart_case, logic)
}

/// Exact (equality) search of one keyword class across the eligible columns.
pub fn find_exact(
    cols: &Vec<ColumnInfo>,
    pid: i32,
    kws: &Vec<String>,
    nonnumeric: bool,
    logic: ConfigSearchLogic,
) -> (r: bool)
    ensures
        r == find_keywords_spec(
            cols@,
            pid,
            kws.deep_view(),
            nonnumeric,
            ConfigSearchKind::Exact,
            false,
            logic,
        ),
{
    find_keywords(cols, pid, kws, nonnumeric, ConfigSearchKind::Exact, false, logic)
}

/// The combined search result for one pid: the non-numeric keywords are
/// matched with the configured non-numeric kind and smart case, the numeric
/// keywords with the configured numeric kind and never smart case, and the
/// two class results go through the combinator.
pub open spec fn search_spec(
    cols: Seq<ColumnInfo>,
    pid: i32,
    kw_nonnumeric: Seq<Seq<char>>,
    kw_numeric: Seq<Seq<char>>,
    config: Config,
    logic: ConfigSearchLogic,
) -> bool {
    combine_logic(
        logic,
        find_keywords_spec(
            cols,
            pid,
            kw_nonnumeric,
            true,
            config.search.nonnumeric_search,
            config.search.smart_case,
            logic,
        ),
        find_keywords_spec(cols, pid, kw_numeric, false, config.search.numeric_search, false, logic),
    )
}

impl View {
    /// Resolves the sort column: a sort-by-name override picks the first
    /// column whose kind name contains the requested text
    /// case-insensitively; otherwise the configured default applies; tree
    /// mode forces index 0.
    pub fn get_sort_info(opt: &Opt, config: &Config, cols: &Vec<ColumnInfo>) -> (r: SortInfo)
        ensures
            r.idx as int == spec_sort_info(*opt, *config, col_names(cols@)).0,
            r.order == spec_sort_info(*opt, *config, col_names(cols@)).1,
    {
        let mut idx: usize = config.sort.column;
        let mut order: ConfigSortOrder = config.sort.order;
        let query: Option<(&String, ConfigSortOrder)> = match (&opt.sorta, &opt.sortd) {
            (Some(s), _) => Some((s, ConfigSortOrder::Ascending)),
            (None, Some(s)) => Some((s, ConfigSortOrder::Descending)),
            (None, None) => None,
        };
        if let Some((q, qord)) = query {
            match find_name_match(cols, q) {
                Some(i) => {
                    idx = i;
                    order = qord;
                },
                None => {},
            }
        }
        if opt.tree {
            idx = 0;
        }
        SortInfo { idx, order }
    }

    /// The combined keyword search for one pid.
    pub fn search(
        pid: i32,
        keyword_numeric: &Vec<String>,
        keyword_nonnumeric: &Vec<String>,
        columns: &Vec<ColumnInfo>,
        config: &Config,
        logic: ConfigSearchLogic,
    ) -> (r: bool)
        ensures
            r == search_spec(columns@, pid, keyword_nonnumeric.deep_view(), keyword_numeric.deep_view(), *config, logic),
    {
        let ret_nonnumeric: bool = match config.search.nonnumeric_search {
            ConfigSearchKind::Partial => find_partial(
                columns,
                pid,
                keyword_nonnumeric,
                true,
                logic,
                config.search.smart_case,
            ),
            ConfigSearchKind::Exact => find_exact(columns, pid, keyword_nonnumeric, true, logic),
        };
        let ret_numeric: bool = match config.search.numeric_search {
            ConfigSearchKind::Partial => find_partial(columns, pid, keyword_numeric, false, logic, false),
            ConfigSearchKind::Exact => find_exact(columns, pid, keyword_numeric, false, logic),
        };
        match logic {
            ConfigSearchLogic::And => ret_nonnumeric && ret_numeric,
            ConfigSearchLogic::Or => ret_nonnumeric || ret_numeric,
            ConfigSearchLogic::Nand => !(ret_nonnumeric && ret_numeric),
            ConfigSearchLogic::Nor => !(ret_nonnumeric || ret_numeric),
        }
    }
}

/// The first sortable index scanning forward from offset `j` past the
/// current one; the current index when none is sortable.
pub open spec fn first_sortable_fwd(cols: Seq<ColumnInfo>, cur: int, j: int) -> int
    decreases cols.len() - j,
{
    if j < 1 || j >= cols.len() {
        cur
    } else if cols[(cur + j) % (cols.len() as int)].sortable {
        (cur + j) % (cols.len() as int)
    } else {
        first_sortable_fwd(cols, cur, j + 1)
    }
}

/// The first sortable index scanning backward, cyclically.
pub open spec fn first_sortable_bwd(cols: Seq<ColumnInfo>, cur: int, j: int) -> int
    decreases cols.len() - j,
{
    if j < 1 || j >= cols.len() {
        cur
    } else if cols[(cur + cols.len() - j) % (cols.len() as int)].sortable {
        (cur + cols.len() - j) % (cols.len() as int)
    } else {
        first_sortable_bwd(cols, cur, j + 1)
    }
}

impl View {
    /// The next sortable column index after the current one, scanning
    /// forward cyclically; the current index when no other column sorts.
    pub fn inc_sort_column(&mut self) -> (r: usize)
        requires
            old(self).wf(),
        ensures
            *final(self) == *old(self),
            r as int == first_sortable_fwd(
                old(self).columns@,
                old(self).sort_info.idx as int,
                1,
            ),
    {
        let current: usize = self.sort_info.idx;
        let max_idx: usize = self.columns.len();
        let mut i: usize = 1;
        while i < max_idx
            invariant
                1 <= i <= max_idx,
                current < max_idx,
                current == self.sort_info.idx,
                max_idx == self.columns@.len(),
                self == old(self),
                first_sortable_fwd(self.columns@, current as int, 1) == first_sortable_fwd(
                    self.columns@,
                    current as int,
                    i as int,
                ),
            decreases max_idx - i,
        {
            let idx: usize = if i < max_idx - current {
                current + i
            } else {
                i - (max_idx - current)
            };
            proof {
                assert(idx as int == (current + i) % (max_idx as int)) by (nonlinear_arith)
                    requires
                        0 <= current < max_idx,
                        1 <= i < max_idx,
                        idx == if i < max_idx - current {
                            current + i
                        } else {
                            i - (max_idx - current)
                        },
                ;
            }
            if self.columns[idx].sortable {
                return idx;
            }
            i = i + 1;
        }
        current
    }

    /// The nearest sortable column index before the current one, scanning
    /// backward cyclically; the current index when no other column sorts.
    pub fn dec_sort_column(&mut self) -> (r: usize)
        requires
            old(self).wf(),
        ensures
            *final(self) == *old(self),
            r as int == first_sortable_bwd(
                old(self).columns@,
                old(self).sort_info.idx as int,
                1,
            ),
    {
        let current: usize = self.sort_info.idx;
        let max_idx: usize = self.columns.len();
        let mut i: usize = 1;
        while i < max_idx
            invariant
                1 <= i <= max_idx,
                current < max_idx,
                current == self.sort_info.idx,
                max_idx == self.columns@.len(),
                self == old(self),
                first_sortable_bwd(self.columns@, current as int, 1) == first_sortable_bwd(
                    self.columns@,
                    current as int,
                    i as int,
                ),
            decreases max_idx - i,
        {
            let idx: usize = if i <= current {
                current - i
            } else {
                current + (max_idx - i)
            };
            proof {
                assert(idx as int == (current + max_idx - i) % (max_idx as int))
                    by (nonlinear_arith)
                    requires
                        0 <= current < max_idx,
                        1 <= i < max_idx,
                        idx == if i <= current {
                            current - i
                        } else {
                            current + (max_idx - i)
                        },
                ;
            }
            if self.columns[idx].sortable {
                return idx;
            }
            i = i + 1;
        }
        current
    }
}


/// Copy of a pid vector.
fn clone_vec_i32(v: &Vec<i32>) -> (r: Vec<i32>)
    ensures
        r@ == v@,
{
    let mut r: Vec<i32> = Vec::new();
    let mut i: usize = 0;
    while i < v.len()
        invariant
            0 <= i <= v@.len(),
            r@ == v@.subrange(0, i as int),
        decreases v@.len() - i,
    {
        r.push(v[i]);
        proof {
            assert(r@ =~= v@.subrange(0, i + 1));
        }
        i = i + 1;
    }
    proof {
        assert(r@ =~= v@);
    }
    r
}

proof fn lemma_filter_push<A>(s: Seq<A>, p: spec_fn(A) -> bool, x: A)
    ensures
        p(x) ==> s.push(x).filter(p) == s.filter(p).push(x),
        !p(x) ==> s.push(x).filter(p) == s.filter(p),
{
    reveal(Seq::filter);
    assert(s.push(x).drop_last() =~= s);
    assert(s.push(x).last() == x);
}

proof fn lemma_filter_congruent<A>(s: Seq<A>, p: spec_fn(A) -> bool, q: spec_fn(A) -> bool)
    requires
        forall|x: A| #[trigger] p(x) == q(x),
    ensures
        s.filter(p) == s.filter(q),
    decreases s.len(),
{
    reveal(Seq::filter);
    if s.len() > 0 {
        lemma_filter_congruent(s.drop_last(), p, q);
        assert(p(s.last()) == q(s.last()));
    }
}

/// The keywords of one class, in their given order: the numeric keywords
/// when `want_numeric`, the rest otherwise.
pub open spec fn keywords_of_class(kws: Seq<Seq<char>>, want_numeric: bool) -> Seq<Seq<char>> {
    kws.filter(|k: Seq<char>| is_numeric_keyword(k) == want_numeric)
}

/// The search combinator in effect: an explicit runtime flag wins over the
/// configured default.
pub open spec fn chosen_logic(opt: Opt, config: Config) -> ConfigSearchLogic {
    if opt.and {
        ConfigSearchLogic::And
    } else if opt.or {
        ConfigSearchLogic::Or
    } else if opt.nand {
        ConfigSearchLogic::Nand
    } else if opt.nor {
        ConfigSearchLogic::Nor
    } else {
        config.search.logic
    }
}

/// The auxiliary pids of a candidate set: every pid on some candidate's
/// ancestor chain that is not itself a candidate.
pub open spec fn aux_closure_set(m: Seq<(i32, i32)>, cs: Set<i32>) -> Set<i32> {
    Set::new(
        |p: i32| !cs.contains(p) && exists|c: i32| cs.contains(c) && chain_from(m, c).contains(p),
    )
}

impl View {
    /// The full pid ordering taken from the active sort column.
    pub open spec fn spec_base_order(self) -> Seq<i32> {
        if self.sort_info.order == ConfigSortOrder::Ascending {
            self.columns@[self.sort_info.idx as int].sorted_asc@
        } else {
            self.columns@[self.sort_info.idx as int].sorted_asc@.reverse()
        }
    }

    /// A pid is a candidate when it is not the hidden self pid and either no
    /// keywords were given or the combined search matches it.
    pub open spec fn spec_is_candidate(self, opt: Opt, config: Config, self_pid: i32, pid: i32) -> bool {
        &&& (config.display.show_self || pid != self_pid)
        &&& (opt.keyword.deep_view().len() == 0 || search_spec(
            self.columns@,
            pid,
            keywords_of_class(opt.keyword.deep_view(), false),
            keywords_of_class(opt.keyword.deep_view(), true),
            config,
            chosen_logic(opt, config),
        ))
    }

    /// The candidate pids in base order.
    pub open spec fn spec_candidates(self, opt: Opt, config: Config, self_pid: i32) -> Seq<i32> {
        self.spec_base_order().filter(
            |p: i32| self.spec_is_candidate(opt, config, self_pid, p),
        )
    }

    /// The auxiliary set: ancestors of candidates shown only for tree
    /// context; empty outside tree mode.
    pub open spec fn spec_aux_set(self, opt: Opt, config: Config, self_pid: i32) -> Set<i32> {
        aux_closure_set(
            self.ppids@,
            self.spec_candidates(opt, config, self_pid).to_set(),
        )
    }

    /// A pid is shown when it is a candidate, or in tree mode an auxiliary
    /// ancestor of one.
    pub open spec fn spec_selected(self, opt: Opt, config: Config, self_pid: i32, pid: i32) -> bool {
        self.spec_is_candidate(opt, config, self_pid, pid) || (opt.tree
            && self.spec_aux_set(opt, config, self_pid).contains(pid))
    }

    /// Watch mode reserves five terminal rows; fewer than five rows leave no
    /// room for content.
    pub open spec fn spec_height_limit(self) -> int {
        if self.term_height >= 5 {
            self.term_height - 5
        } else {
            0
        }
    }

    /// The visible pids: the base ordering filtered to the shown pids; watch
    /// mode stops once the height limit is reached.
    pub open spec fn spec_visible(self, opt: Opt, config: Config, self_pid: i32) -> Seq<i32> {
        let f = self.spec_base_order().filter(
            |p: i32| self.spec_selected(opt, config, self_pid, p),
        );
        if opt.watch_mode {
            if f.len() <= self.spec_height_limit() {
                f
            } else {
                f.take(self.spec_height_limit())
            }
        } else {
            f
        }
    }

    /// Filters the snapshot: classifies the keywords, matches every pid of
    /// the base ordering, closes over ancestors in tree mode, and truncates
    /// in watch mode.
    pub fn filter(&mut self, opt: &Opt, config: &Config, self_pid: i32)
        requires
            old(self).wf(),
        ensures
            final(self).columns == old(self).columns,
            final(self).sort_info == old(self).sort_info,
            final(self).ppids == old(self).ppids,
            final(self).term_width == old(self).term_width,
            final(self).term_height == old(self).term_height,
            final(self).wf(),
            final(self).visible_pids@ == old(self).spec_visible(*opt, *config, self_pid),
            final(self).auxiliary_pids@.no_duplicates(),
            forall|p: i32| #![trigger final(self).auxiliary_pids@.contains(p)]
                final(self).auxiliary_pids@.contains(p) <==> (opt.tree && old(self).spec_aux_set(
                    *opt,
                    *config,
                    self_pid,
                ).contains(p)),
    {
        let ghost gopt = *opt;
        let ghost gconfig = *config;
        let mut keyword_nonnumeric: Vec<String> = Vec::new();
        let mut keyword_numeric: Vec<String> = Vec::new();
        let mut ki: usize = 0;
        while ki < opt.keyword.len()
            invariant
                0 <= ki <= opt.keyword@.len(),
                keyword_numeric.deep_view() == keywords_of_class(
                    opt.keyword.deep_view().subrange(0, ki as int),
                    true,
                ),
                keyword_nonnumeric.deep_view() == keywords_of_class(
                    opt.keyword.deep_view().subrange(0, ki as int),
                    false,
                ),
            decreases opt.keyword@.len() - ki,
        {
            let ghost pre = opt.keyword.deep_view().subrange(0, ki as int);
            let k: &String = &opt.keyword[ki];
            proof {
                assert(opt.keyword.deep_view().subrange(0, ki + 1) =~= pre.push(k@));
                lemma_filter_push(pre, |q: Seq<char>| is_numeric_keyword(q) == true, k@);
                lemma_filter_push(pre, |q: Seq<char>| is_numeric_keyword(q) == false, k@);
            }
            match crate::util::classify(k.as_str()) {
                crate::util::KeywordClass::Numeric => {
                    keyword_numeric.push(k.clone());
                    proof {
                        assert(keyword_numeric.deep_view() =~= keywords_of_class(
                            opt.keyword.deep_view().subrange(0, ki + 1),
                            true,
                        ));
                        assert(keyword_nonnumeric.deep_view() =~= keywords_of_class(
                            opt.keyword.deep_view().subrange(0, ki + 1),
                            false,
                        ));
                    }
                },
                crate::util::KeywordClass::NonNumeric => {
                    keyword_nonnumeric.push(k.clone());
                    proof {
                        assert(keyword_numeric.deep_view() =~= keywords_of_class(
                            opt.keyword.deep_view().subrange(0, ki + 1),
                            true,
                        ));
                        assert(keyword_nonnumeric.deep_view() =~= keywords_of_class(
                            opt.keyword.deep_view().subrange(0, ki + 1),
                            false,
                        ));
                    }
                },
            }
            ki = ki + 1;
        }
        proof {
            assert(opt.keyword.deep_view().subrange(0, opt.keyword@.len() as int)
                =~= opt.keyword.deep_view());
        }
        let pids: Vec<i32> = match self.sort_info.order {
            ConfigSortOrder::Ascending => clone_vec_i32(&self.columns[self.sort_info.idx].sorted_asc),
            ConfigSortOrder::Descending => reversed_i32(&self.columns[self.sort_info.idx].sorted_asc),
        };
        proof {
            assert(pids@ == self.spec_base_order());
        }
        let logic: ConfigSearchLogic = if opt.and {
            ConfigSearchLogic::And
        } else if opt.or {
            ConfigSearchLogic::Or
        } else if opt.nand {
            ConfigSearchLogic::Nand
        } else if opt.nor {
            ConfigSearchLogic::Nor
        } else {
            config.search.logic
        };
        let ghost candpred = |p: i32| self.spec_is_candidate(gopt, gconfig, self_pid, p);
        let mut candidate_pids: Vec<i32> = Vec::new();
        let mut i: usize = 0;
        while i < pids.len()
            invariant
                0 <= i <= pids@.len(),
                *self == *old(self),
                self.wf(),
                logic == chosen_logic(gopt, gconfig),
                gopt == *opt,
                gconfig == *config,
                keyword_numeric.deep_view() == keywords_of_class(opt.keyword.deep_view(), true),
                keyword_nonnumeric.deep_view() == keywords_of_class(
                    opt.keyword.deep_view(),
                    false,
                ),
                candpred == (|p: i32| self.spec_is_candidate(gopt, gconfig, self_pid, p)),
                candidate_pids@ == pids@.subrange(0, i as int).filter(candpred),
            decreases pids@.len() - i,
        {
            let pid: i32 = pids[i];
            let candidate: bool = if !config.display.show_self && pid == self_pid {
                false
            } else if opt.keyword.len() == 0 {
                true
            } else {
                View::search(pid, &keyword_numeric, &keyword_nonnumeric, &self.columns, config, logic)
            };
            proof {
                assert(candidate == candpred(pid));
                assert(pids@.subrange(0, i + 1) =~= pids@.subrange(0, i as int).push(pid));
                lemma_filter_push(pids@.subrange(0, i as int), candpred, pid);
            }
            if candidate {
                candidate_pids.push(pid);
            }
            i = i + 1;
        }
        proof {
            assert(pids@.subrange(0, pids@.len() as int) =~= pids@);
            assert(candidate_pids@ == self.spec_candidates(gopt, gconfig, self_pid));
        }
        let ghost gaux = self.spec_aux_set(gopt, gconfig, self_pid);
        let mut auxiliary_pids: Vec<i32> = Vec::new();
        if opt.tree {
            let mut ci: usize = 0;
            while ci < candidate_pids.len()
                invariant
                    0 <= ci <= candidate_pids@.len(),
                    *self == *old(self),
                    gopt == *opt,
                    gconfig == *config,
                    candidate_pids@ == self.spec_candidates(gopt, gconfig, self_pid),
                    auxiliary_pids@.no_duplicates(),
                    forall|p: i32|
                        auxiliary_pids@.contains(p) <==> (!candidate_pids@.contains(p)
                            && exists|j: int|
                            0 <= j < ci && chain_from(self.ppids@, candidate_pids@[j]).contains(
                                p,
                            )),
                decreases candidate_pids@.len() - ci,
            {
                let chain: Vec<i32> = self.get_ppids(candidate_pids[ci]);
                let mut x: usize = 0;
                while x < chain.len()
                    invariant
                        0 <= x <= chain@.len(),
                        0 <= ci < candidate_pids@.len(),
                        *self == *old(self),
                        chain@ == chain_from(self.ppids@, candidate_pids@[ci as int]),
                        candidate_pids@ == self.spec_candidates(gopt, gconfig, self_pid),
                        auxiliary_pids@.no_duplicates(),
                        forall|p: i32|
                            auxiliary_pids@.contains(p) <==> (!candidate_pids@.contains(p) && (
                            (exists|j: int|
                                0 <= j < ci && chain_from(
                                    self.ppids@,
                                    candidate_pids@[j],
                                ).contains(p)) || chain@.subrange(0, x as int).contains(p))),
                    decreases chain@.len() - x,
                {
                    let p: i32 = chain[x];
                    let ghost old_aux = auxiliary_pids@;
                    if !contains_i32(&candidate_pids, p) && !contains_i32(&auxiliary_pids, p) {
                        auxiliary_pids.push(p);
                    }
                    proof {
                        assert(chain@.subrange(0, x + 1) =~= chain@.subrange(0, x as int).push(
                            p,
                        ));
                        assert(chain@.subrange(0, x as int).push(p).contains(p)) by {
                            assert(chain@.subrange(0, x as int).push(p).last() == p);
                        }
                        assert forall|q: i32| auxiliary_pids@.contains(q) implies (
                        old_aux.contains(q) || q == p) by {
                            let w = choose|w: int|
                                0 <= w < auxiliary_pids@.len() && auxiliary_pids@[w] == q;
                            if w < old_aux.len() {
                                assert(old_aux[w] == q);
                            }
                        }
                        assert forall|q: i32| old_aux.contains(q) implies auxiliary_pids@.contains(
                            q,
                        ) by {
                            let w = choose|w: int| 0 <= w < old_aux.len() && old_aux[w] == q;
                            assert(auxiliary_pids@[w] == q);
                        }
                        assert forall|q: i32|
                            chain@.subrange(0, x as int).contains(q) implies chain@.subrange(
                            0,
                            x + 1,
                        ).contains(q) by {
                            let w = choose|w: int|
                                0 <= w < x && chain@.subrange(0, x as int)[w] == q;
                            assert(chain@.subrange(0, x + 1)[w] == q);
                        }
                        if auxiliary_pids@.len() > old_aux.len() {
                            assert(auxiliary_pids@.last() == p);
                        }
                    }
                    x = x + 1;
                }
                proof {
                    assert(chain@.subrange(0, chain@.len() as int) =~= chain@);
                }
                ci = ci + 1;
            }
            proof {
                assert forall|p: i32| auxiliary_pids@.contains(p) implies gaux.contains(p) by {
                    let j = choose|j: int|
                        0 <= j < candidate_pids@.len() && chain_from(
                            self.ppids@,
                            candidate_pids@[j],
                        ).contains(p);
                    let c = candidate_pids@[j];
                    assert(candidate_pids@.to_set().contains(c));
                }
                assert forall|p: i32| gaux.contains(p) implies auxiliary_pids@.contains(p) by {
                    let c = choose|c: i32|
                        candidate_pids@.to_set().contains(c) && chain_from(
                            self.ppids@,
                            c,
                        ).contains(p);
                    let j = choose|j: int|
                        0 <= j < candidate_pids@.len() && candidate_pids@[j] == c;
                    assert(chain_from(self.ppids@, candidate_pids@[j]).contains(p));
                }
            }
        }
        let limit: usize = if self.term_height >= 5 {
            self.term_height - 5
        } else {
            0
        };
        let ghost selpred = |p: i32| self.spec_selected(gopt, gconfig, self_pid, p);
        let mut visible_pids: Vec<i32> = Vec::new();
        let mut vi: usize = 0;
        while vi < pids.len() && !(opt.watch_mode && visible_pids.len() >= limit)
            invariant
                0 <= vi <= pids@.len(),
                *self == *old(self),
                gopt == *opt,
                gconfig == *config,
                limit == self.spec_height_limit(),
                pids@ == self.spec_base_order(),
                candpred == (|p: i32| self.spec_is_candidate(gopt, gconfig, self_pid, p)),
                candidate_pids@ == pids@.filter(candpred),
                forall|p: i32| #![trigger auxiliary_pids@.contains(p)]
                    auxiliary_pids@.contains(p) <==> (gopt.tree && gaux.contains(p)),
                gaux == self.spec_aux_set(gopt, gconfig, self_pid),
                selpred == (|p: i32| self.spec_selected(gopt, gconfig, self_pid, p)),
                visible_pids@ == pids@.subrange(0, vi as int).filter(selpred),
                gopt.watch_mode ==> visible_pids@.len() <= limit,
            decreases pids@.len() - vi,
        {
            let pid: i32 = pids[vi];
            let selected: bool = if contains_i32(&candidate_pids, pid) {
                true
            } else {
                contains_i32(&auxiliary_pids, pid)
            };
            proof {
                assert(candidate_pids@.contains(pid) == candpred(pid)) by {
                    if candidate_pids@.contains(pid) {
                        let w = choose|w: int|
                            0 <= w < candidate_pids@.len() && candidate_pids@[w] == pid;
                        pids@.lemma_filter_pred(candpred, w);
                    }
                    if candpred(pid) {
                        pids@.lemma_filter_contains(candpred, vi as int);
                    }
                }
                assert(candpred(pid) == self.spec_is_candidate(gopt, gconfig, self_pid, pid));
                assert(selpred(pid) == self.spec_selected(gopt, gconfig, self_pid, pid));
                if selected {
                    if candidate_pids@.contains(pid) {
                        assert(self.spec_is_candidate(gopt, gconfig, self_pid, pid));
                    } else {
                        assert(auxiliary_pids@.contains(pid));
                        assert(gopt.tree && gaux.contains(pid));
                    }
                    assert(self.spec_selected(gopt, gconfig, self_pid, pid));
                }
                assert(selected == selpred(pid));
                assert(pids@.subrange(0, vi + 1) =~= pids@.subrange(0, vi as int).push(pid));
                lemma_filter_push(pids@.subrange(0, vi as int), selpred, pid);
            }
            if selected {
                visible_pids.push(pid);
            }
            vi = vi + 1;
        }
        proof {
            let f = self.spec_base_order().filter(selpred);
            assert(pids@.subrange(0, pids@.len() as int) =~= pids@);
            if vi == pids@.len() {
                assert(visible_pids@ == f);
            } else {
                // stopped early in watch mode with the limit reached
                Seq::filter_distributes_over_add(
                    pids@.subrange(0, vi as int),
                    pids@.subrange(vi as int, pids@.len() as int),
                    selpred,
                );
                assert(pids@.subrange(0, vi as int) + pids@.subrange(
                    vi as int,
                    pids@.len() as int,
                ) =~= pids@);
                assert(f.take(limit as int) =~= visible_pids@);
            }
            assert(visible_pids@ == self.spec_visible(gopt, gconfig, self_pid));
        }
        self.visible_pids = visible_pids;
        self.auxiliary_pids = auxiliary_pids;
    }
}


/// Mathematical model of one built column.
pub struct ColumnModel {
    pub kind_name: Seq<char>,
    pub style: crate::config::ColumnStyleModel,
    pub nonnumeric_search: bool,
    pub numeric_search: bool,
    pub align: ConfigColumnAlign,
    pub max_width: Option<usize>,
    pub min_width: Option<usize>,
    pub sortable: bool,
    pub header: Seq<char>,
    pub unit: Seq<char>,
    pub cells: Seq<(i32, Seq<char>)>,
    pub sorted_asc: Seq<i32>,
    pub width: int,
}

pub open spec fn cells_model(cells: Seq<(i32, String)>) -> Seq<(i32, Seq<char>)> {
    cells.map_values(|e: (i32, String)| (e.0, e.1@))
}

pub open spec fn col_model(c: ColumnInfo) -> ColumnModel {
    ColumnModel {
        kind_name: c.kind_name@,
        style: c.style@,
        nonnumeric_search: c.nonnumeric_search,
        numeric_search: c.numeric_search,
        align: c.align,
        max_width: c.max_width,
        min_width: c.min_width,
        sortable: c.sortable,
        header: c.header@,
        unit: c.unit@,
        cells: cells_model(c.cells@),
        sorted_asc: c.sorted_asc@,
        width: c.width as int,
    }
}

pub open spec fn cols_model(cols: Seq<ColumnInfo>) -> Seq<ColumnModel> {
    cols.map_values(|c: ColumnInfo| col_model(c))
}

pub open spec fn model_names(ms: Seq<ColumnModel>) -> Seq<Seq<char>> {
    ms.map_values(|m: ColumnModel| m.kind_name)
}

/// The first catalog entry with exactly this kind name, at or after `i`.
pub open spec fn find_source(cat: Seq<ColumnSource>, name: Seq<char>, i: int) -> Option<int>
    decreases cat.len() - i,
{
    if i < 0 || i >= cat.len() {
        None
    } else if cat[i].kind_name@ == name {
        Some(i)
    } else {
        find_source(cat, name, i + 1)
    }
}

/// The first catalog entry whose kind name contains the inserted name,
/// case-insensitively, at or after `i`.
pub open spec fn resolve_insert(cat: Seq<ColumnSource>, insert: Seq<char>, i: int) -> Option<int>
    decreases cat.len() - i,
{
    if i < 0 || i >= cat.len() {
        None
    } else if name_matches(cat[i].kind_name@, insert) {
        Some(i)
    } else {
        resolve_insert(cat, insert, i + 1)
    }
}

/// The column built from one configured column and the catalog entry its
/// kind resolved to; a configured header overrides the catalog's.
pub open spec fn make_model(c: ConfigColumn, src: ColumnSource) -> ColumnModel {
    ColumnModel {
        kind_name: src.kind_name@,
        style: c.style@,
        nonnumeric_search: c.nonnumeric_search,
        numeric_search: c.numeric_search,
        align: c.align,
        max_width: c.max_width,
        min_width: c.min_width,
        sortable: src.sortable,
        header: match c.header {
            Some(h) => h@,
            None => src.header@,
        },
        unit: src.unit@,
        cells: cells_model(src.cells@),
        sorted_asc: src.sorted_asc@,
        width: 0,
    }
}

/// The tree column: fixed tree color, left aligned, excluded from search.
pub open spec fn tree_model(config: Config, src: ColumnSource) -> ColumnModel {
    ColumnModel {
        kind_name: src.kind_name@,
        style: crate::config::ColumnStyleModel::Fixed(config.style.tree@),
        nonnumeric_search: false,
        numeric_search: false,
        align: ConfigColumnAlign::Left,
        max_width: None,
        min_width: None,
        sortable: src.sortable,
        header: src.header@,
        unit: src.unit@,
        cells: cells_model(src.cells@),
        sorted_asc: src.sorted_asc@,
        width: 0,
    }
}

/// The columns built from the configured list: slots consume the insertion
/// list in order; unresolved or unavailable kinds are skipped.
pub open spec fn spec_config_columns(
    opt: Opt,
    config: Config,
    cat: Seq<ColumnSource>,
    i: int,
    slot_idx: int,
) -> Seq<ColumnModel>
    decreases config.columns@.len() - i,
{
    if i < 0 || i >= config.columns@.len() {
        Seq::empty()
    } else {
        let c = config.columns@[i];
        let src_opt = match c.kind {
            ConfigColumnKind::Slot => if slot_idx < opt.insert@.len() {
                resolve_insert(cat, opt.insert@[slot_idx]@, 0)
            } else {
                None
            },
            ConfigColumnKind::Named(n) => find_source(cat, n@, 0),
        };
        let next_slot = match c.kind {
            ConfigColumnKind::Slot => slot_idx + 1,
            ConfigColumnKind::Named(n) => slot_idx,
        };
        let rest = spec_config_columns(opt, config, cat, i + 1, next_slot);
        match src_opt {
            Some(j) => if cat[j].available {
                seq![make_model(c, cat[j])] + rest
            } else {
                rest
            },
            None => rest,
        }
    }
}

/// Every column of the view: the tree column first when tree mode is on and
/// its kind is available, then the configured columns.
pub open spec fn spec_built_columns(opt: Opt, config: Config, cat: Seq<ColumnSource>) -> Seq<
    ColumnModel,
> {
    let tree_part: Seq<ColumnModel> = if opt.tree {
        match find_source(cat, "tree"@, 0) {
            Some(j) => if cat[j].available {
                seq![tree_model(config, cat[j])]
            } else {
                Seq::empty()
            },
            None => Seq::empty(),
        }
    } else {
        Seq::empty()
    };
    tree_part + spec_config_columns(opt, config, cat, 0, 0)
}

fn clone_string(s: &String) -> (r: String)
    ensures
        r@ == s@,
{
    s.clone()
}

fn clone_cells(v: &Vec<(i32, String)>) -> (r: Vec<(i32, String)>)
    ensures
        cells_model(r@) == cells_model(v@),
        r@.len() == v@.len(),
{
    let mut r: Vec<(i32, String)> = Vec::new();
    let mut i: usize = 0;
    while i < v.len()
        invariant
            0 <= i <= v@.len(),
            r@.len() == i,
            forall|k: int| 0 <= k < i ==> (#[trigger] r@[k]).0 == v@[k].0 && r@[k].1@ == v@[k].1@,
        decreases v@.len() - i,
    {
        let e: &(i32, String) = &v[i];
        let c = e.1.clone();
        let ghost old_r = r@;
        r.push((e.0, c));
        proof {
            assert forall|k: int|
                0 <= k < i + 1 implies (#[trigger] r@[k]).0 == v@[k].0 && r@[k].1@
                == v@[k].1@ by {
                if k < i {
                    assert(r@[k] == old_r[k]);
                    assert(old_r[k].0 == v@[k].0 && old_r[k].1@ == v@[k].1@);
                } else {
                    assert(r@[k].1@ == v@[k].1@);
                }
            }
        }
        i = i + 1;
    }
    proof {
        assert(cells_model(r@) =~= cells_model(v@));
    }
    r
}

fn find_source_exec(cat: &Vec<ColumnSource>, name: &str) -> (r: Option<usize>)
    ensures
        match r {
            Some(j) => find_source(cat@, name@, 0) == Some(j as int) && j < cat@.len(),
            None => find_source(cat@, name@, 0) is None,
        },
{
    let mut j: usize = 0;
    while j < cat.len()
        invariant
            0 <= j <= cat@.len(),
            find_source(cat@, name@, 0) == find_source(cat@, name@, j as int),
        decreases cat@.len() - j,
    {
        if str_eq(cat[j].kind_name.as_str(), name) {
            return Some(j);
        }
        j = j + 1;
    }
    None
}

fn resolve_insert_exec(cat: &Vec<ColumnSource>, insert: &String) -> (r: Option<usize>)
    ensures
        match r {
            Some(j) => resolve_insert(cat@, insert@, 0) == Some(j as int) && j < cat@.len(),
            None => resolve_insert(cat@, insert@, 0) is None,
        },
{
    let mut j: usize = 0;
    while j < cat.len()
        invariant
            0 <= j <= cat@.len(),
            resolve_insert(cat@, insert@, 0) == resolve_insert(cat@, insert@, j as int),
        decreases cat@.len() - j,
    {
        if contains_substring(cat[j].kind_name.as_str(), insert.as_str(), true) {
            return Some(j);
        }
        j = j + 1;
    }
    None
}

fn make_column(c: &ConfigColumn, src: &ColumnSource) -> (r: ColumnInfo)
    ensures
        col_model(r) == make_model(*c, *src),
{
    let header: String = match &c.header {
        Some(h) => h.clone(),
        None => src.header.clone(),
    };
    let r = ColumnInfo {
        kind_name: clone_string(&src.kind_name),
        style: crate::config::clone_column_style(&c.style),
        nonnumeric_search: c.nonnumeric_search,
        numeric_search: c.numeric_search,
        align: c.align,
        max_width: c.max_width,
        min_width: c.min_width,
        sortable: src.sortable,
        header,
        unit: clone_string(&src.unit),
        cells: clone_cells(&src.cells),
        sorted_asc: clone_vec_i32(&src.sorted_asc),
        width: 0,
    };
    r
}

fn make_tree_column(config: &Config, src: &ColumnSource) -> (r: ColumnInfo)
    ensures
        col_model(r) == tree_model(*config, *src),
{
    let r = ColumnInfo {
        kind_name: clone_string(&src.kind_name),
        style: crate::style::color_to_column_style(&config.style.tree),
        nonnumeric_search: false,
        numeric_search: false,
        align: ConfigColumnAlign::Left,
        max_width: None,
        min_width: None,
        sortable: src.sortable,
        header: clone_string(&src.header),
        unit: clone_string(&src.unit),
        cells: clone_cells(&src.cells),
        sorted_asc: clone_vec_i32(&src.sorted_asc),
        width: 0,
    };
    r
}

impl View {
    /// Builds the view bound to one snapshot: assembles the columns from the
    /// configuration, the insertion list and the catalog of available kinds,
    /// stores the snapshot's parent map, and resolves the sort column.
    pub fn new(
        opt: &Opt,
        config: &Config,
        catalog: &Vec<ColumnSource>,
        ppids: Vec<(i32, i32)>,
        term_width: usize,
        term_height: usize,
    ) -> (r: View)
        requires
            0 <= spec_sort_info(
                *opt,
                *config,
                model_names(spec_built_columns(*opt, *config, catalog@)),
            ).0 < spec_built_columns(*opt, *config, catalog@).len(),
        ensures
            cols_model(r.columns@) == spec_built_columns(*opt, *config, catalog@),
            r.sort_info.idx as int == spec_sort_info(
                *opt,
                *config,
                model_names(spec_built_columns(*opt, *config, catalog@)),
            ).0,
            r.sort_info.order == spec_sort_info(
                *opt,
                *config,
                model_names(spec_built_columns(*opt, *config, catalog@)),
            ).1,
            r.visible_pids@ == Seq::<i32>::empty(),
            r.auxiliary_pids@ == Seq::<i32>::empty(),
            r.ppids == ppids,
            r.term_width == term_width,
            r.term_height == term_height,
            r.wf(),
    {
        let ghost target = spec_built_columns(*opt, *config, catalog@);
        let mut columns: Vec<ColumnInfo> = Vec::new();
        if opt.tree {
            match find_source_exec(catalog, "tree") {
                Some(j) => {
                    if catalog[j].available {
                        columns.push(make_tree_column(config, &catalog[j]));
                    }
                },
                None => {},
            }
        }
        proof {
            assert(cols_model(columns@) =~= target.subrange(
                0,
                cols_model(columns@).len() as int,
            ));
            assert(target =~= cols_model(columns@) + spec_config_columns(
                *opt,
                *config,
                catalog@,
                0,
                0,
            ));
        }
        let mut slot_idx: usize = 0;
        let mut i: usize = 0;
        while i < config.columns.len()
            invariant
                0 <= i <= config.columns@.len(),
                0 <= slot_idx <= i,
                target == spec_built_columns(*opt, *config, catalog@),
                target == cols_model(columns@) + spec_config_columns(
                    *opt,
                    *config,
                    catalog@,
                    i as int,
                    slot_idx as int,
                ),
            decreases config.columns@.len() - i,
        {
            let c: &ConfigColumn = &config.columns[i];
            let src_j: Option<usize> = match &c.kind {
                ConfigColumnKind::Slot => {
                    let r = if slot_idx < opt.insert.len() {
                        resolve_insert_exec(catalog, &opt.insert[slot_idx])
                    } else {
                        None
                    };
                    slot_idx = slot_idx + 1;
                    r
                },
                ConfigColumnKind::Named(n) => find_source_exec(catalog, n),
            };
            let ghost pre_cols = cols_model(columns@);
            match src_j {
                Some(j) => {
                    if catalog[j].available {
                        columns.push(make_column(c, &catalog[j]));
                        proof {
                            assert(cols_model(columns@) =~= pre_cols + seq![
                                make_model(config.columns@[i as int], catalog@[j as int]),
                            ]);
                        }
                    }
                },
                None => {},
            }
            proof {
                assert(target =~= cols_model(columns@) + spec_config_columns(
                    *opt,
                    *config,
                    catalog@,
                    i + 1,
                    slot_idx as int,
                ));
            }
            i = i + 1;
        }
        proof {
            assert(spec_config_columns(
                *opt,
                *config,
                catalog@,
                config.columns@.len() as int,
                slot_idx as int,
            ) =~= Seq::<ColumnModel>::empty());
            assert(target =~= cols_model(columns@));
            assert(col_names(columns@) =~= model_names(target));
        }
        let sort_info: SortInfo = View::get_sort_info(opt, config, &columns);
        View {
            columns,
            term_width,
            term_height,
            sort_info,
            visible_pids: Vec::new(),
            auxiliary_pids: Vec::new(),
            ppids,
        }
    }
}


pub open spec fn assoc_lookup_usize(s: Seq<(usize, usize)>, k: int) -> Option<usize>
    decreases s.len(),
{
    if s.len() == 0 {
        None
    } else if s[0].0 == k {
        Some(s[0].1)
    } else {
        assoc_lookup_usize(s.drop_first(), k)
    }
}

fn assoc_get_usize(s: &Vec<(usize, usize)>, k: usize) -> (r: Option<usize>)
    ensures
        r == assoc_lookup_usize(s@, k as int),
{
    let mut i: usize = 0;
    proof {
        assert(s@.skip(0) =~= s@);
    }
    while i < s.len()
        invariant
            0 <= i <= s@.len(),
            assoc_lookup_usize(s@.skip(i as int), k as int) == assoc_lookup_usize(s@, k as int),
        decreases s@.len() - i,
    {
        proof {
            assert(s@.skip(i as int)[0] == s@[i as int]);
            assert(s@.skip(i as int).drop_first() =~= s@.skip(i + 1));
        }
        if s[i].0 == k {
            return Some(s[i].1);
        }
        i = i + 1;
    }
    proof {
        assert(s@.skip(i as int) =~= Seq::<(usize, usize)>::empty());
    }
    None
}

/// The characters a cell contributes to width negotiation; a missing cell
/// contributes nothing.
pub open spec fn cell_len(c: ColumnInfo, pid: i32) -> int {
    match cell_lookup(c.cells@, pid) {
        Some(t) => t.len() as int,
        None => 0,
    }
}

/// The running maximum of cell lengths over the visible pids from `i` on.
pub open spec fn width_pass(c: ColumnInfo, visible: Seq<i32>, i: int, acc: int) -> int
    decreases visible.len() - i,
{
    if i < 0 || i >= visible.len() {
        acc
    } else {
        width_pass(c, visible, i + 1, if cell_len(c, visible[i]) > acc {
            cell_len(c, visible[i])
        } else {
            acc
        })
    }
}

/// The negotiated width of a column: the widest of the header and the
/// visible cells, floored by the effective minimum (a caller-forced minimum
/// overrides the configured one) and capped by the configured maximum.
pub open spec fn spec_col_width(c: ColumnInfo, visible: Seq<i32>, forced_min: Option<usize>) -> int {
    let base = width_pass(c, visible, 0, c.header@.len() as int);
    let eff_min = match forced_min {
        Some(m) => Some(m),
        None => c.min_width,
    };
    let floored = match eff_min {
        Some(mn) => if base < mn {
            mn as int
        } else {
            base
        },
        None => base,
    };
    match c.max_width {
        Some(mx) => if floored > mx {
            mx as int
        } else {
            floored
        },
        None => floored,
    }
}

impl View {
    /// Renegotiates every column's width over only the currently visible
    /// pids, so hidden outlier values cannot distort the layout. A forced
    /// minimum in `min_widths`, keyed by column index, overrides the
    /// column's own configured minimum.
    pub fn adjust(&mut self, config: &Config, min_widths: &Vec<(usize, usize)>)
        ensures
            final(self).columns@.len() == old(self).columns@.len(),
            forall|k: int|
                0 <= k < old(self).columns@.len() ==> #[trigger] final(self).columns@[k]
                    == (ColumnInfo {
                    width: spec_col_width(
                        old(self).columns@[k],
                        old(self).visible_pids@,
                        assoc_lookup_usize(min_widths@, k),
                    ) as usize,
                    ..old(self).columns@[k]
                }),
            final(self).term_width == old(self).term_width,
            final(self).term_height == old(self).term_height,
            final(self).sort_info == old(self).sort_info,
            final(self).visible_pids == old(self).visible_pids,
            final(self).auxiliary_pids == old(self).auxiliary_pids,
            final(self).ppids == old(self).ppids,
            final(self).wf() == old(self).wf(),
    {
        let len: usize = self.columns.len();
        let mut i: usize = 0;
        while i < len
            invariant
                0 <= i <= len,
                len == self.columns@.len(),
                len == old(self).columns@.len(),
                self.term_width == old(self).term_width,
                self.term_height == old(self).term_height,
                self.sort_info == old(self).sort_info,
                self.visible_pids == old(self).visible_pids,
                self.auxiliary_pids == old(self).auxiliary_pids,
                self.ppids == old(self).ppids,
                forall|k: int|
                    i <= k < len ==> #[trigger] self.columns@[k] == old(self).columns@[k],
                forall|k: int|
                    0 <= k < i ==> #[trigger] self.columns@[k] == (ColumnInfo {
                        width: spec_col_width(
                            old(self).columns@[k],
                            old(self).visible_pids@,
                            assoc_lookup_usize(min_widths@, k),
                        ) as usize,
                        ..old(self).columns@[k]
                    }),
            decreases len - i,
        {
            let mut w: usize = self.columns[i].header.as_str().unicode_len();
            let ghost c0 = self.columns@[i as int];
            let mut j: usize = 0;
            while j < self.visible_pids.len()
                invariant
                    0 <= j <= self.visible_pids@.len(),
                    0 <= i < self.columns@.len(),
                    c0 == self.columns@[i as int],
                    self.visible_pids == old(self).visible_pids,
                    width_pass(c0, self.visible_pids@, 0, c0.header@.len() as int) == width_pass(
                        c0,
                        self.visible_pids@,
                        j as int,
                        w as int,
                    ),
                decreases self.visible_pids@.len() - j,
            {
                let pid: i32 = self.visible_pids[j];
                match get_cell(&self.columns[i].cells, pid) {
                    Some(t) => {
                        let l: usize = t.as_str().unicode_len();
                        if l > w {
                            w = l;
                        }
                    },
                    None => {},
                }
                j = j + 1;
            }
            let eff_min: Option<usize> = match assoc_get_usize(min_widths, i) {
                Some(m) => Some(m),
                None => self.columns[i].min_width,
            };
            match eff_min {
                Some(mn) => {
                    if w < mn {
                        w = mn;
                    }
                },
                None => {},
            }
            match self.columns[i].max_width {
                Some(mx) => {
                    if w > mx {
                        w = mx;
                    }
                },
                None => {},
            }
            self.columns[i].width = w;
            proof {
                assert(self.columns@[i as int] == (ColumnInfo {
                    width: spec_col_width(
                        old(self).columns@[i as int],
                        old(self).visible_pids@,
                        assoc_lookup_usize(min_widths@, i as int),
                    ) as usize,
                    ..old(self).columns@[i as int]
                }));
            }
            i = i + 1;
        }
    }
}


pub open spec fn spaces(n: int) -> Seq<char> {
    Seq::new(n as nat, |i: int| ' ')
}

/// A cell padded to the column width: overlong text is cut, short text is
/// filled with spaces on the side its alignment dictates.
pub open spec fn pad_cell_spec(text: Seq<char>, width: int, align: ConfigColumnAlign) -> Seq<
    char,
> {
    let t = if text.len() <= width {
        text
    } else {
        text.subrange(0, width)
    };
    let pad = width - t.len();
    match align {
        ConfigColumnAlign::Left => t + spaces(pad),
        ConfigColumnAlign::Right => spaces(pad) + t,
        ConfigColumnAlign::Center => spaces(pad / 2) + t + spaces(pad - pad / 2),
    }
}

fn append_spaces(s: &mut String, n: usize)
    ensures
        final(s)@ == old(s)@ + spaces(n as int),
{
    proof {
        reveal_strlit(" ");
    }
    let mut i: usize = 0;
    while i < n
        invariant
            0 <= i <= n,
            " "@ == seq![' '],
            s@ == old(s)@ + spaces(i as int),
        decreases n - i,
    {
        s.append(" ");
        proof {
            assert(s@ =~= old(s)@ + spaces(i + 1));
        }
        i = i + 1;
    }
}

/// Pads one cell to the column width by its alignment.
pub fn pad_cell(text: &str, width: usize, align: ConfigColumnAlign) -> (r: String)
    ensures
        r@ == pad_cell_spec(text@, width as int, align),
{
    let t: &str = crate::util::truncate(text, width);
    let l: usize = t.unicode_len();
    let pad: usize = width - l;
    match align {
        ConfigColumnAlign::Left => {
            let mut r: String = t.to_owned();
            append_spaces(&mut r, pad);
            r
        },
        ConfigColumnAlign::Right => {
            let mut r: String = String::new();
            append_spaces(&mut r, pad);
            let r2: String = r.concat(t);
            r2
        },
        ConfigColumnAlign::Center => {
            let left: usize = pad / 2;
            let mut r: String = String::new();
            append_spaces(&mut r, left);
            let mut r2: String = r.concat(t);
            append_spaces(&mut r2, pad - left);
            proof {
                assert(r2@ =~= pad_cell_spec(text@, width as int, align));
            }
            r2
        },
    }
}

/// The header line before trimming and cutting: each column's header,
/// padded, painted with the header color, and joined by single spaces.
pub open spec fn header_row_spec(cols: Seq<ColumnInfo>, config: Config, i: int) -> Seq<char>
    decreases cols.len() - i,
{
    if i < 0 || i >= cols.len() {
        Seq::empty()
    } else {
        seq![' '] + crate::style::apply_color_spec(
            pad_cell_spec(cols[i].header@, cols[i].width as int, cols[i].align),
            config.style.header@,
            config.display.theme,
            false,
        ) + header_row_spec(cols, config, i + 1)
    }
}

/// The unit line before trimming and cutting.
pub open spec fn unit_row_spec(cols: Seq<ColumnInfo>, config: Config, i: int) -> Seq<char>
    decreases cols.len() - i,
{
    if i < 0 || i >= cols.len() {
        Seq::empty()
    } else {
        seq![' '] + crate::style::apply_color_spec(
            pad_cell_spec(cols[i].unit@, cols[i].width as int, cols[i].align),
            config.style.unit@,
            config.display.theme,
            false,
        ) + unit_row_spec(cols, config, i + 1)
    }
}

/// One process line before trimming and cutting: each column's cell for the
/// pid, padded and styled by the column's style; auxiliary rows are faded.
pub open spec fn content_row_spec(
    cols: Seq<ColumnInfo>,
    config: Config,
    pid: i32,
    faded: bool,
    i: int,
) -> Seq<char>
    decreases cols.len() - i,
{
    if i < 0 || i >= cols.len() {
        Seq::empty()
    } else {
        seq![' '] + crate::style::apply_style_spec(
            pad_cell_spec(
                match cell_lookup(cols[i].cells@, pid) {
                    Some(t) => t,
                    None => Seq::empty(),
                },
                cols[i].width as int,
                cols[i].align,
            ),
            cols[i].style@,
            config.style,
            config.display.theme,
            faded,
        ) + content_row_spec(cols, config, pid, faded, i + 1)
    }
}

/// A finished line: trailing whitespace trimmed, then cut to the effective
/// terminal width.
pub open spec fn finished_line(row: Seq<char>, width: int) -> Seq<char> {
    crate::util::truncate_spec(crate::util::trim_end_spec(row), width as nat)
}

impl View {
    /// Builds the header line.
    pub fn display_header(&self, config: &Config) -> (r: String)
        ensures
            r@ == finished_line(header_row_spec(self.columns@, *config, 0), self.term_width as int),
    {
        proof {
            reveal_strlit(" ");
        }
        let mut row: String = String::new();
        let mut i: usize = 0;
        while i < self.columns.len()
            invariant
                0 <= i <= self.columns@.len(),
                " "@ == seq![' '],
                header_row_spec(self.columns@, *config, 0) == row@ + header_row_spec(
                    self.columns@,
                    *config,
                    i as int,
                ),
            decreases self.columns@.len() - i,
        {
            let cell: String = pad_cell(
                self.columns[i].header.as_str(),
                self.columns[i].width,
                self.columns[i].align,
            );
            let painted: String = crate::style::apply_color(
                cell,
                &config.style.header,
                &config.display.theme,
                false,
            );
            row.append(" ");
            row.append(painted.as_str());
            proof {
                assert(header_row_spec(self.columns@, *config, 0) =~= row@ + header_row_spec(
                    self.columns@,
                    *config,
                    i + 1,
                ));
            }
            i = i + 1;
        }
        let trimmed: &str = crate::util::trim_end_str(row.as_str());
        let cut: &str = crate::util::truncate(trimmed, self.term_width);
        cut.to_owned()
    }

    /// Builds the unit line.
    pub fn display_unit(&self, config: &Config) -> (r: String)
        ensures
            r@ == finished_line(unit_row_spec(self.columns@, *config, 0), self.term_width as int),
    {
        proof {
            reveal_strlit(" ");
        }
        let mut row: String = String::new();
        let mut i: usize = 0;
        while i < self.columns.len()
            invariant
                0 <= i <= self.columns@.len(),
                " "@ == seq![' '],
                unit_row_spec(self.columns@, *config, 0) == row@ + unit_row_spec(
                    self.columns@,
                    *config,
                    i as int,
                ),
            decreases self.columns@.len() - i,
        {
            let cell: String = pad_cell(
                self.columns[i].unit.as_str(),
                self.columns[i].width,
                self.columns[i].align,
            );
            let painted: String = crate::style::apply_color(
                cell,
                &config.style.unit,
                &config.display.theme,
                false,
            );
            row.append(" ");
            row.append(painted.as_str());
            proof {
                assert(unit_row_spec(self.columns@, *config, 0) =~= row@ + unit_row_spec(
                    self.columns@,
                    *config,
                    i + 1,
                ));
            }
            i = i + 1;
        }
        let trimmed: &str = crate::util::trim_end_str(row.as_str());
        let cut: &str = crate::util::truncate(trimmed, self.term_width);
        cut.to_owned()
    }

    /// Builds one process line; every column must hold a cell for the pid.
    pub fn display_content(&self, config: &Config, pid: i32, auxiliary: bool) -> (r: String)
        requires
            forall|k: int|
                0 <= k < self.columns@.len() ==> cell_lookup(
                    (#[trigger] self.columns@[k]).cells@,
                    pid,
                ) is Some,
        ensures
            r@ == finished_line(
                content_row_spec(self.columns@, *config, pid, auxiliary, 0),
                self.term_width as int,
            ),
    {
        proof {
            reveal_strlit(" ");
        }
        let mut row: String = String::new();
        let mut i: usize = 0;
        while i < self.columns.len()
            invariant
                0 <= i <= self.columns@.len(),
                " "@ == seq![' '],
                forall|k: int|
                    0 <= k < self.columns@.len() ==> cell_lookup(
                        (#[trigger] self.columns@[k]).cells@,
                        pid,
                    ) is Some,
                content_row_spec(self.columns@, *config, pid, auxiliary, 0) == row@
                    + content_row_spec(self.columns@, *config, pid, auxiliary, i as int),
            decreases self.columns@.len() - i,
        {
            let text: String = match get_cell(&self.columns[i].cells, pid) {
                Some(t) => t.clone(),
                None => {
                    proof {
                        assert(false);
                    }
                    String::new()
                },
            };
            let cell: String = pad_cell(text.as_str(), self.columns[i].width, self.columns[i].align);
            let styled: String = crate::style::apply_style(
                cell,
                &self.columns[i].style,
                &config.style,
                &config.display.theme,
                auxiliary,
            );
            row.append(" ");
            row.append(styled.as_str());
            proof {
                assert(content_row_spec(self.columns@, *config, pid, auxiliary, 0) =~= row@
                    + content_row_spec(self.columns@, *config, pid, auxiliary, i + 1));
            }
            i = i + 1;
        }
        let trimmed: &str = crate::util::trim_end_str(row.as_str());
        let cut: &str = crate::util::truncate(trimmed, self.term_width);
        cut.to_owned()
    }
}


/// What display decides to do with colors: force them on, force them off,
/// or leave the terminal layer as it is.
#[derive(Clone, Copy, PartialEq, Eq, Structural, Debug)]
pub enum ColorAction {
    Enable,
    Disable,
    Leave,
}

/// The three policy decisions display makes before any line is written.
pub struct DisplayPlan {
    pub use_pager: bool,
    pub color_action: ColorAction,
    pub truncate: bool,
}

/// Whether a pager is used: never in watch mode; an explicit override string
/// wins over the configured mode; `auto` pages when the terminal is shorter
/// than the visible lines plus header, unit line and prompt; an unrecognized
/// override disables the pager.
pub open spec fn use_pager_spec(
    over: Option<Seq<char>>,
    mode: crate::config::ConfigPagerMode,
    watch: bool,
    height: int,
    threshold: int,
) -> bool {
    if watch {
        false
    } else {
        match over {
            Some(s) => if s == "auto"@ {
                height < threshold
            } else if s == "always"@ {
                true
            } else {
                false
            },
            None => match mode {
                crate::config::ConfigPagerMode::Auto => height < threshold,
                crate::config::ConfigPagerMode::Always => true,
                crate::config::ConfigPagerMode::Disable => false,
            },
        }
    }
}

/// The color decision: an explicit override wins over the configured mode;
/// `auto` enables color only when both paging and attached to a terminal,
/// and otherwise leaves the terminal layer alone.
pub open spec fn color_action_spec(
    over: Option<Seq<char>>,
    mode: crate::config::ConfigColorMode,
    use_pager: bool,
    use_terminal: bool,
) -> ColorAction {
    match over {
        Some(s) => if s == "auto"@ {
            if use_pager && use_terminal {
                ColorAction::Enable
            } else {
                ColorAction::Leave
            }
        } else if s == "always"@ {
            ColorAction::Enable
        } else if s == "disable"@ {
            ColorAction::Disable
        } else {
            ColorAction::Leave
        },
        None => match mode {
            crate::config::ConfigColorMode::Auto => if use_pager && use_terminal {
                ColorAction::Enable
            } else {
                ColorAction::Leave
            },
            crate::config::ConfigColorMode::Always => ColorAction::Enable,
            crate::config::ConfigColorMode::Disable => ColorAction::Disable,
        },
    }
}

/// Whether lines are cut: with a pager on a terminal when cut-to-pager is
/// set, on a bare terminal when cut-to-terminal is set, and piped when
/// cut-to-pipe is set.
pub open spec fn truncate_flag_spec(
    use_terminal: bool,
    use_pager: bool,
    d: crate::config::ConfigDisplay,
) -> bool {
    (use_terminal && use_pager && d.cut_to_pager) || (use_terminal && !use_pager
        && d.cut_to_terminal) || (!use_terminal && d.cut_to_pipe)
}

pub open spec fn opt_str_view(s: Option<String>) -> Option<Seq<char>> {
    match s {
        Some(x) => Some(x@),
        None => None,
    }
}

impl View {
    /// Decides pager use, color handling and truncation, widens the
    /// effective width to unbounded when truncation is off, and assembles
    /// the header line, the unit line and one line per visible pid. Writing
    /// the lines, spawning the pager and toggling the terminal's colors are
    /// the caller's work.
    pub fn display(&mut self, opt: &Opt, config: &Config, use_terminal: bool) -> (r: (
        DisplayPlan,
        Vec<String>,
    ))
        requires
            old(self).wf(),
            old(self).visible_pids@.len() + 3 <= usize::MAX,
            forall|v: int, k: int|
                0 <= v < old(self).visible_pids@.len() && 0 <= k < old(self).columns@.len()
                    ==> cell_lookup(
                    (#[trigger] old(self).columns@[k]).cells@,
                    #[trigger] old(self).visible_pids@[v],
                ) is Some,
        ensures
            r.0.use_pager == use_pager_spec(
                opt_str_view(opt.pager),
                config.pager.mode,
                opt.watch_mode,
                old(self).term_height as int,
                old(self).visible_pids@.len() + 3int,
            ),
            r.0.color_action == color_action_spec(
                opt_str_view(opt.color),
                config.display.color_mode,
                r.0.use_pager,
                use_terminal,
            ),
            r.0.truncate == truncate_flag_spec(use_terminal, r.0.use_pager, config.display),
            final(self).term_width == if r.0.truncate {
                old(self).term_width as int
            } else {
                usize::MAX as int
            },
            final(self).columns == old(self).columns,
            final(self).sort_info == old(self).sort_info,
            final(self).visible_pids == old(self).visible_pids,
            final(self).auxiliary_pids == old(self).auxiliary_pids,
            final(self).ppids == old(self).ppids,
            final(self).term_height == old(self).term_height,
            final(self).wf(),
            r.1@.len() == 2 + old(self).visible_pids@.len(),
            r.1@[0]@ == finished_line(
                header_row_spec(final(self).columns@, *config, 0),
                final(self).term_width as int,
            ),
            r.1@[1]@ == finished_line(
                unit_row_spec(final(self).columns@, *config, 0),
                final(self).term_width as int,
            ),
            forall|v: int|
                0 <= v < old(self).visible_pids@.len() ==> (#[trigger] r.1@[v + 2])@
                    == finished_line(
                    content_row_spec(
                        final(self).columns@,
                        *config,
                        old(self).visible_pids@[v],
                        old(self).auxiliary_pids@.contains(old(self).visible_pids@[v]),
                        0,
                    ),
                    final(self).term_width as int,
                ),
    {
        let pager_threshold: usize = self.visible_pids.len() + 3;
        let use_pager: bool = if opt.watch_mode {
            false
        } else {
            match &opt.pager {
                Some(x) => {
                    if str_eq(x.as_str(), "auto") {
                        self.term_height < pager_threshold
                    } else if str_eq(x.as_str(), "always") {
                        true
                    } else {
                        false
                    }
                },
                None => match config.pager.mode {
                    crate::config::ConfigPagerMode::Auto => self.term_height < pager_threshold,
                    crate::config::ConfigPagerMode::Always => true,
                    crate::config::ConfigPagerMode::Disable => false,
                },
            }
        };
        let color_action: ColorAction = match &opt.color {
            Some(x) => {
                if str_eq(x.as_str(), "auto") {
                    if use_pager && use_terminal {
                        ColorAction::Enable
                    } else {
                        ColorAction::Leave
                    }
                } else if str_eq(x.as_str(), "always") {
                    ColorAction::Enable
                } else if str_eq(x.as_str(), "disable") {
                    ColorAction::Disable
                } else {
                    ColorAction::Leave
                }
            },
            None => match config.display.color_mode {
                crate::config::ConfigColorMode::Auto => if use_pager && use_terminal {
                    ColorAction::Enable
                } else {
                    ColorAction::Leave
                },
                crate::config::ConfigColorMode::Always => ColorAction::Enable,
                crate::config::ConfigColorMode::Disable => ColorAction::Disable,
            },
        };
        let mut truncate: bool = use_terminal && use_pager && config.display.cut_to_pager;
        truncate = truncate || (use_terminal && !use_pager && config.display.cut_to_terminal);
        truncate = truncate || (!use_terminal && config.display.cut_to_pipe);
        if !truncate {
            self.term_width = usize::MAX;
        }
        let mut rows: Vec<String> = Vec::new();
        rows.push(self.display_header(config));
        rows.push(self.display_unit(config));
        let mut v: usize = 0;
        while v < self.visible_pids.len()
            invariant
                0 <= v <= self.visible_pids@.len(),
                *self == *final(self),
                self.wf(),
                self.visible_pids == old(self).visible_pids,
                self.auxiliary_pids == old(self).auxiliary_pids,
                self.columns == old(self).columns,
                forall|vv: int, k: int|
                    0 <= vv < self.visible_pids@.len() && 0 <= k < self.columns@.len()
                        ==> cell_lookup(
                        (#[trigger] self.columns@[k]).cells@,
                        #[trigger] self.visible_pids@[vv],
                    ) is Some,
                rows@.len() == 2 + v,
                rows@[0]@ == finished_line(
                    header_row_spec(self.columns@, *config, 0),
                    self.term_width as int,
                ),
                rows@[1]@ == finished_line(
                    unit_row_spec(self.columns@, *config, 0),
                    self.term_width as int,
                ),
                forall|vv: int|
                    0 <= vv < v ==> (#[trigger] rows@[vv + 2])@ == finished_line(
                        content_row_spec(
                            self.columns@,
                            *config,
                            self.visible_pids@[vv],
                            self.auxiliary_pids@.contains(self.visible_pids@[vv]),
                            0,
                        ),
                        self.term_width as int,
                    ),
            decreases self.visible_pids@.len() - v,
        {
            let pid: i32 = self.visible_pids[v];
            let auxiliary: bool = contains_i32(&self.auxiliary_pids, pid);
            let line: String = self.display_content(config, pid, auxiliary);
            rows.push(line);
            v = v + 1;
        }
        (DisplayPlan { use_pager, color_action, truncate }, rows)
    }

    /// Chooses the pager command: the configured command if any, else
    /// `less -SR` when `less` is available on the system, else `more -f`.
    /// Probing the system for `less` is the caller's work.
    pub fn pager(config: &Config, less_available: bool) -> (r: String)
        ensures
            match config.pager.command {
                Some(c) => r@ == c@,
                None => r@ == if less_available {
                    "less -SR"@
                } else {
                    "more -f"@
                },
            },
    {
        match &config.pager.command {
            Some(c) => c.clone(),
            None => {
                if less_available {
                    "less -SR".to_owned()
                } else {
                    "more -f".to_owned()
                }
            },
        }
    }
}


/// With no keywords, the self pid hidden, and neither tree nor watch mode,
/// filtering passes the base ordering through untouched but for the self
/// pid: exactly `sorted_pids` without `self_pid`, in sort order.
pub proof fn lemma_empty_keyword_passthrough(v: View, opt: Opt, config: Config, self_pid: i32)
    requires
        opt.keyword@.len() == 0,
        !config.display.show_self,
        !opt.tree,
        !opt.watch_mode,
    ensures
        v.spec_visible(opt, config, self_pid) == v.spec_base_order().filter(
            |p: i32| p != self_pid,
        ),
{
    let sel = |p: i32| v.spec_selected(opt, config, self_pid, p);
    let noself = |p: i32| p != self_pid;
    assert forall|p: i32| #[trigger] sel(p) == noself(p) by {
        assert(opt.keyword.deep_view().len() == 0);
    }
    lemma_filter_congruent(v.spec_base_order(), sel, noself);
}

/// In watch mode with more matching pids than the terminal holds, exactly
/// `height - 5` pids are visible, the first of the matches in sort order;
/// outside tree mode the auxiliary set plays no part.
pub proof fn lemma_watch_truncation(v: View, opt: Opt, config: Config, self_pid: i32)
    requires
        opt.watch_mode,
        !opt.tree,
        v.term_height >= 5,
        v.spec_candidates(opt, config, self_pid).len() > v.term_height - 5,
    ensures
        v.spec_visible(opt, config, self_pid) == v.spec_candidates(opt, config, self_pid).take(
            v.term_height - 5,
        ),
        v.spec_visible(opt, config, self_pid).len() == v.term_height - 5,
{
    let sel = |p: i32| v.spec_selected(opt, config, self_pid, p);
    let cand = |p: i32| v.spec_is_candidate(opt, config, self_pid, p);
    assert forall|p: i32| #[trigger] sel(p) == cand(p) by {}
    lemma_filter_congruent(v.spec_base_order(), sel, cand);
}

/// The parent map never leads out of `s`.
pub open spec fn succ_closed(m: Seq<(i32, i32)>, s: Set<i32>) -> bool {
    forall|z: i32|
        #[trigger] s.contains(z) && ppid_lookup(m, z) is Some ==> s.contains(
            ppid_lookup(m, z)->0,
        )
}

/// Every step out of `seen` lands on the walked chain.
pub open spec fn escape_closed(m: Seq<(i32, i32)>, c: i32, seen: Set<i32>) -> bool {
    seen.contains(c) && forall|z: i32|
        #[trigger] seen.contains(z) && ppid_lookup(m, z) is Some ==> seen.contains(
            ppid_lookup(m, z)->0,
        ) || ancestor_chain(m, c, seen).contains(ppid_lookup(m, z)->0)
}

proof fn lemma_chain_stays_in_closed(m: Seq<(i32, i32)>, y: i32, seenv: Set<i32>, s: Set<i32>)
    requires
        seenv.finite(),
        succ_closed(m, s),
        s.contains(y),
    ensures
        forall|q: i32| #[trigger] ancestor_chain(m, y, seenv).contains(q) ==> s.contains(q),
    decreases
            parent_keys(m).difference(seenv).len(),
            (if ppid_lookup(m, y) is Some {
                1int
            } else {
                0int
            }),
{
    lemma_parent_keys_finite(m);
    match ppid_lookup(m, y) {
        None => {},
        Some(p) => {
            if !seenv.contains(p) {
                assert(s.contains(p));
                {
                    if parent_keys(m).contains(p) {
                        assert(parent_keys(m).difference(seenv.insert(p)) =~= parent_keys(
                            m,
                        ).difference(seenv).remove(p));
                        assert(parent_keys(m).difference(seenv).contains(p));
                    } else {
                        assert(parent_keys(m).difference(seenv.insert(p)) =~= parent_keys(
                            m,
                        ).difference(seenv));
                        if ppid_lookup(m, p) is Some {
                            lemma_lookup_in_keys(m, p);
                        }
                    }
                }
                lemma_chain_stays_in_closed(m, p, seenv.insert(p), s);
                let chain = ancestor_chain(m, y, seenv);
                let rest = ancestor_chain(m, p, seenv.insert(p));
                assert(chain == seq![p] + rest);
                assert forall|q: i32| #[trigger] chain.contains(q) implies s.contains(q) by {
                    let w = choose|w: int| 0 <= w < chain.len() && chain[w] == q;
                    if w == 0 {
                        assert(q == p);
                    } else {
                        assert(rest[w - 1] == q);
                        assert(rest.contains(q));
                    }
                }
            }
        },
    }
}

proof fn lemma_chain_escape(m: Seq<(i32, i32)>, c: i32, seen: Set<i32>)
    requires
        seen.finite(),
        escape_closed(m, c, seen),
    ensures
        forall|y: i32, q: i32|
            #![trigger ancestor_chain(m, y, Set::empty().insert(y)).contains(q)]
            (seen.contains(y) || ancestor_chain(m, c, seen).contains(y)) && ancestor_chain(
                m,
                y,
                Set::empty().insert(y),
            ).contains(q) ==> seen.contains(q) || ancestor_chain(m, c, seen).contains(q),
    decreases
            parent_keys(m).difference(seen).len(),
            (if ppid_lookup(m, c) is Some {
                1int
            } else {
                0int
            }),
{
    lemma_parent_keys_finite(m);
    let chain = ancestor_chain(m, c, seen);
    let stopped = match ppid_lookup(m, c) {
        None => true,
        Some(p) => seen.contains(p),
    };
    if stopped {
        assert(chain =~= Seq::<i32>::empty());
        assert(succ_closed(m, seen));
        assert forall|y: i32, q: i32|
            #![trigger ancestor_chain(m, y, Set::empty().insert(y)).contains(q)]
            (seen.contains(y) || chain.contains(y)) && ancestor_chain(
                m,
                y,
                Set::empty().insert(y),
            ).contains(q) implies seen.contains(q) || chain.contains(q) by {
            if seen.contains(y) {
                lemma_chain_stays_in_closed(m, y, Set::empty().insert(y), seen);
            }
        }
    } else {
        let p = ppid_lookup(m, c)->0;
        let seen2 = seen.insert(p);
        let rest = ancestor_chain(m, p, seen2);
        assert(chain == seq![p] + rest);
        assert forall|q: i32| #[trigger] rest.contains(q) implies chain.contains(q) by {
            let w = choose|w: int| 0 <= w < rest.len() && rest[w] == q;
            assert(chain[w + 1] == q);
        }
        assert(chain.contains(p)) by {
            assert(chain[0] == p);
        }
        assert(escape_closed(m, p, seen2)) by {
            assert forall|z: i32|
                #[trigger] seen2.contains(z) && ppid_lookup(m, z) is Some implies seen2.contains(
                ppid_lookup(m, z)->0,
            ) || rest.contains(ppid_lookup(m, z)->0) by {
                let v2 = ppid_lookup(m, z)->0;
                if z == p {
                    if !seen2.contains(v2) {
                        assert(rest == seq![v2] + ancestor_chain(m, v2, seen2.insert(v2)));
                        assert(rest[0] == v2);
                        assert(rest.contains(v2));
                    }
                } else {
                    assert(seen.contains(z));
                    assert(seen.contains(v2) || chain.contains(v2));
                    if !seen2.contains(v2) && chain.contains(v2) {
                        let w = choose|w: int| 0 <= w < chain.len() && chain[w] == v2;
                        if w == 0 {
                            assert(v2 == p);
                        } else {
                            assert(rest[w - 1] == v2);
                            assert(rest.contains(v2));
                        }
                    }
                }
            }
        }
        {
            if parent_keys(m).contains(p) {
                assert(parent_keys(m).difference(seen2) =~= parent_keys(m).difference(
                    seen,
                ).remove(p));
                assert(parent_keys(m).difference(seen).contains(p));
            } else {
                assert(parent_keys(m).difference(seen2) =~= parent_keys(m).difference(seen));
                if ppid_lookup(m, p) is Some {
                    lemma_lookup_in_keys(m, p);
                }
            }
        }
        lemma_chain_escape(m, p, seen2);
        assert forall|y: i32, q: i32|
            #![trigger ancestor_chain(m, y, Set::empty().insert(y)).contains(q)]
            (seen.contains(y) || chain.contains(y)) && ancestor_chain(
                m,
                y,
                Set::empty().insert(y),
            ).contains(q) implies seen.contains(q) || chain.contains(q) by {
            if (seen.contains(y) || chain.contains(y)) && ancestor_chain(
                m,
                y,
                Set::empty().insert(y),
            ).contains(q) {
                if chain.contains(y) {
                    let w = choose|w: int| 0 <= w < chain.len() && chain[w] == y;
                    if w == 0 {
                        assert(y == p);
                        assert(seen2.contains(y));
                    } else {
                        assert(rest[w - 1] == y);
                        assert(rest.contains(y));
                    }
                }
                assert(seen2.contains(y) || rest.contains(y));
                assert(seen2.contains(q) || rest.contains(q));
                if seen2.contains(q) && !seen.contains(q) {
                    assert(q == p);
                    assert(chain.contains(q));
                }
            }
        }
    }
}

/// The auxiliary closure is sound and stable: it never holds a candidate,
/// and closing the already-extended set (candidates plus their auxiliary
/// pids) a second time yields nothing new — the auxiliary set of the
/// extended set is empty.
pub proof fn lemma_ancestor_closure_idempotent(m: Seq<(i32, i32)>, cs: Set<i32>)
    ensures
        forall|p: i32| !(#[trigger] aux_closure_set(m, cs).contains(p) && cs.contains(p)),
        aux_closure_set(m, cs.union(aux_closure_set(m, cs))) =~= Set::<i32>::empty(),
{
    let aux = aux_closure_set(m, cs);
    let e = cs.union(aux);
    assert forall|p: i32| !(#[trigger] aux_closure_set(m, e).contains(p)) by {
        if aux_closure_set(m, e).contains(p) {
            let c = choose|c: i32| e.contains(c) && chain_from(m, c).contains(p);
            if cs.contains(c) {
                assert(aux.contains(p) || cs.contains(p));
                assert(e.contains(p));
            } else {
                assert(aux.contains(c));
                let c0 = choose|c0: i32| cs.contains(c0) && chain_from(m, c0).contains(c);
                let seen0 = Set::<i32>::empty().insert(c0);
                let chain0 = ancestor_chain(m, c0, seen0);
                assert(escape_closed(m, c0, seen0)) by {
                    assert forall|z: i32|
                        #[trigger] seen0.contains(z) && ppid_lookup(m, z) is Some implies
                        seen0.contains(ppid_lookup(m, z)->0) || chain0.contains(
                        ppid_lookup(m, z)->0,
                    ) by {
                        let v2 = ppid_lookup(m, z)->0;
                        assert(z == c0);
                        if !seen0.contains(v2) {
                            assert(chain0 == seq![v2] + ancestor_chain(
                                m,
                                v2,
                                seen0.insert(v2),
                            ));
                            assert(chain0[0] == v2);
                            assert(chain0.contains(v2));
                        }
                    }
                }
                lemma_chain_escape(m, c0, seen0);
                assert(chain_from(m, c0).contains(c));
                assert(ancestor_chain(m, c, Set::empty().insert(c)).contains(p));
                assert(seen0.contains(p) || chain0.contains(p));
                if seen0.contains(p) {
                    assert(p == c0);
                    assert(cs.contains(p));
                } else {
                    assert(chain_from(m, c0).contains(p));
                    assert(cs.contains(p) || aux.contains(p));
                }
                assert(e.contains(p));
            }
        }
    }
    assert(aux_closure_set(m, e) =~= Set::<i32>::empty());
}

} // verus!
