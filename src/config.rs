//! The layout configuration: modes, positions and per-monitor settings.
use vstd::prelude::*;
pub use crate::document::Error;
use vstd::multiset::Multiset;
use vstd::relations::sorted_by;
use vstd::seq_lib::lemma_sorted_unique;
use crate::document::{
    layout_of, name_field, optional_str_field, str_eq, get_name, extract_optional_str,
    LayoutIn, LayoutSpec, Node,
};
use crate::matcher::same_monitors;
use crate::monitor::{lemma_monitor_order_total, monitor_order, sort_monitors, views, Monitor, MonitorView};

verus! {

/// A position, the top-left corner of an output in the virtual screen.
#[derive(Debug, Clone, Copy, PartialEq, Eq, Structural)]
pub struct Position {
    pub x: i16,
    pub y: i16,
}

/// A monitor mode: a resolution of `w` by `h` pixels.
#[derive(Debug, Clone, Copy, PartialEq, Eq, Structural, Hash)]
pub struct Mode {
    pub w: u16,
    pub h: u16,
}

pub open spec fn max_u16(a: u16, b: u16) -> u16 {
    if a >= b { a } else { b }
}

impl Mode {
    /// The smallest mode that contains both `self` and `other`.
    pub fn union(&self, other: &Self) -> (r: Self)
        ensures
            r.w == max_u16(self.w, other.w),
            r.h == max_u16(self.h, other.h),
    {
        Mode {
            w: if self.w >= other.w { self.w } else { other.w },
            h: if self.h >= other.h { self.h } else { other.h },
        }
    }
}

/// The desired state of one output.
#[derive(Debug, Clone, Copy, PartialEq, Eq, Structural)]
pub struct MonConfig {
    pub mode: Mode,
    pub position: Position,
    pub primary: bool,
}

/// A named layout: the screen size it declares and the settings of each of its monitors.
#[derive(Debug)]
pub struct SingleConfig {
    pub name: String,
    pub fb_size: Mode,
    pub setup: Vec<(Monitor, MonConfig)>,
}

/// The layouts, each keyed by the monitors it expects, in canonical order.
#[derive(Debug)]
pub struct Config {
    pub layouts: Vec<(Vec<Monitor>, SingleConfig)>,
}

/// The monitors that a setup configures, in order.
pub open spec fn setup_keys(s: Seq<(Monitor, MonConfig)>) -> Seq<MonitorView> {
    s.map_values(|p: (Monitor, MonConfig)| p.0@)
}

/// A setup without repeated monitors, as a map.
pub open spec fn setup_map(s: Seq<(Monitor, MonConfig)>) -> Map<MonitorView, MonConfig> {
    Map::new(
        |v: MonitorView| exists|k: int| 0 <= k < s.len() && s[k].0@ == v,
        |v: MonitorView| s[choose|k: int| 0 <= k < s.len() && s[k].0@ == v].1,
    )
}

/// A layout as plain values.
pub struct LayoutView {
    pub name: Seq<char>,
    pub fb_size: Mode,
    pub setup: Map<MonitorView, MonConfig>,
}

impl SingleConfig {
    /// The monitors that the setup configures.
    pub open spec fn setup_monitors(self) -> Seq<MonitorView> {
        setup_keys(self.setup@)
    }
}

impl View for SingleConfig {
    type V = LayoutView;

    open spec fn view(&self) -> LayoutView {
        LayoutView { name: self.name@, fb_size: self.fb_size, setup: setup_map(self.setup@) }
    }
}

impl Config {
    /// The key of layout `i`, as plain values.
    pub open spec fn key(self, i: int) -> Seq<MonitorView> {
        views(self.layouts@[i].0@)
    }

    /// Keys are in canonical order and distinct, and a layout configures only monitors
    /// of its own key, each once.
    pub open spec fn wf(self) -> bool {
        &&& forall|i: int| 0 <= i < self.layouts@.len() ==> sorted_by(#[trigger] self.key(i), monitor_order())
        &&& forall|i: int, j: int|
            0 <= i < j < self.layouts@.len() ==> #[trigger] self.key(i) != #[trigger] self.key(j)
        &&& forall|i: int, k: int|
            0 <= i < self.layouts@.len() && 0 <= k < self.layouts@[i].1.setup@.len()
                ==> #[trigger] self.key(i).contains(#[trigger] self.layouts@[i].1.setup@[k].0@)
        &&& forall|i: int| 0 <= i < self.layouts@.len() ==> (#[trigger] self.layouts@[i].1.setup_monitors()).no_duplicates()
    }

    /// The layouts by the multiset of monitors they expect.
    pub open spec fn layout_map(self) -> Map<Multiset<MonitorView>, LayoutView> {
        Map::new(
            |k: Multiset<MonitorView>| exists|i: int| 0 <= i < self.layouts@.len() && #[trigger] self.key(i).to_multiset() == k,
            |k: Multiset<MonitorView>| self.layouts@[choose|i: int| 0 <= i < self.layouts@.len() && #[trigger] self.key(i).to_multiset() == k].1@,
        )
    }

    /// The layout whose key holds exactly the monitors `mons`, in any order.
    pub open spec fn layout_index(self, mons: Seq<MonitorView>) -> Option<int> {
        if exists|i: int| 0 <= i < self.layouts@.len() && #[trigger] self.key(i).to_multiset() == mons.to_multiset() {
            Some(choose|i: int| 0 <= i < self.layouts@.len() && #[trigger] self.key(i).to_multiset() == mons.to_multiset())
        } else {
            None
        }
    }
}

impl View for Config {
    type V = Map<Multiset<MonitorView>, LayoutView>;

    open spec fn view(&self) -> Map<Multiset<MonitorView>, LayoutView> {
        self.layout_map()
    }
}

/// Distinct keys in canonical order hold distinct multisets of monitors.
pub proof fn lemma_keys_distinct_multisets(c: Config, i: int, j: int)
    requires
        c.wf(),
        0 <= i < c.layouts@.len(),
        0 <= j < c.layouts@.len(),
        c.key(i).to_multiset() == c.key(j).to_multiset(),
    ensures
        i == j,
{
    lemma_monitor_order_total();
    lemma_sorted_unique(c.key(i), c.key(j), monitor_order());
    if i < j {
        assert(c.key(i) != c.key(j));
    } else if j < i {
        assert(c.key(j) != c.key(i));
    }
}

/// The top-level nodes read in order: the layouts, and the monitor definitions by name.
pub open spec fn doc_items(nodes: Seq<Node>) -> Result<(Seq<LayoutSpec>, Seq<(String, Monitor)>), Error>
    decreases nodes.len(),
{
    if nodes.len() == 0 {
        Ok((Seq::empty(), Seq::empty()))
    } else {
        match doc_items(nodes.drop_last()) {
            Err(e) => Err(e),
            Ok((ls, defs)) => {
                let c = nodes.last();
                if c.name@ == "layout"@ {
                    match layout_of(c) {
                        Err(e) => Err(e),
                        Ok(l) => Ok((ls.push(l), defs)),
                    }
                } else if c.name@ == "monitor"@ {
                    match name_field(c, "monitor") {
                        Err(e) => Err(e),
                        Ok(name) => if c.children@.len() > 0 {
                            Err(Error::UnexpectedChildren(name))
                        } else {
                            match optional_str_field(c, "product", "monitor") {
                                Err(e) => Err(e),
                                Ok(product) => match optional_str_field(c, "serial", "monitor") {
                                    Err(e) => Err(e),
                                    Ok(serial) => Ok((ls, defs.push((name, Monitor { product, serial })))),
                                },
                            }
                        },
                    }
                } else {
                    Err(Error::Unexpected(c.name))
                }
            },
        }
    }
}

/// The monitor that the last definition named `name` describes.
pub open spec fn def_of(defs: Seq<(String, Monitor)>, name: Seq<char>) -> Option<MonitorView>
    decreases defs.len(),
{
    if defs.len() == 0 {
        None
    } else if defs.last().0@ == name {
        Some(defs.last().1@)
    } else {
        def_of(defs.drop_last(), name)
    }
}

/// The monitors that a layout's `matches` list names.
pub open spec fn resolve_names(layout: String, names: Seq<String>, defs: Seq<(String, Monitor)>) -> Result<Seq<MonitorView>, Error>
    decreases names.len(),
{
    if names.len() == 0 {
        Ok(Seq::empty())
    } else {
        match resolve_names(layout, names.drop_last(), defs) {
            Err(e) => Err(e),
            Ok(ms) => match def_of(defs, names.last()@) {
                None => Err(Error::UnknownMonitor(layout, names.last())),
                Some(m) => Ok(ms.push(m)),
            },
        }
    }
}

/// A layout's settings by monitor; a later setting of a monitor replaces an earlier one.
/// Every configured monitor must be one the layout matches.
pub open spec fn resolve_setup(
    layout: String,
    key: Seq<MonitorView>,
    entries: Seq<(String, MonConfig)>,
    defs: Seq<(String, Monitor)>,
) -> Result<Map<MonitorView, MonConfig>, Error>
    decreases entries.len(),
{
    if entries.len() == 0 {
        Ok(Map::empty())
    } else {
        match resolve_setup(layout, key, entries.drop_last(), defs) {
            Err(e) => Err(e),
            Ok(m) => match def_of(defs, entries.last().0@) {
                None => Err(Error::UnknownMonitor(layout, entries.last().0)),
                Some(mon) => if !key.contains(mon) {
                    Err(Error::UnmatchedMonitor(layout, entries.last().0))
                } else {
                    Ok(m.insert(mon, entries.last().1))
                },
            },
        }
    }
}

pub open spec fn max_int(a: int, b: int) -> int {
    if a >= b {
        a
    } else {
        b
    }
}

/// The width a layout's settings reach: the largest `x + w`, and at least 0.
pub open spec fn entries_width(entries: Seq<(String, MonConfig)>) -> int
    decreases entries.len(),
{
    if entries.len() == 0 {
        0
    } else {
        let c = entries.last().1;
        max_int(entries_width(entries.drop_last()), c.position.x as int + c.mode.w as int)
    }
}

/// The height a layout's settings reach: the largest `y + h`, and at least 0.
pub open spec fn entries_height(entries: Seq<(String, MonConfig)>) -> int
    decreases entries.len(),
{
    if entries.len() == 0 {
        0
    } else {
        let c = entries.last().1;
        max_int(entries_height(entries.drop_last()), c.position.y as int + c.mode.h as int)
    }
}

/// A layout with its monitor names resolved: its key, and the layout itself.
pub open spec fn resolve_layout(l: LayoutSpec, defs: Seq<(String, Monitor)>) -> Result<(Seq<MonitorView>, LayoutView), Error> {
    match resolve_names(l.name, l.matches, defs) {
        Err(e) => Err(e),
        Ok(key) => match resolve_setup(l.name, key, l.layout, defs) {
            Err(e) => Err(e),
            Ok(setup) => if entries_width(l.layout) > 65535 || entries_height(l.layout) > 65535 {
                Err(Error::LayoutTooLarge(l.name))
            } else {
                Ok(
                    (
                        key,
                        LayoutView {
                            name: l.name@,
                            fb_size: Mode { w: entries_width(l.layout) as u16, h: entries_height(l.layout) as u16 },
                            setup,
                        },
                    ),
                )
            },
        },
    }
}

/// The layouts by the multiset of monitors they match; a later layout for the same
/// monitors replaces an earlier one.
pub open spec fn resolve_layouts(ls: Seq<LayoutSpec>, defs: Seq<(String, Monitor)>) -> Result<Map<Multiset<MonitorView>, LayoutView>, Error>
    decreases ls.len(),
{
    if ls.len() == 0 {
        Ok(Map::empty())
    } else {
        match resolve_layouts(ls.drop_last(), defs) {
            Err(e) => Err(e),
            Ok(m) => match resolve_layout(ls.last(), defs) {
                Err(e) => Err(e),
                Ok((key, lv)) => Ok(m.insert(key.to_multiset(), lv)),
            },
        }
    }
}

/// The configuration that a document describes.
pub open spec fn config_of(nodes: Seq<Node>) -> Result<Map<Multiset<MonitorView>, LayoutView>, Error> {
    match doc_items(nodes) {
        Err(e) => Err(e),
        Ok((ls, defs)) => resolve_layouts(ls, defs),
    }
}

proof fn lemma_items_error_sticks(nodes: Seq<Node>, n: int)
    requires
        0 <= n <= nodes.len(),
        doc_items(nodes.take(n)) is Err,
    ensures
        doc_items(nodes) == doc_items(nodes.take(n)),
    decreases nodes.len() - n,
{
    if n < nodes.len() {
        assert(nodes.take(n + 1).drop_last() =~= nodes.take(n));
        lemma_items_error_sticks(nodes, n + 1);
    } else {
        assert(nodes.take(n) =~= nodes);
    }
}

proof fn lemma_names_error_sticks(layout: String, names: Seq<String>, defs: Seq<(String, Monitor)>, n: int)
    requires
        0 <= n <= names.len(),
        resolve_names(layout, names.take(n), defs) is Err,
    ensures
        resolve_names(layout, names, defs) == resolve_names(layout, names.take(n), defs),
    decreases names.len() - n,
{
    if n < names.len() {
        assert(names.take(n + 1).drop_last() =~= names.take(n));
        lemma_names_error_sticks(layout, names, defs, n + 1);
    } else {
        assert(names.take(n) =~= names);
    }
}

proof fn lemma_setup_error_sticks(
    layout: String,
    key: Seq<MonitorView>,
    entries: Seq<(String, MonConfig)>,
    defs: Seq<(String, Monitor)>,
    n: int,
)
    requires
        0 <= n <= entries.len(),
        resolve_setup(layout, key, entries.take(n), defs) is Err,
    ensures
        resolve_setup(layout, key, entries, defs) == resolve_setup(layout, key, entries.take(n), defs),
    decreases entries.len() - n,
{
    if n < entries.len() {
        assert(entries.take(n + 1).drop_last() =~= entries.take(n));
        lemma_setup_error_sticks(layout, key, entries, defs, n + 1);
    } else {
        assert(entries.take(n) =~= entries);
    }
}

proof fn lemma_layouts_error_sticks(ls: Seq<LayoutSpec>, defs: Seq<(String, Monitor)>, n: int)
    requires
        0 <= n <= ls.len(),
        resolve_layouts(ls.take(n), defs) is Err,
    ensures
        resolve_layouts(ls, defs) == resolve_layouts(ls.take(n), defs),
    decreases ls.len() - n,
{
    if n < ls.len() {
        assert(ls.take(n + 1).drop_last() =~= ls.take(n));
        lemma_layouts_error_sticks(ls, defs, n + 1);
    } else {
        assert(ls.take(n) =~= ls);
    }
}

pub open spec fn layout_specs(ls: Seq<LayoutIn>) -> Seq<LayoutSpec> {
    ls.map_values(|l: LayoutIn| l@)
}

fn read_items(nodes: &Vec<Node>) -> (r: Result<(Vec<LayoutIn>, Vec<(String, Monitor)>), Error>)
    ensures
        match r {
            Ok((ls, defs)) => doc_items(nodes@) == Ok::<(Seq<LayoutSpec>, Seq<(String, Monitor)>), Error>(
                (layout_specs(ls@), defs@),
            ),
            Err(e) => doc_items(nodes@) == Err::<(Seq<LayoutSpec>, Seq<(String, Monitor)>), Error>(e),
        },
{
    proof {
        reveal_strlit("layout");
        reveal_strlit("monitor");
    }
    let mut ls: Vec<LayoutIn> = Vec::new();
    let mut defs: Vec<(String, Monitor)> = Vec::new();
    let mut i: usize = 0;
    assert(nodes@.take(0) =~= Seq::<Node>::empty());
    assert(layout_specs(ls@) =~= Seq::<LayoutSpec>::empty());
    while i < nodes.len()
        invariant
            0 <= i <= nodes@.len(),
            doc_items(nodes@.take(i as int)) == Ok::<(Seq<LayoutSpec>, Seq<(String, Monitor)>), Error>(
                (layout_specs(ls@), defs@),
            ),
        decreases nodes@.len() - i,
    {
        let ghost ns = nodes@;
        assert(ns.take(i + 1).drop_last() =~= ns.take(i as int));
        assert(ns.take(i + 1).last() == ns[i as int]);
        let c = &nodes[i];
        if str_eq(c.name.as_str(), "layout") {
            match LayoutIn::from_node(c) {
                Ok(l) => {
                    let ghost before = ls@;
                    ls.push(l);
                    assert(layout_specs(ls@) =~= layout_specs(before).push(l@));
                },
                Err(e) => {
                    proof {
                        lemma_items_error_sticks(ns, i + 1);
                    }
                    return Err(e);
                },
            }
        } else if str_eq(c.name.as_str(), "monitor") {
            let res = get_name(c, "monitor");
            let name = match res {
                Ok(name) => name,
                Err(e) => {
                    proof {
                        lemma_items_error_sticks(ns, i + 1);
                    }
                    return Err(e);
                },
            };
            if c.children.len() > 0 {
                proof {
                    lemma_items_error_sticks(ns, i + 1);
                }
                return Err(Error::UnexpectedChildren(name));
            }
            let product = match extract_optional_str(c, "product", "monitor") {
                Ok(p) => p,
                Err(e) => {
                    proof {
                        lemma_items_error_sticks(ns, i + 1);
                    }
                    return Err(e);
                },
            };
            let serial = match extract_optional_str(c, "serial", "monitor") {
                Ok(p) => p,
                Err(e) => {
                    proof {
                        lemma_items_error_sticks(ns, i + 1);
                    }
                    return Err(e);
                },
            };
            defs.push((name, Monitor { product, serial }));
        } else {
            proof {
                lemma_items_error_sticks(ns, i + 1);
            }
            return Err(Error::Unexpected(c.name.clone()));
        }
        i += 1;
    }
    assert(nodes@.take(i as int) =~= nodes@);
    Ok((ls, defs))
}

fn find_def(defs: &Vec<(String, Monitor)>, name: &String) -> (r: Option<Monitor>)
    ensures
        match r {
            Some(m) => def_of(defs@, name@) == Some(m@),
            None => def_of(defs@, name@) is None,
        },
{
    let mut found: Option<Monitor> = None;
    let mut i: usize = 0;
    while i < defs.len()
        invariant
            0 <= i <= defs@.len(),
            match found {
                Some(m) => def_of(defs@.take(i as int), name@) == Some(m@),
                None => def_of(defs@.take(i as int), name@) is None,
            },
        decreases defs@.len() - i,
    {
        assert(defs@.take(i + 1).drop_last() =~= defs@.take(i as int));
        if defs[i].0 == *name {
            found = Some(defs[i].1.copy());
        }
        i += 1;
    }
    assert(defs@.take(i as int) =~= defs@);
    found
}

fn resolve_key(layout: &LayoutIn, defs: &Vec<(String, Monitor)>) -> (r: Result<Vec<Monitor>, Error>)
    ensures
        match r {
            Ok(k) => resolve_names(layout.name, layout.matches@, defs@) == Ok::<Seq<MonitorView>, Error>(views(k@)),
            Err(e) => resolve_names(layout.name, layout.matches@, defs@) == Err::<Seq<MonitorView>, Error>(e),
        },
{
    let mut key: Vec<Monitor> = Vec::new();
    let mut i: usize = 0;
    assert(layout.matches@.take(0) =~= Seq::<String>::empty());
    assert(views(key@) =~= Seq::<MonitorView>::empty());
    while i < layout.matches.len()
        invariant
            0 <= i <= layout.matches@.len(),
            resolve_names(layout.name, layout.matches@.take(i as int), defs@) == Ok::<Seq<MonitorView>, Error>(views(key@)),
        decreases layout.matches@.len() - i,
    {
        let ghost names = layout.matches@;
        assert(names.take(i + 1).drop_last() =~= names.take(i as int));
        assert(names.take(i + 1).last() == names[i as int]);
        match find_def(defs, &layout.matches[i]) {
            Some(m) => {
                let ghost before = key@;
                key.push(m);
                assert(views(key@) =~= views(before).push(m@));
            },
            None => {
                proof {
                    lemma_names_error_sticks(layout.name, names, defs@, i + 1);
                }
                return Err(Error::UnknownMonitor(layout.name.clone(), layout.matches[i].clone()));
            },
        }
        i += 1;
    }
    assert(layout.matches@.take(i as int) =~= layout.matches@);
    Ok(key)
}

/// Sets monitor `m` to `c` in a setup, replacing an earlier setting of it.
fn insert_setting(setup: &mut Vec<(Monitor, MonConfig)>, m: Monitor, c: MonConfig)
    requires
        setup_keys(old(setup)@).no_duplicates(),
    ensures
        setup_keys(final(setup)@).no_duplicates(),
        setup_map(final(setup)@) == setup_map(old(setup)@).insert(m@, c),
        forall|v: MonitorView|
            setup_keys(final(setup)@).contains(v) <==> (setup_keys(old(setup)@).contains(v) || v == m@),
{
    let ghost old_s = setup@;
    let ghost mv = m@;
    let mut i: usize = 0;
    while i < setup.len()
        invariant
            setup@ == old_s,
            old_s == old(setup)@,
            mv == m@,
            setup_keys(old_s).no_duplicates(),
            0 <= i <= setup@.len(),
            forall|j: int| 0 <= j < i ==> setup@[j].0@ != mv,
        decreases setup@.len() - i,
    {
        let found = setup[i].0.same(&m);
        if found {
            setup.set(i, (m, c));
            let ghost new_s = setup@;
            assert(setup_keys(new_s) =~= setup_keys(old_s));
            assert(setup_keys(old_s)[i as int] == mv);
            assert(setup_map(new_s) =~= setup_map(old_s).insert(mv, c)) by {
                assert forall|v: MonitorView| #[trigger] setup_map(new_s).contains_key(v) implies setup_map(new_s)[v]
                    == setup_map(old_s).insert(mv, c)[v] by {
                    assert(exists|k: int| 0 <= k < new_s.len() && new_s[k].0@ == v);
                    let k1 = choose|k: int| 0 <= k < new_s.len() && new_s[k].0@ == v;
                    assert(new_s[i as int].0@ == mv);
                    if v == mv {
                        assert(setup_keys(new_s)[k1] == setup_keys(new_s)[i as int]);
                    } else {
                        let k2 = choose|k: int| 0 <= k < old_s.len() && old_s[k].0@ == v;
                        assert(setup_keys(old_s)[k1] == setup_keys(old_s)[k2]);
                    }
                }
                assert forall|v: MonitorView| #[trigger] setup_map(old_s).insert(mv, c).contains_key(v) implies setup_map(
                    new_s,
                ).contains_key(v) by {
                    if v == mv {
                        assert(new_s[i as int].0@ == v);
                    } else {
                        let k2 = choose|k: int| 0 <= k < old_s.len() && old_s[k].0@ == v;
                        assert(new_s[k2].0@ == v);
                    }
                }
            }
            return;
        }
        assert(setup@[i as int].0@ != mv);
        i += 1;
    }
    setup.push((m, c));
    let ghost new_s = setup@;
    assert(setup_keys(new_s) =~= setup_keys(old_s).push(mv));
    assert forall|a: int, b: int| 0 <= a < setup_keys(new_s).len() && 0 <= b < setup_keys(new_s).len() && a != b implies setup_keys(new_s)[a] != setup_keys(new_s)[b] by {
        if a < old_s.len() && b < old_s.len() {
            assert(setup_keys(old_s)[a] != setup_keys(old_s)[b]);
        } else if a < old_s.len() {
            assert(old_s[a].0@ != mv);
        } else if b < old_s.len() {
            assert(old_s[b].0@ != mv);
        }
    }
    assert(setup_map(new_s) =~= setup_map(old_s).insert(mv, c)) by {
        assert forall|v: MonitorView| #[trigger] setup_map(new_s).contains_key(v) implies setup_map(new_s)[v]
            == setup_map(old_s).insert(mv, c)[v] by {
            let k1 = choose|k: int| 0 <= k < new_s.len() && new_s[k].0@ == v;
            if v == mv {
                assert(setup_keys(new_s)[k1] == setup_keys(new_s)[old_s.len() as int]);
            } else {
                let k2 = choose|k: int| 0 <= k < old_s.len() && old_s[k].0@ == v;
                assert(setup_keys(new_s)[k1] == setup_keys(new_s)[k2]);
            }
        }
        assert forall|v: MonitorView| #[trigger] setup_map(old_s).insert(mv, c).contains_key(v) implies setup_map(
            new_s,
        ).contains_key(v) by {
            if v == mv {
                assert(new_s[old_s.len() as int].0@ == v);
            } else {
                let k2 = choose|k: int| 0 <= k < old_s.len() && old_s[k].0@ == v;
                assert(new_s[k2].0@ == v);
            }
        }
    }
    assert forall|v: MonitorView|
        setup_keys(new_s).contains(v) <==> (setup_keys(old_s).contains(v) || v == mv) by {
        if setup_keys(old_s).contains(v) {
            let k = choose|k: int| 0 <= k < setup_keys(old_s).len() && setup_keys(old_s)[k] == v;
            assert(setup_keys(new_s)[k] == v);
        }
        if v == mv {
            assert(setup_keys(new_s)[old_s.len() as int] == v);
        }
    }
}

fn key_contains(key: &Vec<Monitor>, m: &Monitor) -> (r: bool)
    ensures
        r == views(key@).contains(m@),
{
    let mut i: usize = 0;
    while i < key.len()
        invariant
            0 <= i <= key@.len(),
            forall|j: int| 0 <= j < i ==> key@[j]@ != m@,
        decreases key@.len() - i,
    {
        if key[i].same(m) {
            assert(views(key@)[i as int] == m@);
            return true;
        }
        i += 1;
    }
    assert forall|j: int| 0 <= j < views(key@).len() implies views(key@)[j] != m@ by {
        assert(views(key@)[j] == key@[j]@);
    }
    false
}

fn resolve_settings(layout: &LayoutIn, key: &Vec<Monitor>, defs: &Vec<(String, Monitor)>) -> (r: Result<Vec<(Monitor, MonConfig)>, Error>)
    ensures
        match r {
            Ok(s) => {
                &&& resolve_setup(layout.name, views(key@), layout.layout@, defs@) == Ok::<Map<MonitorView, MonConfig>, Error>(setup_map(s@))
                &&& setup_keys(s@).no_duplicates()
                &&& forall|k: int| 0 <= k < s@.len() ==> views(key@).contains(#[trigger] s@[k].0@)
            },
            Err(e) => resolve_setup(layout.name, views(key@), layout.layout@, defs@) == Err::<Map<MonitorView, MonConfig>, Error>(e),
        },
{
    let mut setup: Vec<(Monitor, MonConfig)> = Vec::new();
    let mut i: usize = 0;
    assert(layout.layout@.take(0) =~= Seq::<(String, MonConfig)>::empty());
    assert(setup_map(setup@) =~= Map::<MonitorView, MonConfig>::empty());
    while i < layout.layout.len()
        invariant
            0 <= i <= layout.layout@.len(),
            resolve_setup(layout.name, views(key@), layout.layout@.take(i as int), defs@) == Ok::<Map<MonitorView, MonConfig>, Error>(setup_map(setup@)),
            setup_keys(setup@).no_duplicates(),
            forall|k: int| 0 <= k < setup@.len() ==> views(key@).contains(#[trigger] setup@[k].0@),
        decreases layout.layout@.len() - i,
    {
        let ghost es = layout.layout@;
        assert(es.take(i + 1).drop_last() =~= es.take(i as int));
        assert(es.take(i + 1).last() == es[i as int]);
        let entry = &layout.layout[i];
        match find_def(defs, &entry.0) {
            None => {
                proof {
                    lemma_setup_error_sticks(layout.name, views(key@), es, defs@, i + 1);
                }
                return Err(Error::UnknownMonitor(layout.name.clone(), entry.0.clone()));
            },
            Some(m) => {
                if !key_contains(key, &m) {
                    proof {
                        lemma_setup_error_sticks(layout.name, views(key@), es, defs@, i + 1);
                    }
                    return Err(Error::UnmatchedMonitor(layout.name.clone(), entry.0.clone()));
                }
                let ghost before = setup@;
                let ghost mv = m@;
                insert_setting(&mut setup, m, entry.1);
                assert forall|k: int| 0 <= k < setup@.len() implies views(key@).contains(#[trigger] setup@[k].0@) by {
                    assert(setup_keys(setup@).contains(setup_keys(setup@)[k]));
                    if setup_keys(before).contains(setup@[k].0@) {
                        let j = choose|j: int| 0 <= j < setup_keys(before).len() && setup_keys(before)[j] == setup@[k].0@;
                        assert(views(key@).contains(before[j].0@));
                    }
                }
            },
        }
        i += 1;
    }
    assert(layout.layout@.take(i as int) =~= layout.layout@);
    Ok(setup)
}

fn layout_extent(entries: &Vec<(String, MonConfig)>) -> (r: (i32, i32))
    ensures
        r.0 as int == entries_width(entries@),
        r.1 as int == entries_height(entries@),
        0 <= r.0 && 0 <= r.1,
{
    let mut w: i32 = 0;
    let mut h: i32 = 0;
    let mut i: usize = 0;
    assert(entries@.take(0) =~= Seq::<(String, MonConfig)>::empty());
    while i < entries.len()
        invariant
            0 <= i <= entries@.len(),
            w as int == entries_width(entries@.take(i as int)),
            h as int == entries_height(entries@.take(i as int)),
            0 <= w <= 98302,
            0 <= h <= 98302,
        decreases entries@.len() - i,
    {
        assert(entries@.take(i + 1).drop_last() =~= entries@.take(i as int));
        assert(entries@.take(i + 1).last() == entries@[i as int]);
        let c = entries[i].1;
        let ew = c.position.x as i32 + c.mode.w as i32;
        let eh = c.position.y as i32 + c.mode.h as i32;
        if ew > w {
            w = ew;
        }
        if eh > h {
            h = eh;
        }
        i += 1;
    }
    assert(entries@.take(i as int) =~= entries@);
    (w, h)
}

/// Adds a layout under `key`, replacing a layout with the same monitors.
fn insert_layout(config: &mut Config, key: Vec<Monitor>, layout: SingleConfig)
    requires
        old(config).wf(),
        sorted_by(views(key@), monitor_order()),
        setup_keys(layout.setup@).no_duplicates(),
        forall|k: int| 0 <= k < layout.setup@.len() ==> views(key@).contains(#[trigger] layout.setup@[k].0@),
    ensures
        final(config).wf(),
        final(config).layout_map() == old(config).layout_map().insert(views(key@).to_multiset(), layout@),
{
    let ghost old_c = *config;
    let ghost kv = views(key@);
    let ghost lv = layout@;
    let mut i: usize = 0;
    while i < config.layouts.len()
        invariant
            *config == old_c,
            old_c == *old(config),
            old_c.wf(),
            kv == views(key@),
            lv == layout@,
            sorted_by(kv, monitor_order()),
            setup_keys(layout.setup@).no_duplicates(),
            forall|k: int| 0 <= k < layout.setup@.len() ==> kv.contains(#[trigger] layout.setup@[k].0@),
            0 <= i <= config.layouts@.len(),
            forall|j: int| 0 <= j < i ==> old_c.key(j) != kv,
        decreases config.layouts@.len() - i,
    {
        if same_monitors(&config.layouts[i].0, &key) {
            config.layouts.set(i, (key, layout));
            let ghost new_c = *config;
            assert forall|j: int| 0 <= j < new_c.layouts@.len() implies new_c.key(j) == old_c.key(j) by {}
            assert(new_c.wf());
            assert(new_c.layout_map() =~= old_c.layout_map().insert(kv.to_multiset(), lv)) by {
                assert forall|k: Multiset<MonitorView>| #[trigger] new_c.layout_map().contains_key(k) implies new_c.layout_map()[k]
                    == old_c.layout_map().insert(kv.to_multiset(), lv)[k] by {
                    let j1 = choose|j: int| 0 <= j < new_c.layouts@.len() && #[trigger] new_c.key(j).to_multiset() == k;
                    if k == kv.to_multiset() {
                        lemma_keys_distinct_multisets(new_c, j1, i as int);
                    } else {
                        let j2 = choose|j: int| 0 <= j < old_c.layouts@.len() && #[trigger] old_c.key(j).to_multiset() == k;
                        assert(old_c.key(j1).to_multiset() == k);
                        lemma_keys_distinct_multisets(old_c, j1, j2);
                    }
                }
                assert forall|k: Multiset<MonitorView>| #[trigger] old_c.layout_map().insert(kv.to_multiset(), lv).contains_key(k)
                    implies new_c.layout_map().contains_key(k) by {
                    if k == kv.to_multiset() {
                        assert(new_c.key(i as int).to_multiset() == k);
                    } else {
                        let j2 = choose|j: int| 0 <= j < old_c.layouts@.len() && #[trigger] old_c.key(j).to_multiset() == k;
                        assert(new_c.key(j2).to_multiset() == k);
                    }
                }
            }
            return;
        }
        i += 1;
    }
    config.layouts.push((key, layout));
    let ghost new_c = *config;
    let ghost n = old_c.layouts@.len() as int;
    assert(new_c.key(n) == kv);
    assert forall|j: int| 0 <= j < n implies new_c.key(j) == old_c.key(j) by {}
    assert(new_c.wf()) by {
        assert forall|a: int, b: int| 0 <= a < b < new_c.layouts@.len() implies #[trigger] new_c.key(a) != #[trigger] new_c.key(b) by {
            if b < n {
                assert(old_c.key(a) != old_c.key(b));
            }
        }
    }
    assert(new_c.layout_map() =~= old_c.layout_map().insert(kv.to_multiset(), lv)) by {
        assert forall|k: Multiset<MonitorView>| #[trigger] new_c.layout_map().contains_key(k) implies new_c.layout_map()[k]
            == old_c.layout_map().insert(kv.to_multiset(), lv)[k] by {
            let j1 = choose|j: int| 0 <= j < new_c.layouts@.len() && #[trigger] new_c.key(j).to_multiset() == k;
            if k == kv.to_multiset() {
                lemma_keys_distinct_multisets(new_c, j1, n);
            } else {
                let j2 = choose|j: int| 0 <= j < old_c.layouts@.len() && #[trigger] old_c.key(j).to_multiset() == k;
                assert(new_c.key(j2).to_multiset() == k);
                lemma_keys_distinct_multisets(new_c, j1, j2);
            }
        }
        assert forall|k: Multiset<MonitorView>| #[trigger] old_c.layout_map().insert(kv.to_multiset(), lv).contains_key(k)
            implies new_c.layout_map().contains_key(k) by {
            if k == kv.to_multiset() {
                assert(new_c.key(n).to_multiset() == k);
            } else {
                let j2 = choose|j: int| 0 <= j < old_c.layouts@.len() && #[trigger] old_c.key(j).to_multiset() == k;
                assert(new_c.key(j2).to_multiset() == k);
            }
        }
    }
}

impl Config {
    /// Reads a configuration document: `monitor` nodes name monitor identities, and
    /// `layout` nodes give, for the monitors they match, each monitor's settings.
    pub fn from_nodes(nodes: &Vec<Node>) -> (r: Result<Config, Error>)
        ensures
            match r {
                Ok(c) => c.wf() && config_of(nodes@) == Ok::<Map<Multiset<MonitorView>, LayoutView>, Error>(c.layout_map()),
                Err(e) => config_of(nodes@) == Err::<Map<Multiset<MonitorView>, LayoutView>, Error>(e),
            },
    {
        broadcast use vstd::seq_lib::group_to_multiset_ensures;

        let (ls, defs) = match read_items(nodes) {
            Ok(x) => x,
            Err(e) => return Err(e),
        };
        let ghost specs = layout_specs(ls@);
        let mut config = Config { layouts: Vec::new() };
        assert(config.layout_map() =~= Map::<Multiset<MonitorView>, LayoutView>::empty());
        assert(specs.take(0) =~= Seq::<LayoutSpec>::empty());
        let mut i: usize = 0;
        while i < ls.len()
            invariant
                0 <= i <= ls@.len(),
                specs == layout_specs(ls@),
                doc_items(nodes@) == Ok::<(Seq<LayoutSpec>, Seq<(String, Monitor)>), Error>((specs, defs@)),
                config.wf(),
                resolve_layouts(specs.take(i as int), defs@) == Ok::<Map<Multiset<MonitorView>, LayoutView>, Error>(config.layout_map()),
            decreases ls@.len() - i,
        {
            assert(specs.take(i + 1).drop_last() =~= specs.take(i as int));
            assert(specs.take(i + 1).last() == ls@[i as int]@);
            let l = &ls[i];
            let key = match resolve_key(l, &defs) {
                Ok(k) => k,
                Err(e) => {
                    proof {
                        lemma_layouts_error_sticks(specs, defs@, i + 1);
                    }
                    return Err(e);
                },
            };
            let setup = match resolve_settings(l, &key, &defs) {
                Ok(s) => s,
                Err(e) => {
                    proof {
                        lemma_layouts_error_sticks(specs, defs@, i + 1);
                    }
                    return Err(e);
                },
            };
            let (w, h) = layout_extent(&l.layout);
            if w > 65535 || h > 65535 {
                proof {
                    lemma_layouts_error_sticks(specs, defs@, i + 1);
                }
                return Err(Error::LayoutTooLarge(l.name.clone()));
            }
            let sorted = sort_monitors(&key);
            assert forall|k: int| 0 <= k < setup@.len() implies views(sorted@).contains(#[trigger] setup@[k].0@) by {
                assert(views(key@).contains(setup@[k].0@));
                vstd::seq_lib::to_multiset_contains(views(key@), setup@[k].0@);
                vstd::seq_lib::to_multiset_contains(views(sorted@), setup@[k].0@);
            }
            let single = SingleConfig { name: l.name.clone(), fb_size: Mode { w: w as u16, h: h as u16 }, setup };
            insert_layout(&mut config, sorted, single);
            i += 1;
        }
        assert(specs.take(i as int) =~= specs);
        Ok(config)
    }
}

} // verus!
