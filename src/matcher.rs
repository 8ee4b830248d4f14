//! The monitor-set matcher: finds the layout keyed by exactly the attached monitors
//! and joins its settings to the connectors the monitors are attached on.
use vstd::prelude::*;
use vstd::relations::{sorted_by, total_ordering};
use vstd::seq_lib::lemma_sorted_unique;
use crate::config::{Config, Mode, MonConfig, SingleConfig};
use crate::monitor::{lemma_monitor_order_total, monitor_order, sort_monitors, views, Monitor, MonitorView};
use crate::resources::OutputId;
use crate::search::{first_in, lemma_first_in};

verus! {

/// The layout that matched: its name, its declared screen size, and the desired
/// configuration of each connector whose monitor it lists.
#[derive(Debug)]
pub struct Match {
    pub name: String,
    pub fb_size: Mode,
    pub setup: Vec<(OutputId, MonConfig)>,
}

pub open spec fn monitor_is(v: MonitorView) -> spec_fn((Monitor, MonConfig)) -> bool {
    |p: (Monitor, MonConfig)| p.0@ == v
}

/// The setting a layout gives monitor `v`, if it lists it.
pub open spec fn setting_for(setup: Seq<(Monitor, MonConfig)>, v: MonitorView) -> Option<MonConfig> {
    match first_in(setup, monitor_is(v)) {
        Some(p) => Some(p.1),
        None => None,
    }
}

/// The monitors attached, in connector order.
pub open spec fn attached_monitors(attached: Seq<(OutputId, Monitor)>) -> Seq<MonitorView> {
    attached.map_values(|p: (OutputId, Monitor)| p.1@)
}

/// Each connector whose monitor the layout lists, with that monitor's setting, in
/// connector order; the other connectors are left out.
pub open spec fn join(attached: Seq<(OutputId, Monitor)>, setup: Seq<(Monitor, MonConfig)>) -> Seq<(OutputId, MonConfig)>
    decreases attached.len(),
{
    if attached.len() == 0 {
        Seq::empty()
    } else {
        let rest = join(attached.drop_last(), setup);
        match setting_for(setup, attached.last().1@) {
            Some(c) => rest.push((attached.last().0, c)),
            None => rest,
        }
    }
}

pub(crate) fn same_monitors(a: &Vec<Monitor>, b: &Vec<Monitor>) -> (r: bool)
    ensures
        r == (views(a@) == views(b@)),
{
    if a.len() != b.len() {
        assert(views(a@).len() != views(b@).len());
        return false;
    }
    let mut i: usize = 0;
    while i < a.len()
        invariant
            a@.len() == b@.len(),
            0 <= i <= a@.len(),
            forall|j: int| 0 <= j < i ==> a@[j]@ == b@[j]@,
        decreases a@.len() - i,
    {
        if !a[i].same(&b[i]) {
            assert(views(a@)[i as int] != views(b@)[i as int]);
            return false;
        }
        i += 1;
    }
    assert(views(a@) =~= views(b@));
    true
}

fn find_setting(setup: &Vec<(Monitor, MonConfig)>, m: &Monitor) -> (r: Option<MonConfig>)
    ensures
        r == setting_for(setup@, m@),
{
    let mut i: usize = 0;
    while i < setup.len()
        invariant
            0 <= i <= setup@.len(),
            forall|j: int| 0 <= j < i ==> !monitor_is(m@)(#[trigger] setup@[j]),
        decreases setup@.len() - i,
    {
        if setup[i].0.same(m) {
            proof {
                lemma_first_in(setup@, monitor_is(m@), i as int);
            }
            return Some(setup[i].1);
        }
        i += 1;
    }
    proof {
        lemma_first_in(setup@, monitor_is(m@), i as int);
    }
    None
}

/// Finds the layout keyed by the monitors `monitors`, in any order.
pub fn find_layout(config: &Config, monitors: &Vec<Monitor>) -> (r: Option<usize>)
    requires
        config.wf(),
    ensures
        match r {
            Some(i) => config.layout_index(views(monitors@)) == Some(i as int),
            None => config.layout_index(views(monitors@)) is None,
        },
{
    let sorted = sort_monitors(monitors);
    proof {
        lemma_monitor_order_total();
    }
    let ghost ms = views(monitors@).to_multiset();
    let mut i: usize = 0;
    while i < config.layouts.len()
        invariant
            config.wf(),
            total_ordering(monitor_order()),
            sorted_by(views(sorted@), monitor_order()),
            views(sorted@).to_multiset() == ms,
            ms == views(monitors@).to_multiset(),
            0 <= i <= config.layouts@.len(),
            forall|j: int| 0 <= j < i ==> config.key(j) != views(sorted@),
        decreases config.layouts@.len() - i,
    {
        if same_monitors(&config.layouts[i].0, &sorted) {
            assert(config.key(i as int).to_multiset() == ms);
            assert forall|j: int|
                0 <= j < config.layouts@.len() && #[trigger] config.key(j).to_multiset() == ms implies j == i by {
                lemma_sorted_unique(config.key(j), views(sorted@), monitor_order());
            }
            return Some(i);
        }
        i += 1;
    }
    assert forall|j: int| 0 <= j < config.layouts@.len() implies #[trigger] config.key(j).to_multiset() != ms by {
        if config.key(j).to_multiset() == ms {
            lemma_sorted_unique(config.key(j), views(sorted@), monitor_order());
        }
    }
    None
}

/// Joins a layout's settings to the connectors, in connector order.
pub fn join_setup(attached: &Vec<(OutputId, Monitor)>, layout: &SingleConfig) -> (r: Vec<(OutputId, MonConfig)>)
    ensures
        r@ == join(attached@, layout.setup@),
{
    let mut r: Vec<(OutputId, MonConfig)> = Vec::new();
    let mut i: usize = 0;
    while i < attached.len()
        invariant
            0 <= i <= attached@.len(),
            r@ == join(attached@.take(i as int), layout.setup@),
        decreases attached@.len() - i,
    {
        assert(attached@.take(i + 1).drop_last() =~= attached@.take(i as int));
        match find_setting(&layout.setup, &attached[i].1) {
            Some(c) => r.push((attached[i].0, c)),
            None => {},
        }
        i += 1;
    }
    assert(attached@.take(i as int) =~= attached@);
    r
}

fn copy_string(s: &String) -> (r: String)
    ensures
        r@ == s@,
{
    s.clone()
}

/// Finds the layout keyed by exactly the attached monitors, whatever the order of the
/// connectors, and gives each connector whose monitor the layout lists its setting.
pub fn get_config(config: &Config, attached: &Vec<(OutputId, Monitor)>) -> (r: Option<Match>)
    requires
        config.wf(),
    ensures
        match config.layout_index(attached_monitors(attached@)) {
            None => r is None,
            Some(i) => r matches Some(m) && {
                &&& m.name@ == config.layouts@[i].1.name@
                &&& m.fb_size == config.layouts@[i].1.fb_size
                &&& m.setup@ == join(attached@, config.layouts@[i].1.setup@)
            },
        },
{
    let mut monitors: Vec<Monitor> = Vec::new();
    let mut k: usize = 0;
    while k < attached.len()
        invariant
            0 <= k <= attached@.len(),
            views(monitors@) == attached_monitors(attached@.take(k as int)),
        decreases attached@.len() - k,
    {
        let m = attached[k].1.copy();
        let ghost before = monitors@;
        monitors.push(m);
        assert(views(monitors@) =~= views(before).push(m@));
        assert(attached_monitors(attached@.take(k + 1)) =~= attached_monitors(attached@.take(k as int)).push(m@));
        k += 1;
    }
    assert(attached@.take(k as int) =~= attached@);
    match find_layout(config, &monitors) {
        None => None,
        Some(i) => {
            let layout = &config.layouts[i].1;
            Some(
                Match {
                    name: copy_string(&layout.name),
                    fb_size: layout.fb_size,
                    setup: join_setup(attached, layout),
                },
            )
        },
    }
}

/// Matching does not depend on the order in which the connectors were enumerated:
/// monitor lists that hold the same monitors select the same layout, and any two of
/// their sorted forms are equal.
pub proof fn lemma_matching_is_order_independent(
    config: Config,
    a: Seq<MonitorView>,
    b: Seq<MonitorView>,
    sa: Seq<MonitorView>,
    sb: Seq<MonitorView>,
)
    requires
        a.to_multiset() == b.to_multiset(),
        sa.to_multiset() == a.to_multiset(),
        sb.to_multiset() == b.to_multiset(),
        sorted_by(sa, monitor_order()),
        sorted_by(sb, monitor_order()),
    ensures
        config.layout_index(a) == config.layout_index(b),
        sa == sb,
{
    lemma_monitor_order_total();
    lemma_sorted_unique(sa, sb, monitor_order());
}

/// The join configures every connector whose monitor the layout lists: each such
/// connector appears with that monitor's setting.
pub proof fn lemma_join_lists_configured(attached: Seq<(OutputId, Monitor)>, setup: Seq<(Monitor, MonConfig)>, i: int)
    requires
        0 <= i < attached.len(),
        setting_for(setup, attached[i].1@) is Some,
    ensures
        join(attached, setup).contains((attached[i].0, setting_for(setup, attached[i].1@)->Some_0)),
    decreases attached.len(),
{
    let pair = (attached[i].0, setting_for(setup, attached[i].1@)->Some_0);
    if i < attached.len() - 1 {
        lemma_join_lists_configured(attached.drop_last(), setup, i);
        let rest = join(attached.drop_last(), setup);
        let k = choose|k: int| 0 <= k < rest.len() && rest[k] == pair;
        if setting_for(setup, attached.last().1@) is Some {
            assert(join(attached, setup)[k] == pair);
        } else {
            assert(join(attached, setup) == rest);
        }
    } else {
        assert(join(attached, setup).last() == pair);
    }
}

} // verus!
