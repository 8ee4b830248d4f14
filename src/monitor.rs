//! Monitor identities and their canonical order.
use vstd::prelude::*;
use vstd::relations::{sorted_by, total_ordering};
use vstd::seq_lib::group_to_multiset_ensures;

verus! {

/// A monitor's identity, as read from its identity blob.
#[derive(Debug, Clone, PartialEq, Eq, Hash)]
pub struct Monitor {
    pub product: Option<String>,
    pub serial: Option<String>,
}

/// A monitor identity as plain values: product and serial.
pub type MonitorView = (Option<Seq<char>>, Option<Seq<char>>);

pub open spec fn opt_view(o: Option<String>) -> Option<Seq<char>> {
    match o {
        Some(s) => Some(s@),
        None => None,
    }
}

impl View for Monitor {
    type V = MonitorView;

    open spec fn view(&self) -> MonitorView {
        (opt_view(self.product), opt_view(self.serial))
    }
}

pub open spec fn views(s: Seq<Monitor>) -> Seq<MonitorView> {
    s.map_values(|m: Monitor| m@)
}

/// Lexicographic order on strings, by code point.
pub open spec fn chars_le(a: Seq<char>, b: Seq<char>) -> bool
    decreases a.len(),
{
    if a.len() == 0 {
        true
    } else if b.len() == 0 {
        false
    } else if (a[0] as u32) != (b[0] as u32) {
        (a[0] as u32) < (b[0] as u32)
    } else {
        chars_le(a.drop_first(), b.drop_first())
    }
}

/// A missing string comes before any string.
pub open spec fn opt_le(a: Option<Seq<char>>, b: Option<Seq<char>>) -> bool {
    match (a, b) {
        (None, _) => true,
        (Some(_), None) => false,
        (Some(x), Some(y)) => chars_le(x, y),
    }
}

/// The canonical order on monitors: by product, then by serial.
pub open spec fn monitor_le(a: MonitorView, b: MonitorView) -> bool {
    if a.0 == b.0 {
        opt_le(a.1, b.1)
    } else {
        opt_le(a.0, b.0)
    }
}

pub open spec fn monitor_order() -> spec_fn(MonitorView, MonitorView) -> bool {
    |a: MonitorView, b: MonitorView| monitor_le(a, b)
}

proof fn lemma_chars_le_total(a: Seq<char>, b: Seq<char>, c: Seq<char>)
    ensures
        chars_le(a, a),
        chars_le(a, b) || chars_le(b, a),
        chars_le(a, b) && chars_le(b, a) ==> a == b,
        chars_le(a, b) && chars_le(b, c) ==> chars_le(a, c),
    decreases a.len(),
{
    if a.len() > 0 {
        lemma_chars_le_total(a.drop_first(), b.drop_first(), c.drop_first());
        if b.len() > 0 && (a[0] as u32) == (b[0] as u32) && chars_le(a, b) && chars_le(b, a) {
            vstd::utf8::char_u32_cast(a[0], a[0] as u32);
            vstd::utf8::char_u32_cast(b[0], b[0] as u32);
            assert(a[0] == b[0]);
            assert(a =~= seq![a[0]] + a.drop_first());
            assert(b =~= seq![b[0]] + b.drop_first());
        }
    } else if chars_le(b, a) {
        assert(b =~= a);
    }
}

proof fn lemma_opt_le_total(a: Option<Seq<char>>, b: Option<Seq<char>>, c: Option<Seq<char>>)
    ensures
        opt_le(a, a),
        opt_le(a, b) || opt_le(b, a),
        opt_le(a, b) && opt_le(b, a) ==> a == b,
        opt_le(a, b) && opt_le(b, c) ==> opt_le(a, c),
{
    if let (Some(x), Some(y), Some(z)) = (a, b, c) {
        lemma_chars_le_total(x, y, z);
    } else if let (Some(x), Some(y)) = (a, b) {
        lemma_chars_le_total(x, y, x);
    } else if let Some(x) = a {
        lemma_chars_le_total(x, x, x);
    }
}

/// The canonical order on monitors is a total order.
pub proof fn lemma_monitor_order_total()
    ensures
        total_ordering(monitor_order()),
{
    assert forall|a: MonitorView, b: MonitorView, c: MonitorView|
        monitor_le(a, b) && monitor_le(b, c) implies monitor_le(a, c) by {
        lemma_opt_le_total(a.0, b.0, c.0);
        lemma_opt_le_total(a.1, b.1, c.1);
    }
    assert forall|a: MonitorView, b: MonitorView|
        monitor_le(a, b) && monitor_le(b, a) implies a == b by {
        lemma_opt_le_total(a.0, b.0, a.0);
        lemma_opt_le_total(a.1, b.1, a.1);
    }
    assert forall|a: MonitorView, b: MonitorView| monitor_le(a, b) || monitor_le(b, a) by {
        lemma_opt_le_total(a.0, b.0, a.0);
        lemma_opt_le_total(a.1, b.1, a.1);
    }
    assert forall|a: MonitorView| monitor_le(a, a) by {
        lemma_opt_le_total(a.0, a.0, a.0);
        lemma_opt_le_total(a.1, a.1, a.1);
    }
}

fn str_le(a: &str, b: &str) -> (r: bool)
    ensures
        r == chars_le(a@, b@),
{
    let la = a.unicode_len();
    let lb = b.unicode_len();
    let mut i: usize = 0;
    assert(a@.skip(0) =~= a@ && b@.skip(0) =~= b@);
    while i < la && i < lb
        invariant
            la == a@.len(),
            lb == b@.len(),
            0 <= i <= la,
            i <= lb,
            chars_le(a@, b@) == chars_le(a@.skip(i as int), b@.skip(i as int)),
        decreases la - i,
    {
        let ca = a.get_char(i);
        let cb = b.get_char(i);
        assert(a@.skip(i as int)[0] == ca && b@.skip(i as int)[0] == cb);
        if (ca as u32) != (cb as u32) {
            return (ca as u32) < (cb as u32);
        }
        assert(a@.skip(i as int).drop_first() =~= a@.skip(i + 1));
        assert(b@.skip(i as int).drop_first() =~= b@.skip(i + 1));
        i += 1;
    }
    if i == la {
        assert(a@.skip(i as int).len() == 0);
        true
    } else {
        assert(b@.skip(i as int).len() == 0);
        false
    }
}

fn opt_str_le(a: &Option<String>, b: &Option<String>) -> (r: bool)
    ensures
        r == opt_le(opt_view(*a), opt_view(*b)),
{
    match (a, b) {
        (None, _) => true,
        (Some(_), None) => false,
        (Some(x), Some(y)) => str_le(x.as_str(), y.as_str()),
    }
}

fn opt_str_eq(a: &Option<String>, b: &Option<String>) -> (r: bool)
    ensures
        r == (opt_view(*a) == opt_view(*b)),
{
    match (a, b) {
        (None, None) => true,
        (Some(x), Some(y)) => {
            let r = *x == *y;
            r
        },
        (None, Some(_)) => false,
        (Some(_), None) => false,
    }
}

fn copy_opt(a: &Option<String>) -> (r: Option<String>)
    ensures
        opt_view(r) == opt_view(*a),
{
    match a {
        None => None,
        Some(s) => Some(s.clone()),
    }
}

impl Monitor {
    /// A copy of this identity.
    pub fn copy(&self) -> (r: Monitor)
        ensures
            r@ == self@,
    {
        Monitor { product: copy_opt(&self.product), serial: copy_opt(&self.serial) }
    }

    /// Whether `self` comes no later than `other` in the canonical order.
    pub fn le(&self, other: &Monitor) -> (r: bool)
        ensures
            r == monitor_le(self@, other@),
    {
        if opt_str_eq(&self.product, &other.product) {
            opt_str_le(&self.serial, &other.serial)
        } else {
            opt_str_le(&self.product, &other.product)
        }
    }

    /// Whether the two identities are the same.
    pub fn same(&self, other: &Monitor) -> (r: bool)
        ensures
            r == (self@ == other@),
    {
        opt_str_eq(&self.product, &other.product) && opt_str_eq(&self.serial, &other.serial)
    }
}

/// The monitors in canonical order: the same identities, sorted.
pub fn sort_monitors(monitors: &Vec<Monitor>) -> (r: Vec<Monitor>)
    ensures
        sorted_by(views(r@), monitor_order()),
        views(r@).to_multiset() == views(monitors@).to_multiset(),
{
    broadcast use group_to_multiset_ensures;

    proof {
        lemma_monitor_order_total();
    }
    let mut out: Vec<Monitor> = Vec::new();
    let mut i: usize = 0;
    while i < monitors.len()
        invariant
            0 <= i <= monitors@.len(),
            total_ordering(monitor_order()),
            sorted_by(views(out@), monitor_order()),
            views(out@).to_multiset() == views(monitors@.take(i as int)).to_multiset(),
        decreases monitors@.len() - i,
    {
        let m = monitors[i].copy();
        let mut k: usize = 0;
        while k < out.len()
            invariant
                0 <= k <= out@.len(),
                total_ordering(monitor_order()),
                forall|j: int| 0 <= j < k ==> monitor_le(#[trigger] out@[j]@, m@),
            ensures
                0 <= k <= out@.len(),
                forall|j: int| 0 <= j < k ==> monitor_le(#[trigger] out@[j]@, m@),
                k < out@.len() ==> monitor_le(m@, out@[k as int]@),
            decreases out@.len() - k,
        {
            if !out[k].le(&m) {
                assert(monitor_order()(out@[k as int]@, m@) || monitor_order()(m@, out@[k as int]@));
                break;
            }
            k += 1;
        }
        let ghost old_out = out@;
        let ghost old_v = views(out@);
        assert(k < out@.len() ==> monitor_le(m@, old_v[k as int]));
        let ghost prev = views(monitors@.take(i as int));
        out.insert(k, m);
        assert(views(out@) =~= old_v.insert(k as int, m@));
        assert(views(monitors@.take(i + 1)) =~= prev.push(m@));
        proof {
            vstd::seq_lib::to_multiset_insert(old_v, k as int, m@);
            vstd::seq_lib::to_multiset_build(prev, m@);
        }
        assert forall|a: int, b: int| 0 <= a < b < views(out@).len() implies monitor_order()(
            views(out@)[a],
            views(out@)[b],
        ) by {
            let na = views(out@)[a];
            let nb = views(out@)[b];
            if a < k {
                assert(na == old_v[a] && old_v[a] == old_out[a]@);
            }
            if b < k {
                assert(monitor_order()(old_v[a], old_v[b]));
            } else if b == k {
                assert(nb == m@);
            } else if a == k {
                assert(na == m@ && nb == old_v[b - 1]);
                assert(monitor_order()(m@, old_v[k as int]));
                if k < b - 1 {
                    assert(monitor_order()(old_v[k as int], old_v[b - 1]));
                }
            } else if a < k {
                assert(nb == old_v[b - 1]);
                assert(monitor_order()(old_v[a], old_v[b - 1]));
            } else {
                assert(na == old_v[a - 1] && nb == old_v[b - 1]);
                assert(monitor_order()(old_v[a - 1], old_v[b - 1]));
            }
        }
        i += 1;
    }
    assert(monitors@.take(i as int) =~= monitors@);
    out
}

} // verus!
