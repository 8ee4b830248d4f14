//! The identity resolver: reads a monitor's product name and serial number out of its
//! identity blob (EDID).
use vstd::prelude::*;
use crate::monitor::{Monitor, MonitorView};
use crate::resources::OutputId;

verus! {

/// The parts of an identity-blob descriptor that identify a monitor.
#[derive(Debug, Clone, PartialEq, Eq)]
pub enum Descriptor {
    ProductName(String),
    SerialNumber(String),
    /// Any other descriptor.
    Other,
}

/// A descriptor as plain values.
pub enum DescriptorView {
    ProductName(Seq<char>),
    SerialNumber(Seq<char>),
    Other,
}

impl View for Descriptor {
    type V = DescriptorView;

    open spec fn view(&self) -> DescriptorView {
        match self {
            Descriptor::ProductName(s) => DescriptorView::ProductName(s@),
            Descriptor::SerialNumber(s) => DescriptorView::SerialNumber(s@),
            Descriptor::Other => DescriptorView::Other,
        }
    }
}

pub open spec fn descriptor_views(d: Seq<Descriptor>) -> Seq<DescriptorView> {
    d.map_values(|x: Descriptor| x@)
}

/// The descriptors that `edid::parse` reads from an identity blob, or `None` where it
/// does not parse.
pub uninterp spec fn edid_descriptors(data: Seq<u8>) -> Option<Seq<DescriptorView>>;

/// Relies on `edid::parse` (with nom's `IResult`): a blob either parses into an EDID
/// record, whose descriptors are kept in order, or does not; the outcome depends on the
/// bytes alone.
#[verifier::external_body]
fn parse_edid(data: &[u8]) -> (r: Option<Vec<Descriptor>>)
    ensures
        match r {
            Some(v) => edid_descriptors(data@) == Some(descriptor_views(v@)),
            None => edid_descriptors(data@) is None,
        },
{
    match edid::parse(data) {
        nom::IResult::Done(_, e) => Some(
            e.descriptors.into_iter().map(|d| match d {
                edid::Descriptor::ProductName(p) => Descriptor::ProductName(p),
                edid::Descriptor::SerialNumber(s) => Descriptor::SerialNumber(s),
                _ => Descriptor::Other,
            }).collect(),
        ),
        _ => None,
    }
}

/// The identity the descriptors give: the last product name and the last serial number.
pub open spec fn identity_of(d: Seq<DescriptorView>) -> MonitorView
    decreases d.len(),
{
    if d.len() == 0 {
        (None, None)
    } else {
        let rest = identity_of(d.drop_last());
        match d.last() {
            DescriptorView::ProductName(p) => (Some(p), rest.1),
            DescriptorView::SerialNumber(s) => (rest.0, Some(s)),
            DescriptorView::Other => rest,
        }
    }
}

impl Monitor {
    /// The identity given by a blob's descriptors.
    pub fn from_descriptors(descs: &Vec<Descriptor>) -> (r: Monitor)
        ensures
            r@ == identity_of(descriptor_views(descs@)),
    {
        let mut product: Option<String> = None;
        let mut serial: Option<String> = None;
        let mut i: usize = 0;
        while i < descs.len()
            invariant
                0 <= i <= descs@.len(),
                (Monitor { product, serial })@ == identity_of(descriptor_views(descs@.take(i as int))),
            decreases descs@.len() - i,
        {
            assert(descriptor_views(descs@.take(i + 1)).drop_last() =~= descriptor_views(
                descs@.take(i as int),
            ));
            match &descs[i] {
                Descriptor::ProductName(p) => product = Some(p.clone()),
                Descriptor::SerialNumber(s) => serial = Some(s.clone()),
                Descriptor::Other => {},
            }
            i += 1;
        }
        assert(descs@.take(i as int) =~= descs@);
        Monitor { product, serial }
    }
}

/// The monitor identified by an identity blob; `None` where the blob is empty or does
/// not parse.
pub fn monitor_from_edid(data: &[u8]) -> (r: Option<Monitor>)
    ensures
        match edid_descriptors(data@) {
            None => r is None,
            Some(d) => r matches Some(m) && m@ == identity_of(d),
        },
{
    match parse_edid(data) {
        None => None,
        Some(descs) => Some(Monitor::from_descriptors(&descs)),
    }
}

/// The monitors that the blobs identify, with their connectors, in connector order;
/// connectors whose blob does not parse are left out.
pub open spec fn identified(blobs: Seq<(OutputId, Vec<u8>)>) -> Seq<(OutputId, MonitorView)>
    decreases blobs.len(),
{
    if blobs.len() == 0 {
        Seq::empty()
    } else {
        let rest = identified(blobs.drop_last());
        match edid_descriptors(blobs.last().1@) {
            Some(d) => rest.push((blobs.last().0, identity_of(d))),
            None => rest,
        }
    }
}

pub open spec fn pair_views(s: Seq<(OutputId, Monitor)>) -> Seq<(OutputId, MonitorView)> {
    s.map_values(|p: (OutputId, Monitor)| (p.0, p.1@))
}

/// Resolves the identity of each connector from its identity blob.
pub fn get_monitors(blobs: &Vec<(OutputId, Vec<u8>)>) -> (r: Vec<(OutputId, Monitor)>)
    ensures
        pair_views(r@) == identified(blobs@),
{
    let mut r: Vec<(OutputId, Monitor)> = Vec::new();
    let mut i: usize = 0;
    while i < blobs.len()
        invariant
            0 <= i <= blobs@.len(),
            pair_views(r@) == identified(blobs@.take(i as int)),
        decreases blobs@.len() - i,
    {
        assert(blobs@.take(i + 1).drop_last() =~= blobs@.take(i as int));
        assert(blobs@.take(i + 1).last() == blobs@[i as int]);
        let ghost before = r@;
        match monitor_from_edid(blobs[i].1.as_slice()) {
            Some(m) => {
                r.push((blobs[i].0, m));
                assert(pair_views(r@) =~= pair_views(before).push((blobs@[i as int].0, m@)));
            },
            None => {},
        }
        i += 1;
    }
    assert(blobs@.take(i as int) =~= blobs@);
    r
}

} // verus!
