//! A snapshot of the display server's outputs, controllers and modes, as plain values.
use vstd::prelude::*;
use crate::config::Mode;

verus! {

/// A connector (output) handle of the display server.
#[derive(Debug, Clone, Copy, PartialEq, Eq, Structural, Hash)]
pub struct OutputId(pub u32);

/// A display controller (CRTC) handle of the display server.
#[derive(Debug, Clone, Copy, PartialEq, Eq, Structural, Hash)]
pub struct CrtcId(pub u32);

/// A mode identifier of the display server.
#[derive(Debug, Clone, Copy, PartialEq, Eq, Structural, Hash)]
pub struct ModeId(pub u32);

/// One mode known to the screen.
#[derive(Debug, Clone, Copy, PartialEq, Eq, Structural)]
pub struct ModeInfo {
    pub id: ModeId,
    pub width: u16,
    pub height: u16,
}

/// The live state of one output.
#[derive(Debug, Clone)]
pub struct OutputInfo {
    pub id: OutputId,
    /// The controller currently driving this output, if any.
    pub crtc: Option<CrtcId>,
    /// The controllers that can drive this output.
    pub crtcs: Vec<CrtcId>,
    /// The modes this output supports.
    pub modes: Vec<ModeId>,
    pub mm_width: u32,
    pub mm_height: u32,
}

/// The live state of one display controller.
#[derive(Debug, Clone)]
pub struct CrtcInfo {
    pub id: CrtcId,
    pub x: i16,
    pub y: i16,
    pub width: u16,
    pub height: u16,
    /// The mode it is set to; `None` when it is off.
    pub mode: Option<ModeId>,
    pub rotation: u16,
    /// The outputs it drives.
    pub outputs: Vec<OutputId>,
    pub timestamp: u32,
}

/// Everything a reconciliation pass reads from the display server.
#[derive(Debug, Clone)]
pub struct ScreenResources {
    /// Outputs, in the order the server reports them.
    pub outputs: Vec<OutputInfo>,
    /// Controllers, in the order the server reports them.
    pub crtcs: Vec<CrtcInfo>,
    /// Every mode known to the screen.
    pub modes: Vec<ModeInfo>,
}

/// The mode resolver's result: for each resolution, the mode identifiers that have it.
/// Several identifiers may share a resolution (different refresh rates).
#[derive(Debug, Clone)]
pub struct ModeMap {
    pub entries: Vec<(Mode, ModeId)>,
}

pub open spec fn mode_of(mi: ModeInfo) -> Mode {
    Mode { w: mi.width, h: mi.height }
}

impl ModeMap {
    /// `id` is a mode identifier of resolution `m`.
    pub open spec fn has(self, m: Mode, id: ModeId) -> bool {
        exists|i: int| 0 <= i < self.entries@.len() && self.entries@[i] == (m, id)
    }

    /// Some mode identifier has resolution `m`.
    pub open spec fn has_mode(self, m: Mode) -> bool {
        exists|i: int| 0 <= i < self.entries@.len() && self.entries@[i].0 == m
    }

    pub fn contains_mode(&self, m: Mode) -> (r: bool)
        ensures
            r == self.has_mode(m),
    {
        let mut i: usize = 0;
        while i < self.entries.len()
            invariant
                0 <= i <= self.entries@.len(),
                forall|j: int| 0 <= j < i ==> self.entries@[j].0 != m,
            decreases self.entries@.len() - i,
        {
            if self.entries[i].0 == m {
                return true;
            }
            i += 1;
        }
        false
    }

    pub fn contains(&self, m: Mode, id: ModeId) -> (r: bool)
        ensures
            r == self.has(m, id),
    {
        let mut i: usize = 0;
        while i < self.entries.len()
            invariant
                0 <= i <= self.entries@.len(),
                forall|j: int| 0 <= j < i ==> self.entries@[j] != (m, id),
            decreases self.entries@.len() - i,
        {
            if self.entries[i].0 == m && self.entries[i].1 == id {
                return true;
            }
            i += 1;
        }
        false
    }
}

impl View for ModeMap {
    type V = Map<Mode, Set<ModeId>>;

    open spec fn view(&self) -> Map<Mode, Set<ModeId>> {
        Map::new(|m: Mode| self.has_mode(m), |m: Mode| Set::new(|id: ModeId| self.has(m, id)))
    }
}

/// Groups the screen's modes by resolution.
pub fn mode_map(modes: &Vec<ModeInfo>) -> (r: ModeMap)
    ensures
        forall|m: Mode| #[trigger]
            r.has_mode(m) <==> exists|i: int| 0 <= i < modes@.len() && mode_of(modes@[i]) == m,
        forall|m: Mode, id: ModeId| #[trigger]
            r.has(m, id) <==> exists|i: int|
                0 <= i < modes@.len() && mode_of(modes@[i]) == m && modes@[i].id == id,
{
    let mut entries: Vec<(Mode, ModeId)> = Vec::new();
    let mut i: usize = 0;
    while i < modes.len()
        invariant
            0 <= i <= modes@.len(),
            entries@.len() == i,
            forall|j: int| 0 <= j < i ==> #[trigger] entries@[j] == (mode_of(modes@[j]), modes@[j].id),
        decreases modes@.len() - i,
    {
        let mi = modes[i];
        entries.push((Mode { w: mi.width, h: mi.height }, mi.id));
        i += 1;
    }
    let r = ModeMap { entries };
    assert forall|m: Mode| #[trigger]
        r.has_mode(m) <==> exists|i: int| 0 <= i < modes@.len() && mode_of(modes@[i]) == m by {
        if r.has_mode(m) {
            let j = choose|j: int| 0 <= j < r.entries@.len() && r.entries@[j].0 == m;
            assert(mode_of(modes@[j]) == m);
        }
        if exists|i: int| 0 <= i < modes@.len() && mode_of(modes@[i]) == m {
            let j = choose|j: int| 0 <= j < modes@.len() && mode_of(modes@[j]) == m;
            assert(r.entries@[j].0 == m);
        }
    }
    assert forall|m: Mode, id: ModeId| #[trigger]
        r.has(m, id) <==> exists|i: int|
            0 <= i < modes@.len() && mode_of(modes@[i]) == m && modes@[i].id == id by {
        if r.has(m, id) {
            let j = choose|j: int| 0 <= j < r.entries@.len() && r.entries@[j] == (m, id);
            assert(mode_of(modes@[j]) == m && modes@[j].id == id);
        }
        if exists|i: int| 0 <= i < modes@.len() && mode_of(modes@[i]) == m && modes@[i].id == id {
            let j = choose|j: int|
                0 <= j < modes@.len() && mode_of(modes@[j]) == m && modes@[j].id == id;
            assert(r.entries@[j] == (m, id));
        }
    }
    r
}

} // verus!
