//! Resolving the display topology from the platform's two enumerations.
//!
//! The device enumeration lists display devices by slot with their names and
//! states; the geometry enumeration lists display rectangles, each with the
//! name of its device. A live device is bound to the first geometry that
//! carries its name; a live device without one is left out, yet keeps its
//! place in the numbering.
use vstd::prelude::*;
use crate::monitor::{Monitor, MonitorView, Monitors, Rect};

verus! {

/// One slot of the device enumeration.
pub struct DisplayDevice {
    /// The device name, in UTF-16 code units, without the terminating zero.
    pub name: Vec<u16>,
    /// The platform reports the device as attached to the desktop.
    pub active: bool,
    /// A device context could be created for the device.
    pub has_context: bool,
}

/// One result of the geometry enumeration.
pub struct DisplayGeometry {
    /// The name of the device the rectangles belong to, in UTF-16 code units.
    pub device_name: Vec<u16>,
    pub bounds: Rect,
    pub work: Rect,
}

/// A device that takes part in the numbering: active, with a device context.
pub open spec fn is_live(d: DisplayDevice) -> bool {
    d.active && d.has_context
}

/// How many devices of `devs` are live.
pub open spec fn live_count(devs: Seq<DisplayDevice>) -> nat
    decreases devs.len(),
{
    if devs.len() == 0 {
        0
    } else {
        live_count(devs.drop_last()) + if is_live(devs.last()) {
            1nat
        } else {
            0nat
        }
    }
}

/// Some geometry of `geoms` carries the name `name`.
pub open spec fn has_match(name: Seq<u16>, geoms: Seq<DisplayGeometry>) -> bool {
    exists|j: int| 0 <= j < geoms.len() && (#[trigger] geoms[j]).device_name@ == name
}

/// `j` is the first geometry of `geoms` that carries the name `name`.
pub open spec fn is_first_match(name: Seq<u16>, geoms: Seq<DisplayGeometry>, j: int) -> bool {
    &&& 0 <= j < geoms.len()
    &&& geoms[j].device_name@ == name
    &&& forall|k: int| 0 <= k < j ==> (#[trigger] geoms[k]).device_name@ != name
}

/// The first geometry of `geoms` that carries the name `name`.
pub open spec fn first_match(name: Seq<u16>, geoms: Seq<DisplayGeometry>) -> int {
    choose|j: int| is_first_match(name, geoms, j)
}

/// The monitor that device `i` of `devs` resolves to, when it has a match:
/// numbered by the live devices before it, placed by its first geometry.
pub open spec fn resolved_monitor(devs: Seq<DisplayDevice>, geoms: Seq<DisplayGeometry>, i: int) -> MonitorView {
    let g = geoms[first_match(devs[i].name@, geoms)];
    MonitorView { id: live_count(devs.take(i)) as u32, bounds: g.bounds, work: g.work }
}

/// The monitors that the devices `devs` and the geometries `geoms` resolve to.
pub open spec fn resolved(devs: Seq<DisplayDevice>, geoms: Seq<DisplayGeometry>) -> Seq<MonitorView>
    decreases devs.len(),
{
    if devs.len() == 0 {
        Seq::<MonitorView>::empty()
    } else {
        let prev = resolved(devs.drop_last(), geoms);
        let i = devs.len() - 1;
        if is_live(devs[i]) && has_match(devs[i].name@, geoms) {
            prev.push(resolved_monitor(devs, geoms, i))
        } else {
            prev
        }
    }
}

proof fn lemma_first_match_unique(name: Seq<u16>, geoms: Seq<DisplayGeometry>, j: int)
    requires
        is_first_match(name, geoms, j),
    ensures
        first_match(name, geoms) == j,
        has_match(name, geoms),
{
    let c = first_match(name, geoms);
    assert(is_first_match(name, geoms, c));
    if c < j {
        assert(geoms[c].device_name@ != name);
    } else if c > j {
        assert(geoms[j].device_name@ != name);
    }
}

fn same_name(a: &Vec<u16>, b: &Vec<u16>) -> (r: bool)
    ensures
        r == (a@ == b@),
{
    if a.len() != b.len() {
        return false;
    }
    let mut i: usize = 0;
    while i < a.len()
        invariant
            a@.len() == b@.len(),
            i <= a@.len(),
            forall|k: int| 0 <= k < i ==> a@[k] == b@[k],
        decreases a@.len() - i,
    {
        if a[i] != b[i] {
            return false;
        }
        i = i + 1;
    }
    assert(a@ =~= b@);
    true
}

/// The first geometry that carries the name `name`, if any.
fn first_geometry(name: &Vec<u16>, geoms: &Vec<DisplayGeometry>) -> (r: Option<usize>)
    ensures
        r matches Some(j) ==> is_first_match(name@, geoms@, j as int),
        r is None <==> !has_match(name@, geoms@),
{
    let mut j: usize = 0;
    while j < geoms.len()
        invariant
            j <= geoms@.len(),
            forall|k: int| 0 <= k < j ==> (#[trigger] geoms@[k]).device_name@ != name@,
        decreases geoms@.len() - j,
    {
        if same_name(&geoms[j].device_name, name) {
            return Some(j);
        }
        j = j + 1;
    }
    None
}

proof fn lemma_resolved_ids_below(devs: Seq<DisplayDevice>, geoms: Seq<DisplayGeometry>)
    ensures
        forall|k: int| 0 <= k < resolved(devs, geoms).len() ==> resolved(devs, geoms)[k].id < live_count(devs),
        resolved(devs, geoms).len() <= live_count(devs),
    decreases devs.len(),
{
    if devs.len() > 0 {
        lemma_resolved_ids_below(devs.drop_last(), geoms);
        assert(devs.take(devs.len() - 1) =~= devs.drop_last());
    }
}

/// Resolves the monitors from the device enumeration `devices` and the
/// geometry enumeration `geometries`.
///
/// Each live device (active, with a device context) gets the number of live
/// devices before it as its id, and the rectangles of the first geometry that
/// carries its name. A live device that no geometry names is left out without
/// giving its id to another. The monitors keep the order of the devices.
pub fn resolve(devices: &Vec<DisplayDevice>, geometries: &Vec<DisplayGeometry>) -> (r: Monitors)
    requires
        devices@.len() <= u32::MAX,
        forall|j: int| 0 <= j < geometries@.len() ==> (#[trigger] geometries@[j]).bounds.wf() && geometries@[j].work.wf(),
    ensures
        r@ == resolved(devices@, geometries@),
{
    let mut out = Monitors::new();
    let mut live: u32 = 0;
    let mut i: usize = 0;
    assert(devices@.take(0) =~= Seq::<DisplayDevice>::empty());
    while i < devices.len()
        invariant
            devices@.len() <= u32::MAX,
            forall|j: int| 0 <= j < geometries@.len() ==> (#[trigger] geometries@[j]).bounds.wf() && geometries@[j].work.wf(),
            i <= devices@.len(),
            live as nat == live_count(devices@.take(i as int)),
            live <= i,
            out@ == resolved(devices@.take(i as int), geometries@),
        decreases devices@.len() - i,
    {
        let ghost prefix = devices@.take(i + 1);
        assert(prefix.drop_last() =~= devices@.take(i as int));
        proof { lemma_resolved_ids_below(devices@.take(i as int), geometries@); }
        let d = &devices[i];
        if d.active && d.has_context {
            match first_geometry(&d.name, geometries) {
                Some(j) => {
                    let g = &geometries[j];
                    proof { lemma_first_match_unique(d.name@, geometries@, j as int); }
                    out.add(Monitor::from_geometry(live, g.bounds, g.work));
                    assert(prefix.take(i as int) =~= devices@.take(i as int));
                    assert(out@ =~= resolved(prefix, geometries@));
                },
                None => {},
            }
            live = live + 1;
        }
        i = i + 1;
    }
    assert(devices@.take(i as int) =~= devices@);
    out
}

proof fn lemma_live_count_le(devs: Seq<DisplayDevice>)
    ensures
        live_count(devs) <= devs.len(),
    decreases devs.len(),
{
    if devs.len() > 0 {
        lemma_live_count_le(devs.drop_last());
    }
}

proof fn lemma_live_count_monotonic(devs: Seq<DisplayDevice>, a: int, b: int)
    requires
        0 <= a <= b <= devs.len(),
    ensures
        live_count(devs.take(a)) <= live_count(devs.take(b)),
        a < b && is_live(devs[a]) ==> live_count(devs.take(a)) < live_count(devs.take(b)),
    decreases b - a,
{
    if a < b {
        lemma_live_count_monotonic(devs, a, b - 1);
        assert(devs.take(b).drop_last() =~= devs.take(b - 1));
        if a == b - 1 {
            assert(devs.take(b).last() == devs[a]);
        }
    }
}

/// When every live device has a geometry of its name, each live device
/// becomes one monitor: the live devices are numbered from 0 in the order they
/// are met, and each monitor has the rectangles of its device's geometry.
pub proof fn resolve_keeps_matched_devices(devs: Seq<DisplayDevice>, geoms: Seq<DisplayGeometry>)
    requires
        devs.len() <= u32::MAX,
        forall|i: int| 0 <= i < devs.len() && #[trigger] is_live(devs[i]) ==> has_match(devs[i].name@, geoms),
    ensures
        resolved(devs, geoms).len() == live_count(devs),
        forall|k: int| 0 <= k < resolved(devs, geoms).len() ==> resolved(devs, geoms)[k].id == k,
        forall|i: int|
            0 <= i < devs.len() && #[trigger] is_live(devs[i]) ==> resolved(devs, geoms)[live_count(devs.take(i)) as int]
                == resolved_monitor(devs, geoms, i),
    decreases devs.len(),
{
    if devs.len() > 0 {
        let n = devs.len() - 1;
        let dl = devs.drop_last();
        resolve_keeps_matched_devices(dl, geoms);
        lemma_live_count_le(dl);
        assert(devs.take(n) =~= dl);
        assert forall|i: int| 0 <= i < n implies dl.take(i) == devs.take(i) && dl[i] == devs[i] by {
            assert(dl.take(i) =~= devs.take(i));
        }
        assert forall|i: int|
            0 <= i < devs.len() && #[trigger] is_live(devs[i]) implies resolved(devs, geoms)[live_count(devs.take(i)) as int]
                == resolved_monitor(devs, geoms, i) by {
            if i < n {
                assert(is_live(dl[i]));
                assert(dl.take(i) == devs.take(i));
                lemma_live_count_monotonic(devs, i, n);
                assert(resolved_monitor(dl, geoms, i) == resolved_monitor(devs, geoms, i));
            } else {
                assert(has_match(devs[n].name@, geoms));
            }
        }
    }
}

/// A live device that no geometry names gives no monitor: fewer monitors
/// come out than there are live devices, and the id that the device's place
/// in the numbering gives it goes to no monitor.
pub proof fn resolve_skips_unmatched_device(devs: Seq<DisplayDevice>, geoms: Seq<DisplayGeometry>, i: int)
    requires
        devs.len() <= u32::MAX,
        0 <= i < devs.len(),
        is_live(devs[i]),
        !has_match(devs[i].name@, geoms),
    ensures
        resolved(devs, geoms).len() < live_count(devs),
        forall|k: int| 0 <= k < resolved(devs, geoms).len() ==> resolved(devs, geoms)[k].id != live_count(devs.take(i)) as u32,
    decreases devs.len(),
{
    let n = devs.len() - 1;
    let dl = devs.drop_last();
    assert(devs.take(n) =~= dl);
    lemma_live_count_le(dl);
    lemma_resolved_ids_below(dl, geoms);
    lemma_live_count_le(devs.take(i));
    if i == n {
        assert(resolved(devs, geoms) == resolved(dl, geoms));
    } else {
        resolve_skips_unmatched_device(dl, geoms, i);
        assert(dl.take(i) =~= devs.take(i));
        lemma_live_count_monotonic(devs, i, n);
    }
}

} // verus!
