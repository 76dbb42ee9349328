//! The one selection state that every overlay window reads and changes.
use vstd::prelude::*;
use crate::monitor::{has_id, ids_increasing, MonitorView, Monitors};

verus! {

/// An operation named a monitor id that the monitor set does not hold.
#[derive(Clone, Copy, Debug, PartialEq, Eq, Structural)]
pub struct UnknownMonitorId {
    pub id: u32,
}

/// What a `State` is: the monitors, the selected ids and the hovered id.
pub struct SelectionView {
    pub monitors: Seq<MonitorView>,
    pub selected: Set<u32>,
    pub hovered: Option<u32>,
}

impl SelectionView {
    /// Whether `id` belongs to a monitor of the set.
    pub open spec fn knows(self, id: u32) -> bool {
        has_id(self.monitors, id)
    }

    /// The state with the membership of `id` in the selection flipped.
    pub open spec fn toggled(self, id: u32) -> SelectionView {
        SelectionView {
            selected: if self.selected.contains(id) {
                self.selected.remove(id)
            } else {
                self.selected.insert(id)
            },
            ..self
        }
    }

    /// The state with `id` as the hovered monitor.
    pub open spec fn hovering(self, id: u32) -> SelectionView {
        SelectionView { hovered: Some(id), ..self }
    }
}

/// The selection state: which monitors are selected, and which one the
/// pointer is over.
pub struct State {
    monitors: Monitors,
    selected: Vec<bool>,
    hovered: Option<u32>,
}

/// The ids of the monitors whose flag is set.
pub open spec fn flagged_ids(ms: Seq<MonitorView>, flags: Seq<bool>) -> Set<u32> {
    Set::new(|id: u32| exists|i: int| 0 <= i < ms.len() && i < flags.len() && ms[i].id == id && flags[i])
}

impl View for State {
    type V = SelectionView;

    closed spec fn view(&self) -> SelectionView {
        SelectionView {
            monitors: self.monitors@,
            selected: flagged_ids(self.monitors@, self.selected@),
            hovered: self.hovered,
        }
    }
}

impl State {
    #[verifier::type_invariant]
    spec fn inv(self) -> bool {
        &&& self.selected@.len() == self.monitors@.len()
        &&& self.hovered matches Some(h) ==> has_id(self.monitors@, h)
    }

    /// A state over `monitors` with nothing selected and nothing hovered.
    pub fn new(monitors: Monitors) -> (r: State)
        ensures
            r@ == (SelectionView { monitors: monitors@, selected: Set::empty(), hovered: None }),
    {
        let n = monitors.len();
        let mut selected: Vec<bool> = Vec::new();
        let mut i: usize = 0;
        while i < n
            invariant
                i <= n,
                selected@ == Seq::new(i as nat, |k: int| false),
            decreases n - i,
        {
            selected.push(false);
            i = i + 1;
            assert(selected@ =~= Seq::new(i as nat, |k: int| false));
        }
        let r = State { monitors, selected, hovered: None };
        assert(flagged_ids(r.monitors@, r.selected@) =~= Set::empty());
        r
    }

    /// The monitors the state is over.
    pub fn monitors(&self) -> (r: &Monitors)
        ensures
            r@ == self@.monitors,
    {
        &self.monitors
    }

    /// Flips whether the monitor `id` is selected. An id that no monitor has
    /// is refused and changes nothing.
    pub fn toggle_selected(&mut self, id: u32) -> (r: Result<(), UnknownMonitorId>)
        ensures
            old(self)@.knows(id) ==> r is Ok && final(self)@ == old(self)@.toggled(id),
            !old(self)@.knows(id) ==> r == Err::<(), UnknownMonitorId>(UnknownMonitorId { id })
                && final(self)@ == old(self)@,
    {
        proof { use_type_invariant(&*self); }
        self.monitors.ids_are_increasing();
        match self.monitors.position(id) {
            Some(i) => {
                let ghost old_flags = self.selected@;
                let ghost ms = self.monitors@;
                let flag = self.selected[i];
                self.selected[i] = !flag;
                proof {
                    let new_flags = self.selected@;
                    let before = flagged_ids(ms, old_flags);
                    let after = flagged_ids(ms, new_flags);
                    assert forall|x: u32| #[trigger] after.contains(x) == (if flag {
                        before.remove(id)
                    } else {
                        before.insert(id)
                    }).contains(x) by {
                        if x == id {
                            if after.contains(x) {
                                let j = choose|j: int| 0 <= j < ms.len() && j < new_flags.len() && ms[j].id == x && new_flags[j];
                                assert(j == i);
                            }
                            if before.contains(x) {
                                let j = choose|j: int| 0 <= j < ms.len() && j < old_flags.len() && ms[j].id == x && old_flags[j];
                                assert(j == i);
                            }
                        } else {
                            if after.contains(x) {
                                let j = choose|j: int| 0 <= j < ms.len() && j < new_flags.len() && ms[j].id == x && new_flags[j];
                                assert(j != i);
                                assert(old_flags[j]);
                            }
                            if before.contains(x) {
                                let j = choose|j: int| 0 <= j < ms.len() && j < old_flags.len() && ms[j].id == x && old_flags[j];
                                assert(j != i);
                                assert(new_flags[j]);
                            }
                        }
                    }
                    assert(flag == before.contains(id)) by {
                        if before.contains(id) {
                            let j = choose|j: int| 0 <= j < ms.len() && j < old_flags.len() && ms[j].id == id && old_flags[j];
                            assert(j == i);
                        } else {
                            assert(!(0 <= i < ms.len() && i < old_flags.len() && ms[i as int].id == id && old_flags[i as int]));
                        }
                    }
                    assert(after =~= old(self)@.toggled(id).selected);
                }
                Ok(())
            },
            None => Err(UnknownMonitorId { id }),
        }
    }

    /// Makes `id` the hovered monitor, whichever was hovered before. An id
    /// that no monitor has is refused and changes nothing.
    pub fn set_hovered(&mut self, id: u32) -> (r: Result<(), UnknownMonitorId>)
        ensures
            old(self)@.knows(id) ==> r is Ok && final(self)@ == old(self)@.hovering(id),
            !old(self)@.knows(id) ==> r == Err::<(), UnknownMonitorId>(UnknownMonitorId { id })
                && final(self)@ == old(self)@,
    {
        proof { use_type_invariant(&*self); }
        match self.monitors.position(id) {
            Some(i) => {
                assert(self.monitors@[i as int].id == id);
                self.hovered = Some(id);
                Ok(())
            },
            None => Err(UnknownMonitorId { id }),
        }
    }

    pub fn is_selected(&self, id: u32) -> (r: bool)
        ensures
            r == self@.selected.contains(id),
    {
        proof { use_type_invariant(self); }
        self.monitors.ids_are_increasing();
        match self.monitors.position(id) {
            Some(i) => {
                let flag = self.selected[i];
                proof {
                    let ms = self.monitors@;
                    let flags = self.selected@;
                    if flagged_ids(ms, flags).contains(id) {
                        let j = choose|j: int| 0 <= j < ms.len() && j < flags.len() && ms[j].id == id && flags[j];
                        assert(j == i);
                    }
                }
                flag
            },
            None => false,
        }
    }

    pub fn is_hovered(&self, id: u32) -> (r: bool)
        ensures
            r == (self@.hovered == Some(id)),
    {
        match self.hovered {
            Some(h) => h == id,
            None => false,
        }
    }

    /// The selected ids, in ascending order.
    pub fn get_selected(&self) -> (r: Vec<u32>)
        ensures
            r@.to_set() == self@.selected,
            forall|i: int, j: int| 0 <= i < j < r@.len() ==> r@[i] < r@[j],
    {
        proof { use_type_invariant(self); }
        self.monitors.ids_are_increasing();
        let ghost ms = self.monitors@;
        let ghost flags = self.selected@;
        let n = self.monitors.len();
        let mut r: Vec<u32> = Vec::new();
        let mut i: usize = 0;
        while i < n
            invariant
                n == ms.len(),
                ms == self.monitors@,
                flags == self.selected@,
                flags.len() == ms.len(),
                ids_increasing(ms),
                i <= n,
                forall|a: int, b: int| 0 <= a < b < r@.len() ==> r@[a] < r@[b],
                forall|k: int| #![trigger r@[k]] 0 <= k < r@.len() ==> exists|j: int| 0 <= j < i && r@[k] == #[trigger] ms[j].id,
                forall|x: u32| r@.contains(x) <==> exists|j: int| 0 <= j < i && ms[j].id == x && #[trigger] flags[j],
            decreases n - i,
        {
            let m = self.monitors.get(i);
            if self.selected[i] {
                let x = m.id();
                proof {
                    assert forall|k: int| 0 <= k < r@.len() implies r@[k] < x by {
                        let j = choose|j: int| 0 <= j < i && r@[k] == #[trigger] ms[j].id;
                    }
                }
                let ghost old_r = r@;
                r.push(x);
                proof {
                    assert forall|k: int| #![trigger r@[k]] 0 <= k < r@.len() implies exists|j: int| 0 <= j < i + 1 && r@[k] == #[trigger] ms[j].id by {
                        if k < old_r.len() {
                            assert(r@[k] == old_r[k]);
                        } else {
                            assert(r@[k] == ms[i as int].id);
                        }
                    }
                    assert forall|y: u32| r@.contains(y) <==> exists|j: int| 0 <= j < i + 1 && ms[j].id == y && #[trigger] flags[j] by {
                        if r@.contains(y) {
                            let k = choose|k: int| 0 <= k < r@.len() && r@[k] == y;
                            if k < old_r.len() {
                                assert(old_r.contains(y));
                            }
                        }
                        if exists|j: int| 0 <= j < i + 1 && ms[j].id == y && #[trigger] flags[j] {
                            let j = choose|j: int| 0 <= j < i + 1 && ms[j].id == y && #[trigger] flags[j];
                            if j < i {
                                assert(old_r.contains(y));
                                let k = choose|k: int| 0 <= k < old_r.len() && old_r[k] == y;
                                assert(r@[k] == y);
                            } else {
                                assert(r@[old_r.len() as int] == y);
                            }
                        }
                    }
                }
            } else {
                proof {
                    assert forall|y: u32| r@.contains(y) <==> exists|j: int| 0 <= j < i + 1 && ms[j].id == y && #[trigger] flags[j] by {
                        if exists|j: int| 0 <= j < i + 1 && ms[j].id == y && #[trigger] flags[j] {
                            let j = choose|j: int| 0 <= j < i + 1 && ms[j].id == y && #[trigger] flags[j];
                            assert(j < i);
                        }
                    }
                }
            }
            i = i + 1;
        }
        assert(r@.to_set() =~= flagged_ids(ms, flags));
        r
    }
}

/// Toggling a known monitor twice gives back the selection there was before.
pub proof fn toggle_twice_restores(v: SelectionView, id: u32)
    requires
        v.knows(id),
    ensures
        v.toggled(id).toggled(id).selected == v.selected,
{
    assert(v.toggled(id).toggled(id).selected =~= v.selected);
}

/// After hovering `a` and then `b`, both known and distinct, `b` is hovered
/// and `a` is not.
pub proof fn hover_last_write_wins(v: SelectionView, a: u32, b: u32)
    requires
        a != b,
        v.knows(a),
        v.knows(b),
    ensures
        v.hovering(a).hovering(b).hovered == Some(b),
        v.hovering(a).hovering(b).hovered != Some(a),
{
}

} // verus!
