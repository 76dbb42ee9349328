use vstd::prelude::*;
use crate::profile::join_lines;
use crate::text::{decimal, push_decimal, push_signed_decimal, signed_decimal, string_of};

verus! {

/// A rectangle in virtual-screen pixels; `right` and `bottom` are exclusive.
#[derive(Clone, Copy, Debug, PartialEq, Eq, Structural)]
pub struct Rect {
    pub left: i32,
    pub top: i32,
    pub right: i32,
    pub bottom: i32,
}

impl Rect {
    /// The corners are ordered and the width and height fit an `i32`.
    pub open spec fn wf(self) -> bool {
        &&& self.left <= self.right
        &&& self.top <= self.bottom
        &&& self.right - self.left <= i32::MAX
        &&& self.bottom - self.top <= i32::MAX
    }

    pub fn new(left: i32, top: i32, right: i32, bottom: i32) -> (r: Rect)
        requires
            (Rect { left, top, right, bottom }).wf(),
        ensures
            r == (Rect { left, top, right, bottom }),
            r.wf(),
    {
        Rect { left, top, right, bottom }
    }

    pub fn width(&self) -> (r: i32)
        requires
            self.wf(),
        ensures
            r == self.right - self.left,
    {
        self.right - self.left
    }

    pub fn height(&self) -> (r: i32)
        requires
            self.wf(),
        ensures
            r == self.bottom - self.top,
    {
        self.bottom - self.top
    }
}

/// A one-line description of a monitor: its id, its size, and its first and
/// last pixel, as in `1: 1920 x 1080; (0, 0, 1919, 1079)`.
pub open spec fn info_line(m: MonitorView) -> Seq<char> {
    let b = m.bounds;
    decimal(m.id as nat) + seq![':', ' '] + signed_decimal(b.right - b.left) + seq![' ', 'x', ' ']
        + signed_decimal(b.bottom - b.top) + seq![';', ' ', '('] + signed_decimal(b.left as int)
        + seq![',', ' '] + signed_decimal(b.top as int) + seq![',', ' '] + signed_decimal(
        b.right - 1,
    ) + seq![',', ' '] + signed_decimal(b.bottom - 1) + seq![')']
}

fn push_sep(out: &mut Vec<char>, a: char, b: char)
    ensures
        final(out)@ == old(out)@ + seq![a, b],
{
    out.push(a);
    out.push(b);
    assert(final(out)@ =~= old(out)@ + seq![a, b]);
}

/// Appends one monitor in the form of `info_line`.
fn push_info_line(out: &mut Vec<char>, m: &Monitor)
    ensures
        final(out)@ == old(out)@ + info_line(m@),
{
    let b = m.bounds();
    let ghost bv = m@.bounds;
    let ghost o = out@;
    push_decimal(out, m.id() as u64);
    push_sep(out, ':', ' ');
    push_signed_decimal(out, b.width() as i64);
    let ghost upto_width = decimal(m@.id as nat) + seq![':', ' '] + signed_decimal(bv.right - bv.left);
    assert(out@ =~= o + upto_width);
    push_sep(out, ' ', 'x');
    out.push(' ');
    push_signed_decimal(out, b.height() as i64);
    let ghost upto_height = upto_width + seq![' ', 'x', ' '] + signed_decimal(bv.bottom - bv.top);
    assert(out@ =~= o + upto_height);
    push_sep(out, ';', ' ');
    out.push('(');
    push_signed_decimal(out, b.left as i64);
    let ghost upto_left = upto_height + seq![';', ' ', '('] + signed_decimal(bv.left as int);
    assert(out@ =~= o + upto_left);
    push_sep(out, ',', ' ');
    push_signed_decimal(out, b.top as i64);
    let ghost upto_top = upto_left + seq![',', ' '] + signed_decimal(bv.top as int);
    assert(out@ =~= o + upto_top);
    push_sep(out, ',', ' ');
    push_signed_decimal(out, b.right as i64 - 1);
    let ghost upto_right = upto_top + seq![',', ' '] + signed_decimal(bv.right - 1);
    assert(out@ =~= o + upto_right);
    push_sep(out, ',', ' ');
    push_signed_decimal(out, b.bottom as i64 - 1);
    out.push(')');
    let ghost whole = upto_right + seq![',', ' '] + signed_decimal(bv.bottom - 1) + seq![')'];
    assert(out@ =~= o + whole);
    assert(whole == info_line(m@));
}

/// What a `Monitor` is: its id, its full bounds and its work area.
pub struct MonitorView {
    pub id: u32,
    pub bounds: Rect,
    pub work: Rect,
}

/// One active physical display.
#[derive(Clone, Copy, Debug)]
pub struct Monitor {
    id: u32,
    bounds: Rect,
    work: Rect,
}

impl View for Monitor {
    type V = MonitorView;

    closed spec fn view(&self) -> MonitorView {
        MonitorView { id: self.id, bounds: self.bounds, work: self.work }
    }
}

impl Monitor {
    #[verifier::type_invariant]
    spec fn inv(self) -> bool {
        self.bounds.wf() && self.work.wf()
    }

    /// A monitor whose geometry is still unknown: both rectangles are empty at the origin.
    pub fn new(id: u32) -> (r: Monitor)
        ensures
            r@ == (MonitorView { id, bounds: Rect { left: 0, top: 0, right: 0, bottom: 0 }, work: Rect { left: 0, top: 0, right: 0, bottom: 0 } }),
    {
        let zero = Rect { left: 0, top: 0, right: 0, bottom: 0 };
        Monitor { id, bounds: zero, work: zero }
    }

    pub fn from_geometry(id: u32, bounds: Rect, work: Rect) -> (r: Monitor)
        requires
            bounds.wf(),
            work.wf(),
        ensures
            r@ == (MonitorView { id, bounds, work }),
    {
        Monitor { id, bounds, work }
    }

    pub fn id(&self) -> (r: u32)
        ensures
            r == self@.id,
    {
        self.id
    }

    pub fn bounds(&self) -> (r: Rect)
        ensures
            r == self@.bounds,
            r.wf(),
    {
        proof { use_type_invariant(self); }
        self.bounds
    }

    pub fn work_bounds(&self) -> (r: Rect)
        ensures
            r == self@.work,
            r.wf(),
    {
        proof { use_type_invariant(self); }
        self.work
    }

    pub fn left(&self) -> (r: i32)
        ensures
            r == self@.bounds.left,
    {
        self.bounds.left
    }

    pub fn top(&self) -> (r: i32)
        ensures
            r == self@.bounds.top,
    {
        self.bounds.top
    }

    pub fn right(&self) -> (r: i32)
        ensures
            r == self@.bounds.right,
    {
        self.bounds.right
    }

    pub fn bottom(&self) -> (r: i32)
        ensures
            r == self@.bounds.bottom,
    {
        self.bounds.bottom
    }

    pub fn width(&self) -> (r: i32)
        ensures
            r == self@.bounds.right - self@.bounds.left,
    {
        proof { use_type_invariant(self); }
        self.bounds.width()
    }

    pub fn height(&self) -> (r: i32)
        ensures
            r == self@.bounds.bottom - self@.bounds.top,
    {
        proof { use_type_invariant(self); }
        self.bounds.height()
    }

    pub fn work_left(&self) -> (r: i32)
        ensures
            r == self@.work.left,
    {
        self.work.left
    }

    pub fn work_top(&self) -> (r: i32)
        ensures
            r == self@.work.top,
    {
        self.work.top
    }

    pub fn work_right(&self) -> (r: i32)
        ensures
            r == self@.work.right,
    {
        self.work.right
    }

    pub fn work_bottom(&self) -> (r: i32)
        ensures
            r == self@.work.bottom,
    {
        self.work.bottom
    }

    pub fn work_width(&self) -> (r: i32)
        ensures
            r == self@.work.right - self@.work.left,
    {
        proof { use_type_invariant(self); }
        self.work.width()
    }

    pub fn work_height(&self) -> (r: i32)
        ensures
            r == self@.work.bottom - self@.work.top,
    {
        proof { use_type_invariant(self); }
        self.work.height()
    }

    /// The monitor described on one line, in the form of `info_line`.
    pub fn info_str(&self) -> (r: String)
        ensures
            r@ == info_line(self@),
    {
        let mut out: Vec<char> = Vec::new();
        push_info_line(&mut out, self);
        assert(out@ =~= info_line(self@));
        string_of(&out)
    }

    /// The rectangle an overlay window covers: the full bounds in fullscreen
    /// mode, the work area otherwise.
    pub fn frame(&self, fullscreen: bool) -> (r: Rect)
        ensures
            r == (if fullscreen { self@.bounds } else { self@.work }),
            r.wf(),
    {
        proof { use_type_invariant(self); }
        if fullscreen {
            self.bounds
        } else {
            self.work
        }
    }
}


/// The ids of `ms` strictly increase along the sequence.
pub open spec fn ids_increasing(ms: Seq<MonitorView>) -> bool {
    forall|i: int, j: int| 0 <= i < j < ms.len() ==> ms[i].id < ms[j].id
}

/// The monitors that were active at startup, in enumeration order.
pub struct Monitors {
    list: Vec<Monitor>,
}

impl View for Monitors {
    type V = Seq<MonitorView>;

    closed spec fn view(&self) -> Seq<MonitorView> {
        self.list@.map_values(|m: Monitor| m@)
    }
}

/// Whether some monitor in `ms` has the id `id`.
pub open spec fn has_id(ms: Seq<MonitorView>, id: u32) -> bool {
    exists|i: int| 0 <= i < ms.len() && ms[i].id == id
}

impl Monitors {
    #[verifier::type_invariant]
    spec fn inv(self) -> bool {
        ids_increasing(self@)
    }

    /// Ids strictly increase in every set of monitors.
    pub fn ids_are_increasing(&self)
        ensures
            ids_increasing(self@),
    {
        proof { use_type_invariant(self); }
    }

    pub fn new() -> (r: Monitors)
        ensures
            r@ == Seq::<MonitorView>::empty(),
    {
        let r = Monitors { list: Vec::new() };
        assert(r@ =~= Seq::<MonitorView>::empty());
        r
    }

    /// Appends a monitor; its id must be above every id already held.
    pub fn add(&mut self, monitor: Monitor)
        requires
            forall|i: int| 0 <= i < old(self)@.len() ==> old(self)@[i].id < monitor@.id,
        ensures
            final(self)@ == old(self)@.push(monitor@),
    {
        proof { use_type_invariant(&*self); }
        let mut list: Vec<Monitor> = Vec::new();
        std::mem::swap(&mut self.list, &mut list);
        list.push(monitor);
        assert(ids_increasing(list@.map_values(|m: Monitor| m@))) by {
            assert(list@.map_values(|m: Monitor| m@) =~= old(self)@.push(monitor@));
        }
        self.list = list;
        assert(self.list@.map_values(|m: Monitor| m@) =~= old(self)@.push(monitor@));
    }

    pub fn len(&self) -> (r: usize)
        ensures
            r == self@.len(),
    {
        self.list.len()
    }

    pub fn get(&self, i: usize) -> (r: Monitor)
        requires
            i < self@.len(),
        ensures
            r@ == self@[i as int],
    {
        self.list[i]
    }

    /// A copy of the monitors, in order.
    pub fn list(&self) -> (r: Vec<Monitor>)
        ensures
            r@.map_values(|m: Monitor| m@) == self@,
    {
        let mut r: Vec<Monitor> = Vec::new();
        let mut i: usize = 0;
        while i < self.list.len()
            invariant
                i <= self.list@.len(),
                r@.len() == i,
                r@.map_values(|m: Monitor| m@) =~= self@.take(i as int),
            decreases self.list@.len() - i,
        {
            let mon = self.list[i];
            r.push(mon);
            assert(self@[i as int] == mon@);
            i = i + 1;
            assert(r@.map_values(|m: Monitor| m@) =~= self@.take(i as int));
        }
        assert(self@.take(i as int) =~= self@);
        r
    }

    /// The ids of the monitors, in order.
    pub fn ids(&self) -> (r: Vec<u32>)
        ensures
            r@ == self@.map_values(|m: MonitorView| m.id),
    {
        let mut r: Vec<u32> = Vec::new();
        let mut i: usize = 0;
        while i < self.list.len()
            invariant
                i <= self.list@.len(),
                r@ =~= self@.take(i as int).map_values(|m: MonitorView| m.id),
            decreases self.list@.len() - i,
        {
            r.push(self.list[i].id());
            i = i + 1;
            assert(r@ =~= self@.take(i as int).map_values(|m: MonitorView| m.id));
        }
        assert(self@.take(i as int) =~= self@);
        r
    }

    /// Every monitor described on a line of its own, in order.
    pub fn info_text(&self) -> (r: String)
        ensures
            r@ == join_lines(self@.map_values(|m: MonitorView| info_line(m))),
    {
        let mut out: Vec<char> = Vec::new();
        let mut i: usize = 0;
        assert(self@.map_values(|m: MonitorView| info_line(m)).take(0) =~= Seq::<Seq<char>>::empty());
        while i < self.list.len()
            invariant
                i <= self@.len(),
                self.list@.len() == self@.len(),
                out@ == join_lines(self@.map_values(|m: MonitorView| info_line(m)).take(i as int)),
            decreases self@.len() - i,
        {
            let ghost lines = self@.map_values(|m: MonitorView| info_line(m));
            assert(lines.take(i + 1).drop_last() =~= lines.take(i as int));
            if i > 0 {
                out.push('\n');
            }
            push_info_line(&mut out, &self.list[i]);
            assert(out@ =~= join_lines(lines.take(i + 1)));
            i = i + 1;
        }
        assert(self@.map_values(|m: MonitorView| info_line(m)).take(i as int) =~= self@.map_values(|m: MonitorView| info_line(m)));
        string_of(&out)
    }

    /// The position of the monitor with id `id`, if there is one.
    pub fn position(&self, id: u32) -> (r: Option<usize>)
        ensures
            r matches Some(i) ==> i < self@.len() && self@[i as int].id == id,
            r is None <==> !has_id(self@, id),
    {
        let mut i: usize = 0;
        while i < self.list.len()
            invariant
                i <= self.list@.len(),
                forall|k: int| 0 <= k < i ==> self@[k].id != id,
            decreases self.list@.len() - i,
        {
            if self.list[i].id() == id {
                assert(self@[i as int].id == id);
                return Some(i);
            }
            i = i + 1;
        }
        None
    }

    /// The monitor with id `id`, if there is one.
    pub fn find(&self, id: u32) -> (r: Option<Monitor>)
        ensures
            r matches Some(m) ==> has_id(self@, id) && m@.id == id && self@.contains(m@),
            r is None <==> !has_id(self@, id),
    {
        match self.position(id) {
            Some(i) => Some(self.list[i]),
            None => None,
        }
    }
}

} // verus!
