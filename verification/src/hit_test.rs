//! The hit-test index: the ordered list of clickable rectangles of the
//! current frame.
//!
//! The index is rebuilt from scratch for every accepted envelope.  A lookup
//! scans the targets in insertion order — command list order — and returns
//! the first rectangle containing the point, so on overlap the rectangle
//! that appears earlier in the command list wins, not the one drawn on top.

use vstd::prelude::*;

use crate::model::{Command, RenderEnvelope};

verus! {

/// A named rectangular interactive region copied out of a clickable rect.
#[derive(Debug, Clone)]
pub struct HitTarget {
    pub id: String,
    pub x: i32,
    pub y: i32,
    pub w: u32,
    pub h: u32,
}

/// The mathematical content of a hit target.
pub ghost struct HitTargetView {
    pub id: Seq<char>,
    pub x: int,
    pub y: int,
    pub w: int,
    pub h: int,
}

impl View for HitTarget {
    type V = HitTargetView;

    open spec fn view(&self) -> HitTargetView {
        HitTargetView {
            id: self.id@,
            x: self.x as int,
            y: self.y as int,
            w: self.w as int,
            h: self.h as int,
        }
    }
}

/// Whether the point `(x, y)` lies inside the target's rectangle.
pub open spec fn spec_target_contains(t: HitTargetView, x: int, y: int) -> bool {
    t.x <= x < t.x + t.w && t.y <= y < t.y + t.h
}

/// Index of the first target at or after position `k` containing `(x, y)`.
pub open spec fn spec_hit_from(ts: Seq<HitTargetView>, x: int, y: int, k: int) -> Option<int>
    decreases ts.len() - k,
{
    if k < 0 || k >= ts.len() {
        None
    } else if spec_target_contains(ts[k], x, y) {
        Some(k)
    } else {
        spec_hit_from(ts, x, y, k + 1)
    }
}

/// Index of the first target containing `(x, y)`: first-in-list wins.
pub open spec fn spec_hit_index(ts: Seq<HitTargetView>, x: int, y: int) -> Option<int> {
    spec_hit_from(ts, x, y, 0)
}

/// The targets an envelope's command list gives rise to, in command order:
/// one per clickable rect that declares an id.
pub open spec fn spec_hit_targets(cmds: Seq<Command>) -> Seq<HitTargetView>
    decreases cmds.len(),
{
    if cmds.len() == 0 {
        Seq::empty()
    } else {
        let rest = spec_hit_targets(cmds.drop_last());
        match cmds.last() {
            Command::Rect { id, x, y, w, h, clickable, .. } => {
                if clickable && id is Some {
                    rest.push(
                        HitTargetView {
                            id: id->0@,
                            x: x as int,
                            y: y as int,
                            w: w as int,
                            h: h as int,
                        },
                    )
                } else {
                    rest
                }
            },
            _ => rest,
        }
    }
}

/// An ordered sequence of hit targets, rebuilt per accepted frame.
#[derive(Debug)]
pub struct HitTestIndex {
    items: Vec<HitTarget>,
}

impl View for HitTestIndex {
    type V = Seq<HitTargetView>;

    closed spec fn view(&self) -> Seq<HitTargetView> {
        self.items@.map_values(|t: HitTarget| t@)
    }
}

impl HitTestIndex {
    /// An empty index.
    pub fn new() -> (r: Self)
        ensures
            r@.len() == 0,
    {
        let r = Self { items: Vec::new() };
        proof {
            assert(r@.len() == 0);
        }
        r
    }

    /// Drops every target.
    pub fn reset(&mut self)
        ensures
            final(self)@.len() == 0,
    {
        self.items.clear();
    }

    /// Appends a target at the end of the scan order.
    pub fn add(&mut self, target: HitTarget)
        ensures
            final(self)@ == old(self)@.push(target@),
    {
        let ghost t0 = target@;
        self.items.push(target);
        proof {
            assert(final(self)@ =~= old(self)@.push(t0));
        }
    }

    /// The id of the first target containing `(x, y)`, in insertion order.
    pub fn hit(&self, x: i32, y: i32) -> (r: Option<&str>)
        ensures
            (match spec_hit_index(self@, x as int, y as int) {
                Some(k) => r matches Some(s) && s@ == self@[k].id,
                None => r is None,
            }),
    {
        let ghost ts = self@;
        let mut k: usize = 0;
        #[verifier::loop_isolation(false)]
        while k < self.items.len()
            invariant
                0 <= k <= ts.len(),
                spec_hit_from(ts, x as int, y as int, 0) == spec_hit_from(
                    ts,
                    x as int,
                    y as int,
                    k as int,
                ),
            decreases ts.len() - k,
        {
            let item = &self.items[k];
            if x as i64 >= item.x as i64 && y as i64 >= item.y as i64 && (x as i64) < item.x as i64
                + item.w as i64 && (y as i64) < item.y as i64 + item.h as i64 {
                return Some(item.id.as_str());
            }
            k = k + 1;
        }
        None
    }

    /// The first target containing `(x, y)`, in insertion order.
    pub fn hit_target(&self, x: i32, y: i32) -> (r: Option<&HitTarget>)
        ensures
            (match spec_hit_index(self@, x as int, y as int) {
                Some(k) => r matches Some(t) && t@ == self@[k],
                None => r is None,
            }),
    {
        let ghost ts = self@;
        let mut k: usize = 0;
        #[verifier::loop_isolation(false)]
        while k < self.items.len()
            invariant
                0 <= k <= ts.len(),
                spec_hit_from(ts, x as int, y as int, 0) == spec_hit_from(
                    ts,
                    x as int,
                    y as int,
                    k as int,
                ),
            decreases ts.len() - k,
        {
            let item = &self.items[k];
            if x as i64 >= item.x as i64 && y as i64 >= item.y as i64 && (x as i64) < item.x as i64
                + item.w as i64 && (y as i64) < item.y as i64 + item.h as i64 {
                return Some(item);
            }
            k = k + 1;
        }
        None
    }
}

/// Clears the index and repopulates it from the envelope's command list:
/// one target per clickable rect declaring an id, in command order.
#[verifier::loop_isolation(false)]
pub fn build_hit_test(index: &mut HitTestIndex, render: &RenderEnvelope)
    ensures
        final(index)@ == spec_hit_targets(render.commands@),
{
    index.reset();
    let cmds = &render.commands;
    let ghost cs = cmds@;
    let mut i: usize = 0;
    while i < cmds.len()
        invariant
            0 <= i <= cs.len(),
            index@ == spec_hit_targets(cs.take(i as int)),
        decreases cs.len() - i,
    {
        proof {
            assert(cs.take(i as int + 1).drop_last() =~= cs.take(i as int));
            assert(cs.take(i as int + 1).last() == cs[i as int]);
        }
        if let Command::Rect { id: Some(idv), x, y, w, h, clickable: true, .. } = &cmds[i] {
            index.add(HitTarget { id: idv.clone(), x: *x, y: *y, w: *w, h: *h });
        }
        i = i + 1;
    }
    proof {
        assert(cs.take(cs.len() as int) =~= cs);
    }
}

/// First-in-list wins: when two targets both contain the point, a lookup
/// returns the one with the smaller index.
pub proof fn lemma_first_target_wins(ts: Seq<HitTargetView>, x: int, y: int, a: int, b: int)
    requires
        0 <= a < b < ts.len(),
        spec_target_contains(ts[a], x, y),
    ensures
        (match spec_hit_index(ts, x, y) {
            Some(k) => k <= a,
            None => false,
        }),
{
    lemma_hit_from_le(ts, x, y, 0, a);
}

proof fn lemma_hit_from_le(ts: Seq<HitTargetView>, x: int, y: int, k: int, a: int)
    requires
        0 <= k <= a < ts.len(),
        spec_target_contains(ts[a], x, y),
    ensures
        (match spec_hit_from(ts, x, y, k) {
            Some(m) => k <= m <= a,
            None => false,
        }),
    decreases a - k,
{
    if spec_target_contains(ts[k], x, y) {
    } else if k < a {
        lemma_hit_from_le(ts, x, y, k + 1, a);
    }
}

} // verus!
