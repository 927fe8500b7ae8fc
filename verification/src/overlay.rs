//! Overlay topology bookkeeping and reconciliation.
//!
//! One borderless, click-through overlay window is kept per attached
//! display.  When the hardware changes, the displays are enumerated afresh
//! and the overlay set is reconciled with them: overlays of vanished
//! displays are destroyed, overlays of surviving displays are moved to the
//! displays' current rectangles, and new displays get new overlays.
//!
//! [`OverlayTopology`] holds what is known about the live overlays.
//! [`OverlayTopology::plan_refresh`] turns a fresh enumeration into the
//! exact sequence of actions that reconciles the overlay set, and the
//! `note_*` operations record, one by one, what the platform layer actually
//! did, so the bookkeeping never drifts from the windows that exist.

use vstd::prelude::*;
use crate::monitor::{MonitorRect, MonitorSnapshot};

verus! {

broadcast use vstd::seq_lib::group_filter_ensures;

/// One live overlay window: which monitor it covers, the native handle of
/// the window, and the rectangle it was last placed at.
#[derive(Clone, Copy, PartialEq, Eq, Structural, Debug)]
pub struct OverlayEntry {
    pub monitor_id: i64,
    pub window_handle: i64,
    pub rect: MonitorRect,
}

/// One step of a reconciliation: what the platform layer must do to one
/// overlay window.
#[derive(Clone, Copy, PartialEq, Eq, Structural, Debug)]
pub enum OverlayAction {
    /// The monitor is gone: destroy its overlay window.
    Destroy { monitor_id: i64, window_handle: i64 },
    /// The monitor is still there: move its overlay window to the monitor's
    /// current rectangle.
    Update { monitor_id: i64, window_handle: i64, rect: MonitorRect },
    /// A new monitor: create an overlay window covering it.
    Create { monitor_id: i64, rect: MonitorRect },
}

/// The monitor ids of a sequence of overlay entries, in order.
pub open spec fn entry_ids(entries: Seq<OverlayEntry>) -> Seq<i64> {
    entries.map_values(|e: OverlayEntry| e.monitor_id)
}

/// The monitor ids of an enumeration, in order.
pub open spec fn snapshot_ids(monitors: Seq<MonitorSnapshot>) -> Seq<i64> {
    monitors.map_values(|m: MonitorSnapshot| m.monitor_id)
}

/// The rectangles of an enumeration, in order.
pub open spec fn layout_of(monitors: Seq<MonitorSnapshot>) -> Seq<MonitorRect> {
    monitors.map_values(|m: MonitorSnapshot| m.rect)
}

/// Whether the enumeration reports the monitor with this id as attached.
pub open spec fn is_live(monitors: Seq<MonitorSnapshot>, id: i64) -> bool {
    snapshot_ids(monitors).contains(id)
}

/// Whether some entry covers the monitor with this id.
pub open spec fn has_id(entries: Seq<OverlayEntry>, id: i64) -> bool {
    entry_ids(entries).contains(id)
}

/// The entry covering the monitor with this id.  Meaningful when
/// [`has_id`] holds and the ids are unique.
pub open spec fn entry_with_id(entries: Seq<OverlayEntry>, id: i64) -> OverlayEntry {
    entries[entry_ids(entries).index_of(id)]
}

/// No two entries cover the same monitor.
pub open spec fn unique_entry_ids(entries: Seq<OverlayEntry>) -> bool {
    entry_ids(entries).no_duplicates()
}

/// The entries whose monitors the enumeration no longer reports.
pub open spec fn stale_entries(entries: Seq<OverlayEntry>, monitors: Seq<MonitorSnapshot>) -> Seq<OverlayEntry> {
    entries.filter(|e: OverlayEntry| !is_live(monitors, e.monitor_id))
}

/// The entries whose monitors the enumeration still reports.
pub open spec fn surviving_entries(entries: Seq<OverlayEntry>, monitors: Seq<MonitorSnapshot>) -> Seq<OverlayEntry> {
    entries.filter(|e: OverlayEntry| is_live(monitors, e.monitor_id))
}

/// The action that tears down one stale entry.
pub open spec fn destroy_action_of(e: OverlayEntry) -> OverlayAction {
    OverlayAction::Destroy { monitor_id: e.monitor_id, window_handle: e.window_handle }
}

/// The teardown half of a reconciliation: one destroy action per stale
/// entry, in bookkeeping order.
pub open spec fn destroy_actions(entries: Seq<OverlayEntry>, monitors: Seq<MonitorSnapshot>) -> Seq<OverlayAction> {
    stale_entries(entries, monitors).map_values(|e: OverlayEntry| destroy_action_of(e))
}

/// The action that brings the overlay set in line with one enumerated
/// monitor: an update of the existing overlay when there is one, else a
/// creation.
pub open spec fn sync_action_of(entries: Seq<OverlayEntry>, m: MonitorSnapshot) -> OverlayAction {
    if has_id(entries, m.monitor_id) {
        OverlayAction::Update {
            monitor_id: m.monitor_id,
            window_handle: entry_with_id(entries, m.monitor_id).window_handle,
            rect: m.rect,
        }
    } else {
        OverlayAction::Create { monitor_id: m.monitor_id, rect: m.rect }
    }
}

/// The construction half of a reconciliation: one update or create action
/// per enumerated monitor, in enumeration order.
pub open spec fn sync_actions(entries: Seq<OverlayEntry>, monitors: Seq<MonitorSnapshot>) -> Seq<OverlayAction> {
    monitors.map_values(|m: MonitorSnapshot| sync_action_of(entries, m))
}

/// The full reconciliation plan for one enumeration: first destroy every
/// stale overlay, then walk the enumeration in order, updating or creating.
pub open spec fn refresh_plan(entries: Seq<OverlayEntry>, monitors: Seq<MonitorSnapshot>) -> Seq<OverlayAction> {
    destroy_actions(entries, monitors) + sync_actions(entries, monitors)
}

/// `entries` with the rectangle of the entry covering `id` replaced.  The
/// identity when no entry covers `id`.
pub open spec fn with_rect(entries: Seq<OverlayEntry>, id: i64, rect: MonitorRect) -> Seq<OverlayEntry> {
    entries.map_values(|e: OverlayEntry|
        if e.monitor_id == id {
            OverlayEntry { monitor_id: e.monitor_id, window_handle: e.window_handle, rect }
        } else {
            e
        })
}

/// `entries` without every entry covering `id`.
pub open spec fn without_id(entries: Seq<OverlayEntry>, id: i64) -> Seq<OverlayEntry> {
    entries.filter(|e: OverlayEntry| e.monitor_id != id)
}

/// What is known about the live overlay windows: one entry per covered
/// monitor, and the rectangles of the last committed enumeration.
pub struct OverlayTopology {
    overlays: Vec<OverlayEntry>,
    monitor_rects: Vec<MonitorRect>,
}

impl OverlayTopology {
    /// The overlay entries, in bookkeeping order.
    pub closed spec fn entries(self) -> Seq<OverlayEntry> {
        self.overlays@
    }

    /// The rectangles of the last committed enumeration.
    pub closed spec fn layout(self) -> Seq<MonitorRect> {
        self.monitor_rects@
    }

    /// Well-formedness: no two overlays cover the same monitor.
    pub open spec fn wf(self) -> bool {
        unique_entry_ids(self.entries())
    }

    /// A topology with no overlays and no recorded layout.
    pub fn new() -> (topology: OverlayTopology)
        ensures
            topology.entries() == Seq::<OverlayEntry>::empty(),
            topology.layout() == Seq::<MonitorRect>::empty(),
            topology.wf(),
    {
        let topology = OverlayTopology { overlays: Vec::new(), monitor_rects: Vec::new() };
        proof {
            assert(entry_ids(topology.entries()) =~= Seq::<i64>::empty());
        }
        topology
    }

    /// How many overlays are alive.
    pub fn overlay_count(&self) -> (count: usize)
        ensures
            count == self.entries().len(),
    {
        self.overlays.len()
    }

    /// The index of the entry covering `monitor_id`, or `None` when no entry
    /// does.
    fn find_entry_index(&self, monitor_id: i64) -> (found: Option<usize>)
        requires
            self.wf(),
        ensures
            match found {
                Some(i) => {
                    &&& i < self.entries().len()
                    &&& self.entries()[i as int].monitor_id == monitor_id
                    &&& has_id(self.entries(), monitor_id)
                    &&& self.entries()[i as int] == entry_with_id(self.entries(), monitor_id)
                },
                None => !has_id(self.entries(), monitor_id),
            },
    {
        let ghost es = self.entries();
        let mut i: usize = 0;
        while i < self.overlays.len()
            invariant
                self.wf(),
                es == self.entries(),
                i <= es.len(),
                forall|k: int| 0 <= k < i ==> es[k].monitor_id != monitor_id,
            decreases self.overlays.len() - i,
        {
            if self.overlays[i].monitor_id == monitor_id {
                proof {
                    assert(entry_ids(es)[i as int] == monitor_id);
                    assert(has_id(es, monitor_id));
                    let j = entry_ids(es).index_of(monitor_id);
                    assert(0 <= j < entry_ids(es).len() && entry_ids(es)[j] == monitor_id);
                    assert(j == i as int);
                }
                return Some(i);
            }
            i = i + 1;
        }
        proof {
            if has_id(es, monitor_id) {
                let j = choose|j: int|
                    0 <= j < entry_ids(es).len() && entry_ids(es)[j] == monitor_id;
                assert(es[j].monitor_id == monitor_id);
            }
        }
        None
    }

    /// Whether some overlay covers the monitor with this id.
    pub fn covers(&self, monitor_id: i64) -> (covered: bool)
        requires
            self.wf(),
        ensures
            covered == has_id(self.entries(), monitor_id),
    {
        match self.find_entry_index(monitor_id) {
            Some(_) => true,
            None => false,
        }
    }

    /// The entry at one position of the bookkeeping order.
    pub fn entry_at(&self, index: usize) -> (entry: OverlayEntry)
        requires
            index < self.entries().len(),
        ensures
            entry == self.entries()[index as int],
    {
        self.overlays[index]
    }

    /// Computes the reconciliation plan for a fresh enumeration.  The
    /// topology itself is not changed: the platform layer walks the plan,
    /// performs each action, and reports back through the `note_*`
    /// operations.
    pub fn plan_refresh(&self, monitors: &Vec<MonitorSnapshot>) -> (plan: Vec<OverlayAction>)
        requires
            self.wf(),
        ensures
            plan@ == refresh_plan(self.entries(), monitors@),
    {
        let ghost es = self.entries();

        let mut plan: Vec<OverlayAction> = Vec::new();
        let mut i: usize = 0;
        while i < self.overlays.len()
            invariant
                self.wf(),
                es == self.entries(),
                i <= es.len(),
                plan@ == destroy_actions(es.take(i as int), monitors@),
            decreases self.overlays.len() - i,
        {
            let entry = self.overlays[i];
            let live = monitors_contain_id(monitors, entry.monitor_id);
            proof {
                reveal(Seq::filter);
                assert(es.take(i as int + 1).drop_last() =~= es.take(i as int));
                assert(es.take(i as int + 1).last() == entry);
                if !is_live(monitors@, entry.monitor_id) {
                    assert(stale_entries(es.take(i as int + 1), monitors@)
                        == stale_entries(es.take(i as int), monitors@).push(entry));
                    assert(destroy_actions(es.take(i as int + 1), monitors@)
                        =~= destroy_actions(es.take(i as int), monitors@)
                            .push(destroy_action_of(entry)));
                } else {
                    assert(stale_entries(es.take(i as int + 1), monitors@)
                        == stale_entries(es.take(i as int), monitors@));
                }
            }
            if !live {
                plan.push(OverlayAction::Destroy {
                    monitor_id: entry.monitor_id,
                    window_handle: entry.window_handle,
                });
            }
            i = i + 1;
        }
        proof {
            assert(es.take(es.len() as int) =~= es);
        }

        let mut j: usize = 0;
        while j < monitors.len()
            invariant
                self.wf(),
                es == self.entries(),
                j <= monitors@.len(),
                plan@ == destroy_actions(es, monitors@) + sync_actions(es, monitors@.take(j as int)),
            decreases monitors.len() - j,
        {
            let m = monitors[j];
            let action = match self.find_entry_index(m.monitor_id) {
                Some(k) => OverlayAction::Update {
                    monitor_id: m.monitor_id,
                    window_handle: self.overlays[k].window_handle,
                    rect: m.rect,
                },
                None => OverlayAction::Create { monitor_id: m.monitor_id, rect: m.rect },
            };
            proof {
                assert(action == sync_action_of(es, m));
                assert(sync_actions(es, monitors@.take(j as int + 1))
                    =~= sync_actions(es, monitors@.take(j as int)).push(sync_action_of(es, m)));
            }
            plan.push(action);
            j = j + 1;
        }
        proof {
            assert(monitors@.take(monitors@.len() as int) =~= monitors@);
        }
        plan
    }

    /// Records that the overlay window of `monitor_id` was destroyed.  The
    /// entry covering it, if any, is dropped; the committed layout is not
    /// touched.
    pub fn note_destroyed(&mut self, monitor_id: i64)
        requires
            old(self).wf(),
        ensures
            final(self).entries() == without_id(old(self).entries(), monitor_id),
            final(self).layout() == old(self).layout(),
            final(self).wf(),
            !has_id(final(self).entries(), monitor_id),
    {
        let ghost es = self.entries();
        let found = self.find_entry_index(monitor_id);
        match found {
            Some(i) => {
                self.overlays.remove(i);
                proof {
                    lemma_remove_unique_id_is_filter(es, i as int, monitor_id);
                    lemma_remove_keeps_unique_ids(es, i as int);
                    lemma_without_id_excludes(es, monitor_id);
                }
            },
            None => {
                proof {
                    lemma_without_id_identity(es, monitor_id);
                    lemma_without_id_excludes(es, monitor_id);
                }
            },
        }
    }

    /// Records that a new overlay window was created for `monitor_id`.  The
    /// new entry is appended to the bookkeeping order.
    pub fn note_created(&mut self, monitor_id: i64, window_handle: i64, rect: MonitorRect)
        requires
            old(self).wf(),
            !has_id(old(self).entries(), monitor_id),
        ensures
            final(self).entries() == old(self).entries().push(
                OverlayEntry { monitor_id, window_handle, rect }),
            final(self).layout() == old(self).layout(),
            final(self).wf(),
    {
        let ghost es = self.entries();
        let entry = OverlayEntry { monitor_id, window_handle, rect };
        self.overlays.push(entry);
        proof {
            let new_ids = entry_ids(self.entries());
            assert(new_ids =~= entry_ids(es).push(monitor_id));
            assert forall|a: int, b: int|
                0 <= a < new_ids.len() && 0 <= b < new_ids.len() && a != b
                implies new_ids[a] != new_ids[b] by {
                if a < es.len() && b < es.len() {
                    assert(entry_ids(es)[a] != entry_ids(es)[b]);
                } else {
                    let inside = if a < es.len() { a } else { b };
                    if 0 <= inside < es.len() && entry_ids(es)[inside] == monitor_id {
                        assert(entry_ids(es).contains(monitor_id));
                    }
                }
            }
            assert(new_ids.no_duplicates());
        }
    }

    /// Records that the overlay window of `monitor_id` was moved to `rect`.
    /// The entry's handle is kept; when no entry covers `monitor_id`,
    /// nothing changes.
    pub fn note_updated(&mut self, monitor_id: i64, rect: MonitorRect)
        requires
            old(self).wf(),
        ensures
            final(self).entries() == with_rect(old(self).entries(), monitor_id, rect),
            final(self).layout() == old(self).layout(),
            final(self).wf(),
    {
        let ghost es = self.entries();
        let found = self.find_entry_index(monitor_id);
        match found {
            Some(i) => {
                let handle = self.overlays[i].window_handle;
                self.overlays[i] = OverlayEntry { monitor_id, window_handle: handle, rect };
                proof {
                    assert forall|k: int| 0 <= k < es.len() && k != i as int
                        implies es[k].monitor_id != monitor_id by {
                        assert(entry_ids(es)[k] == es[k].monitor_id);
                        assert(entry_ids(es)[i as int] == monitor_id);
                    }
                    assert(self.entries() =~= with_rect(es, monitor_id, rect));
                    assert(entry_ids(self.entries()) =~= entry_ids(es));
                }
            },
            None => {
                proof {
                    assert forall|k: int| 0 <= k < es.len()
                        implies es[k].monitor_id != monitor_id by {
                        assert(entry_ids(es)[k] == es[k].monitor_id);
                    }
                    assert(with_rect(es, monitor_id, rect) =~= es);
                }
            },
        }
    }

    /// Commits the rectangles of a fully processed enumeration as the
    /// current layout.
    pub fn commit_layout(&mut self, monitors: &Vec<MonitorSnapshot>)
        ensures
            final(self).entries() == old(self).entries(),
            final(self).layout() == layout_of(monitors@),
            final(self).wf() == old(self).wf(),
    {
        let mut rects: Vec<MonitorRect> = Vec::new();
        let mut i: usize = 0;
        while i < monitors.len()
            invariant
                i <= monitors@.len(),
                rects@ == layout_of(monitors@.take(i as int)),
            decreases monitors.len() - i,
        {
            rects.push(monitors[i].rect);
            proof {
                assert(layout_of(monitors@.take(i as int + 1))
                    =~= layout_of(monitors@.take(i as int)).push(monitors@[i as int].rect));
            }
            i = i + 1;
        }
        proof {
            assert(monitors@.take(monitors@.len() as int) =~= monitors@);
        }
        self.monitor_rects = rects;
    }

    /// Hands every entry out for teardown and leaves the topology empty.
    pub fn take_all(&mut self) -> (entries: Vec<OverlayEntry>)
        ensures
            entries@ == old(self).entries(),
            final(self).entries() == Seq::<OverlayEntry>::empty(),
            final(self).layout() == Seq::<MonitorRect>::empty(),
            final(self).wf(),
    {
        let mut taken: Vec<OverlayEntry> = Vec::new();
        core::mem::swap(&mut taken, &mut self.overlays);
        self.monitor_rects.clear();
        proof {
            assert(entry_ids(self.entries()) =~= Seq::<i64>::empty());
        }
        taken
    }

    /// The rectangles of the last committed enumeration, in order.
    pub fn monitors(&self) -> (rects: Vec<MonitorRect>)
        ensures
            rects@ == self.layout(),
    {
        let mut rects: Vec<MonitorRect> = Vec::new();
        let mut i: usize = 0;
        while i < self.monitor_rects.len()
            invariant
                i <= self.layout().len(),
                rects@ == self.layout().take(i as int),
            decreases self.monitor_rects.len() - i,
        {
            rects.push(self.monitor_rects[i]);
            proof {
                assert(self.layout().take(i as int + 1)
                    =~= self.layout().take(i as int).push(self.layout()[i as int]));
            }
            i = i + 1;
        }
        proof {
            assert(self.layout().take(self.layout().len() as int) =~= self.layout());
        }
        rects
    }
}

/// Whether the enumeration mentions `id`; the executable side of
/// [`is_live`].
fn monitors_contain_id(monitors: &Vec<MonitorSnapshot>, id: i64) -> (found: bool)
    ensures
        found == is_live(monitors@, id),
{
    let mut j: usize = 0;
    while j < monitors.len()
        invariant
            j <= monitors@.len(),
            forall|k: int| 0 <= k < j ==> monitors@[k].monitor_id != id,
        decreases monitors.len() - j,
    {
        if monitors[j].monitor_id == id {
            proof {
                assert(snapshot_ids(monitors@)[j as int] == id);
            }
            return true;
        }
        j = j + 1;
    }
    proof {
        if is_live(monitors@, id) {
            let k = choose|k: int|
                0 <= k < snapshot_ids(monitors@).len() && snapshot_ids(monitors@)[k] == id;
            assert(monitors@[k].monitor_id == id);
        }
    }
    false
}

/// Whether an enumeration reports every monitor at most once, as the
/// operating system does.  The reconciliation contracts ask for this.
pub fn snapshot_ids_unique(monitors: &Vec<MonitorSnapshot>) -> (unique: bool)
    ensures
        unique == snapshot_ids(monitors@).no_duplicates(),
{
    let n = monitors.len();
    let mut i: usize = 0;
    while i < n
        invariant
            n == monitors@.len(),
            i <= n,
            forall|a: int, b: int| 0 <= a < i && a < b < n
                ==> (#[trigger] monitors@[a]).monitor_id != (#[trigger] monitors@[b]).monitor_id,
        decreases n - i,
    {
        let mut j: usize = i + 1;
        while j < n
            invariant
                n == monitors@.len(),
                i < j <= n || (i + 1 > n && j == i + 1),
                i < n,
                forall|b: int| i < b < j
                    ==> monitors@[i as int].monitor_id != (#[trigger] monitors@[b]).monitor_id,
            decreases n - j,
        {
            if monitors[i].monitor_id == monitors[j].monitor_id {
                proof {
                    assert(snapshot_ids(monitors@)[i as int] == monitors@[i as int].monitor_id);
                    assert(snapshot_ids(monitors@)[j as int] == monitors@[j as int].monitor_id);
                }
                return false;
            }
            j = j + 1;
        }
        i = i + 1;
    }
    proof {
        assert forall|a: int, b: int|
            0 <= a < n && 0 <= b < n && a != b
            implies snapshot_ids(monitors@)[a] != snapshot_ids(monitors@)[b] by {
            if a < b {
                assert(monitors@[a].monitor_id != monitors@[b].monitor_id);
            } else {
                assert(monitors@[b].monitor_id != monitors@[a].monitor_id);
            }
        }
    }
    true
}

/// When no entry covers `id`, filtering `id` out changes nothing.
proof fn lemma_without_id_identity(es: Seq<OverlayEntry>, id: i64)
    requires
        !has_id(es, id),
    ensures
        without_id(es, id) == es,
    decreases es.len(),
{
    reveal(Seq::filter);
    if es.len() > 0 {
        let front = es.drop_last();
        assert forall|k: int| 0 <= k < front.len()
            implies !(entry_ids(front)[k] == id) by {
            assert(entry_ids(es)[k] == entry_ids(front)[k]);
        }
        assert(!has_id(front, id));
        lemma_without_id_identity(front, id);
        assert(entry_ids(es)[es.len() - 1] == es.last().monitor_id);
        assert(es.last().monitor_id != id);
        assert(without_id(es, id) =~= es);
    } else {
        assert(without_id(es, id) =~= es);
    }
}

/// Removing the only entry with `id` is the same as filtering `id` out.
proof fn lemma_remove_unique_id_is_filter(es: Seq<OverlayEntry>, i: int, id: i64)
    requires
        unique_entry_ids(es),
        0 <= i < es.len(),
        es[i].monitor_id == id,
    ensures
        es.remove(i) == without_id(es, id),
{
    let front = es.subrange(0, i);
    let middle = seq![es[i]];
    let back = es.subrange(i + 1, es.len() as int);
    assert(es =~= (front + middle) + back);
    assert(without_id((front + middle) + back, id) == without_id(es, id));
    Seq::filter_distributes_over_add(front + middle, back, |e: OverlayEntry| e.monitor_id != id);
    Seq::filter_distributes_over_add(front, middle, |e: OverlayEntry| e.monitor_id != id);

    assert forall|k: int| 0 <= k < front.len()
        implies entry_ids(front)[k] != id by {
        assert(entry_ids(es)[k] == es[k].monitor_id);
        assert(entry_ids(es)[i] == id);
        assert(entry_ids(front)[k] == es[k].monitor_id);
    }
    assert(!has_id(front, id));
    lemma_without_id_identity(front, id);

    assert forall|k: int| 0 <= k < back.len()
        implies entry_ids(back)[k] != id by {
        assert(entry_ids(es)[k + i + 1] == es[k + i + 1].monitor_id);
        assert(entry_ids(es)[i] == id);
        assert(entry_ids(back)[k] == es[k + i + 1].monitor_id);
    }
    assert(!has_id(back, id));
    lemma_without_id_identity(back, id);

    reveal_with_fuel(Seq::filter, 3);
    assert(middle.drop_last() =~= Seq::<OverlayEntry>::empty());
    assert(without_id(middle, id) =~= Seq::<OverlayEntry>::empty());

    assert(without_id(es, id) =~= front + back);
    assert(es.remove(i) =~= front + back);
}

/// Removing an entry never introduces a duplicate monitor id.
proof fn lemma_remove_keeps_unique_ids(es: Seq<OverlayEntry>, i: int)
    requires
        unique_entry_ids(es),
        0 <= i < es.len(),
    ensures
        unique_entry_ids(es.remove(i)),
{
    let shrunk = es.remove(i);
    es.remove_ensures(i);
    assert forall|a: int, b: int|
        0 <= a < entry_ids(shrunk).len() && 0 <= b < entry_ids(shrunk).len() && a != b
        implies entry_ids(shrunk)[a] != entry_ids(shrunk)[b] by {
        let oa = if a < i { a } else { a + 1 };
        let ob = if b < i { b } else { b + 1 };
        assert(shrunk[a] == es[oa]);
        assert(shrunk[b] == es[ob]);
        assert(entry_ids(es)[oa] != entry_ids(es)[ob]);
    }
}

/// Nothing filtered to exclude `id` still covers `id`.
proof fn lemma_without_id_excludes(es: Seq<OverlayEntry>, id: i64)
    ensures
        !has_id(without_id(es, id), id),
{
    let kept = without_id(es, id);
    if has_id(kept, id) {
        let k = choose|k: int| 0 <= k < entry_ids(kept).len() && entry_ids(kept)[k] == id;
        assert(kept[k].monitor_id == id);
    }
}

} // verus!
