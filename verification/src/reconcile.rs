//! Correctness of the reconciliation plan.
//!
//! [`apply_plan`] is the bookkeeping effect of walking a plan action by
//! action, exactly as the platform layer does through the `note_*`
//! operations of [`crate::overlay::OverlayTopology`].  The main theorem,
//! [`lemma_refresh_plan_reconciles`], pins the outcome of a full refresh
//! down to a single expression: the surviving overlays, in their old order
//! and with their rectangles brought up to date, followed by one new
//! overlay per newly attached monitor, in enumeration order.  From that
//! follow the properties the overlay manager lives by: after a refresh
//! there is exactly one overlay per attached monitor, each covering the
//! monitor's current rectangle, surviving overlays keep their window
//! handles, and no window handle is lost, because every handle that leaves
//! the bookkeeping stands in a destroy action of the plan.

use vstd::prelude::*;
use crate::monitor::{MonitorRect, MonitorSnapshot};
use crate::overlay::{
    OverlayEntry, OverlayAction, entry_ids, snapshot_ids, is_live, has_id, entry_with_id,
    unique_entry_ids, stale_entries, surviving_entries, destroy_action_of, destroy_actions,
    sync_action_of, sync_actions, refresh_plan, with_rect, without_id,
};

verus! {

broadcast use vstd::seq_lib::group_filter_ensures;

/// The monitor id an action concerns.
pub open spec fn action_id(action: OverlayAction) -> i64 {
    match action {
        OverlayAction::Destroy { monitor_id, .. } => monitor_id,
        OverlayAction::Update { monitor_id, .. } => monitor_id,
        OverlayAction::Create { monitor_id, .. } => monitor_id,
    }
}

/// Whether an action creates a new overlay window.
pub open spec fn is_create(action: OverlayAction) -> bool {
    match action {
        OverlayAction::Create { .. } => true,
        _ => false,
    }
}

/// Whether an action destroys an overlay window.
pub open spec fn is_destroy(action: OverlayAction) -> bool {
    match action {
        OverlayAction::Destroy { .. } => true,
        _ => false,
    }
}

/// How many overlay windows a plan creates.
pub open spec fn create_count(plan: Seq<OverlayAction>) -> nat
    decreases plan.len(),
{
    if plan.len() == 0 {
        0
    } else {
        (if is_create(plan[0]) {
            1nat
        } else {
            0nat
        }) + create_count(plan.drop_first())
    }
}

/// The bookkeeping effect of one action, exactly as the `note_*`
/// operations record it.  A creation consumes `new_handle`, the handle of
/// the window the platform layer just created.
pub open spec fn apply_action(entries: Seq<OverlayEntry>, action: OverlayAction, new_handle: i64) -> Seq<OverlayEntry> {
    match action {
        OverlayAction::Destroy { monitor_id, .. } => without_id(entries, monitor_id),
        OverlayAction::Update { monitor_id, rect, .. } => with_rect(entries, monitor_id, rect),
        OverlayAction::Create { monitor_id, rect } => entries.push(
            OverlayEntry { monitor_id, window_handle: new_handle, rect },
        ),
    }
}

/// The bookkeeping effect of walking a whole plan, consuming one handle
/// from `handles` per creation.
pub open spec fn apply_plan(entries: Seq<OverlayEntry>, plan: Seq<OverlayAction>, handles: Seq<i64>) -> Seq<OverlayEntry>
    decreases plan.len(),
{
    if plan.len() == 0 {
        entries
    } else if is_create(plan[0]) {
        apply_plan(apply_action(entries, plan[0], handles[0]), plan.drop_first(), handles.drop_first())
    } else {
        apply_plan(apply_action(entries, plan[0], 0), plan.drop_first(), handles)
    }
}

/// The enumerated monitors that have no overlay yet, in enumeration order.
pub open spec fn fresh_monitors(entries: Seq<OverlayEntry>, monitors: Seq<MonitorSnapshot>) -> Seq<MonitorSnapshot> {
    monitors.filter(|m: MonitorSnapshot| !has_id(entries, m.monitor_id))
}

/// The rectangle the enumeration reports for the monitor with this id.
/// Meaningful when the enumeration mentions `id` exactly once.
pub open spec fn rect_of(monitors: Seq<MonitorSnapshot>, id: i64) -> MonitorRect {
    monitors[snapshot_ids(monitors).index_of(id)].rect
}

/// The surviving overlays, in bookkeeping order, with their rectangles
/// brought up to date and their window handles untouched.
pub open spec fn refreshed_survivors(entries: Seq<OverlayEntry>, monitors: Seq<MonitorSnapshot>) -> Seq<OverlayEntry> {
    surviving_entries(entries, monitors).map_values(|e: OverlayEntry| OverlayEntry {
        monitor_id: e.monitor_id,
        window_handle: e.window_handle,
        rect: rect_of(monitors, e.monitor_id),
    })
}

/// One new overlay per fresh monitor, in enumeration order, carrying the
/// supplied window handles in order.
pub open spec fn created_entries(entries: Seq<OverlayEntry>, monitors: Seq<MonitorSnapshot>, handles: Seq<i64>) -> Seq<OverlayEntry> {
    Seq::new(fresh_monitors(entries, monitors).len(), |i: int| OverlayEntry {
        monitor_id: fresh_monitors(entries, monitors)[i].monitor_id,
        window_handle: handles[i],
        rect: fresh_monitors(entries, monitors)[i].rect,
    })
}

/// What the bookkeeping must look like after a full refresh.
pub open spec fn reconciled(entries: Seq<OverlayEntry>, monitors: Seq<MonitorSnapshot>, handles: Seq<i64>) -> Seq<OverlayEntry> {
    refreshed_survivors(entries, monitors) + created_entries(entries, monitors, handles)
}

/// Creations split over concatenation.
proof fn lemma_create_count_add(a: Seq<OverlayAction>, b: Seq<OverlayAction>)
    ensures
        create_count(a + b) == create_count(a) + create_count(b),
    decreases a.len(),
{
    if a.len() == 0 {
        assert(a + b =~= b);
    } else {
        assert((a + b).drop_first() =~= a.drop_first() + b);
        lemma_create_count_add(a.drop_first(), b);
    }
}

/// A plan without creations creates nothing.
proof fn lemma_create_count_zero(plan: Seq<OverlayAction>)
    requires
        forall|k: int| 0 <= k < plan.len() ==> !is_create(#[trigger] plan[k]),
    ensures
        create_count(plan) == 0,
    decreases plan.len(),
{
    if plan.len() > 0 {
        lemma_create_count_zero(plan.drop_first());
    }
}

/// Walking a concatenated plan is walking its halves in turn; the second
/// half starts on the handles the first half has not consumed.
proof fn lemma_apply_plan_add(entries: Seq<OverlayEntry>, a: Seq<OverlayAction>, b: Seq<OverlayAction>, handles: Seq<i64>)
    requires
        create_count(a) <= handles.len(),
    ensures
        apply_plan(entries, a + b, handles) == apply_plan(
            apply_plan(entries, a, handles),
            b,
            handles.skip(create_count(a) as int),
        ),
    decreases a.len(),
{
    if a.len() == 0 {
        assert(a + b =~= b);
        assert(handles.skip(0) =~= handles);
    } else {
        assert((a + b).drop_first() =~= a.drop_first() + b);
        if is_create(a[0]) {
            lemma_apply_plan_add(apply_action(entries, a[0], handles[0]), a.drop_first(), b, handles.drop_first());
            assert(handles.drop_first().skip(create_count(a.drop_first()) as int)
                =~= handles.skip(create_count(a) as int));
        } else {
            lemma_apply_plan_add(apply_action(entries, a[0], 0), a.drop_first(), b, handles);
        }
    }
}

/// `entries` with every entry whose monitor id stands in `ids` dropped,
/// one id at a time, as a run of destroy actions drops them.
spec fn without_ids(entries: Seq<OverlayEntry>, ids: Seq<i64>) -> Seq<OverlayEntry>
    decreases ids.len(),
{
    if ids.len() == 0 {
        entries
    } else {
        without_ids(without_id(entries, ids[0]), ids.drop_first())
    }
}

/// `entries` with every entry whose monitor id stands in `ids` dropped in
/// one sweep.
spec fn retained(entries: Seq<OverlayEntry>, ids: Seq<i64>) -> Seq<OverlayEntry> {
    entries.filter(|e: OverlayEntry| !ids.contains(e.monitor_id))
}

/// Sweeping with no ids keeps everything.
proof fn lemma_retained_nil(entries: Seq<OverlayEntry>)
    ensures
        retained(entries, Seq::<i64>::empty()) == entries,
    decreases entries.len(),
{
    reveal(Seq::filter);
    if entries.len() > 0 {
        lemma_retained_nil(entries.drop_last());
        assert(retained(entries, Seq::<i64>::empty()) =~= entries);
    } else {
        assert(retained(entries, Seq::<i64>::empty()) =~= entries);
    }
}

/// Dropping the first id and then sweeping the rest is sweeping all ids.
proof fn lemma_retained_unfold(entries: Seq<OverlayEntry>, ids: Seq<i64>)
    requires
        ids.len() > 0,
    ensures
        retained(without_id(entries, ids[0]), ids.drop_first()) == retained(entries, ids),
    decreases entries.len(),
{
    reveal(Seq::filter);
    if entries.len() == 0 {
        assert(without_id(entries, ids[0]) =~= entries);
        assert(retained(without_id(entries, ids[0]), ids.drop_first()) =~= retained(entries, ids));
    } else {
        let front = entries.drop_last();
        let last = entries.last();
        lemma_retained_unfold(front, ids);
        if last.monitor_id == ids[0] {
            assert(ids.contains(last.monitor_id));
            assert(without_id(entries, ids[0]) == without_id(front, ids[0]));
            assert(retained(entries, ids) == retained(front, ids));
        } else {
            assert(without_id(entries, ids[0]) == without_id(front, ids[0]).push(last));
            assert(without_id(front, ids[0]).push(last).drop_last() =~= without_id(front, ids[0]));
            if ids.drop_first().contains(last.monitor_id) {
                let w = choose|w: int|
                    0 <= w < ids.drop_first().len() && ids.drop_first()[w] == last.monitor_id;
                assert(ids[w + 1] == last.monitor_id);
                assert(ids.contains(last.monitor_id));
                assert(retained(without_id(entries, ids[0]), ids.drop_first())
                    == retained(without_id(front, ids[0]), ids.drop_first()));
                assert(retained(entries, ids) == retained(front, ids));
            } else {
                if ids.contains(last.monitor_id) {
                    let w = choose|w: int| 0 <= w < ids.len() && ids[w] == last.monitor_id;
                    assert(w != 0);
                    assert(ids.drop_first()[w - 1] == last.monitor_id);
                }
                assert(retained(without_id(entries, ids[0]), ids.drop_first())
                    == retained(without_id(front, ids[0]), ids.drop_first()).push(last));
                assert(retained(entries, ids) == retained(front, ids).push(last));
            }
        }
    }
}

/// Sweeping id by id and sweeping in one go agree.
proof fn lemma_without_ids_is_retained(entries: Seq<OverlayEntry>, ids: Seq<i64>)
    ensures
        without_ids(entries, ids) == retained(entries, ids),
    decreases ids.len(),
{
    if ids.len() == 0 {
        lemma_retained_nil(entries);
        assert(ids =~= Seq::<i64>::empty());
        assert(without_ids(entries, ids) == entries);
        assert(retained(entries, ids) == entries);
    } else {
        assert(without_ids(entries, ids)
            == without_ids(without_id(entries, ids[0]), ids.drop_first()));
        lemma_without_ids_is_retained(without_id(entries, ids[0]), ids.drop_first());
        assert(without_ids(without_id(entries, ids[0]), ids.drop_first())
            == retained(without_id(entries, ids[0]), ids.drop_first()));
        lemma_retained_unfold(entries, ids);
        assert(retained(without_id(entries, ids[0]), ids.drop_first())
            == retained(entries, ids));
    }
}

/// Sweeping away exactly the stale ids keeps exactly the survivors.
proof fn lemma_retained_stale_is_surviving(entries: Seq<OverlayEntry>, ids: Seq<i64>, monitors: Seq<MonitorSnapshot>)
    requires
        forall|k: int| 0 <= k < entries.len() ==> (ids.contains(#[trigger] entries[k].monitor_id)
            <==> !is_live(monitors, entries[k].monitor_id)),
    ensures
        retained(entries, ids) == surviving_entries(entries, monitors),
    decreases entries.len(),
{
    reveal(Seq::filter);
    if entries.len() == 0 {
        assert(retained(entries, ids) =~= surviving_entries(entries, monitors));
    } else {
        let front = entries.drop_last();
        lemma_retained_stale_is_surviving(front, ids, monitors);
    }
}

/// Walking a run of destroy actions drops their ids, one at a time.
proof fn lemma_apply_plan_of_destroys(entries: Seq<OverlayEntry>, plan: Seq<OverlayAction>, handles: Seq<i64>)
    requires
        forall|k: int| 0 <= k < plan.len() ==> is_destroy(#[trigger] plan[k]),
    ensures
        apply_plan(entries, plan, handles) == without_ids(
            entries,
            plan.map_values(|a: OverlayAction| action_id(a)),
        ),
    decreases plan.len(),
{
    let ids = plan.map_values(|a: OverlayAction| action_id(a));
    if plan.len() == 0 {
    } else {
        lemma_apply_plan_of_destroys(without_id(entries, action_id(plan[0])), plan.drop_first(), handles);
        assert(plan.drop_first().map_values(|a: OverlayAction| action_id(a)) =~= ids.drop_first());
        assert(apply_action(entries, plan[0], 0) == without_id(entries, ids[0]));
    }
}

/// The destroy half of a refresh plan leaves exactly the survivors.
proof fn lemma_apply_destroy_actions(entries: Seq<OverlayEntry>, monitors: Seq<MonitorSnapshot>, handles: Seq<i64>)
    ensures
        apply_plan(entries, destroy_actions(entries, monitors), handles)
            == surviving_entries(entries, monitors),
{
    let plan = destroy_actions(entries, monitors);
    let stale = stale_entries(entries, monitors);
    assert(forall|k: int| 0 <= k < plan.len() ==> is_destroy(#[trigger] plan[k]));
    lemma_apply_plan_of_destroys(entries, plan, handles);
    let ids = plan.map_values(|a: OverlayAction| action_id(a));
    assert(ids =~= entry_ids(stale));
    lemma_without_ids_is_retained(entries, ids);
    assert forall|k: int| 0 <= k < entries.len()
        implies (entry_ids(stale).contains(#[trigger] entries[k].monitor_id)
            <==> !is_live(monitors, entries[k].monitor_id)) by {
        if entry_ids(stale).contains(entries[k].monitor_id) {
            let w = choose|w: int|
                0 <= w < entry_ids(stale).len() && entry_ids(stale)[w] == entries[k].monitor_id;
            assert(stale[w].monitor_id == entries[k].monitor_id);
            assert(!is_live(monitors, stale[w].monitor_id));
        }
        if !is_live(monitors, entries[k].monitor_id) {
            assert(stale.contains(entries[k]));
            let w = choose|w: int| 0 <= w < stale.len() && stale[w] == entries[k];
            assert(entry_ids(stale)[w] == entries[k].monitor_id);
        }
    }
    lemma_retained_stale_is_surviving(entries, ids, monitors);
}

/// The sync half of a plan creates one window per fresh monitor.
proof fn lemma_sync_create_count(entries: Seq<OverlayEntry>, monitors: Seq<MonitorSnapshot>)
    ensures
        create_count(sync_actions(entries, monitors)) == fresh_monitors(entries, monitors).len(),
    decreases monitors.len(),
{
    reveal(Seq::filter);
    if monitors.len() == 0 {
        assert(sync_actions(entries, monitors) =~= Seq::<OverlayAction>::empty());
    } else {
        let front = monitors.drop_last();
        let m = monitors.last();
        lemma_sync_create_count(entries, front);
        assert(sync_actions(entries, monitors)
            =~= sync_actions(entries, front) + seq![sync_action_of(entries, m)]);
        lemma_create_count_add(sync_actions(entries, front), seq![sync_action_of(entries, m)]);
        assert(create_count(seq![sync_action_of(entries, m)])
            == (if is_create(sync_action_of(entries, m)) { 1nat } else { 0nat })) by {
            assert(seq![sync_action_of(entries, m)].drop_first()
                =~= Seq::<OverlayAction>::empty());
            assert(create_count(Seq::<OverlayAction>::empty()) == 0);
        }
    }
}

/// A prefix of the enumeration never brings more fresh monitors than the
/// whole of it.
proof fn lemma_fresh_prefix_len(entries: Seq<OverlayEntry>, monitors: Seq<MonitorSnapshot>, k: int)
    requires
        0 <= k <= monitors.len(),
    ensures
        fresh_monitors(entries, monitors.take(k)).len() <= fresh_monitors(entries, monitors).len(),
    decreases monitors.len() - k,
{
    reveal(Seq::filter);
    if k == monitors.len() {
        assert(monitors.take(k) =~= monitors);
    } else {
        assert(monitors.take(k + 1).drop_last() =~= monitors.take(k));
        lemma_fresh_prefix_len(entries, monitors, k + 1);
    }
}

/// The survivors after the first `k` enumerated monitors have been walked:
/// the ones the walked prefix mentions already carry their new rectangles.
spec fn partially_updated(entries: Seq<OverlayEntry>, monitors: Seq<MonitorSnapshot>, k: int) -> Seq<OverlayEntry> {
    surviving_entries(entries, monitors).map_values(|e: OverlayEntry|
        if snapshot_ids(monitors.take(k)).contains(e.monitor_id) {
            OverlayEntry {
                monitor_id: e.monitor_id,
                window_handle: e.window_handle,
                rect: rect_of(monitors, e.monitor_id),
            }
        } else {
            e
        })
}

/// The bookkeeping after the destroy half and the first `k` steps of the
/// sync half.
spec fn mid_state(entries: Seq<OverlayEntry>, monitors: Seq<MonitorSnapshot>, k: int, handles: Seq<i64>) -> Seq<OverlayEntry> {
    partially_updated(entries, monitors, k) + created_entries(entries, monitors.take(k), handles)
}

/// Walking the first `k` sync actions from the survivors yields the
/// mid-state.
proof fn lemma_apply_sync_prefix(entries: Seq<OverlayEntry>, monitors: Seq<MonitorSnapshot>, k: int, handles: Seq<i64>)
    requires
        unique_entry_ids(entries),
        snapshot_ids(monitors).no_duplicates(),
        0 <= k <= monitors.len(),
        fresh_monitors(entries, monitors).len() <= handles.len(),
    ensures
        apply_plan(
            surviving_entries(entries, monitors),
            sync_actions(entries, monitors.take(k)),
            handles,
        ) == mid_state(entries, monitors, k, handles),
    decreases k,
{
    let survivors = surviving_entries(entries, monitors);
    if k == 0 {
        assert(sync_actions(entries, monitors.take(0)) =~= Seq::<OverlayAction>::empty());
        assert(partially_updated(entries, monitors, 0) =~= survivors);
        assert(created_entries(entries, monitors.take(0), handles)
            =~= Seq::<OverlayEntry>::empty()) by {
            reveal(Seq::filter);
            assert(monitors.take(0) =~= Seq::<MonitorSnapshot>::empty());
            assert(fresh_monitors(entries, monitors.take(0)).len() == 0);
        }
        assert(mid_state(entries, monitors, 0, handles) =~= survivors);
    } else {
        let prev = k - 1;
        let m = monitors[prev];
        lemma_apply_sync_prefix(entries, monitors, prev, handles);
        let prefix = sync_actions(entries, monitors.take(prev));
        let step = sync_action_of(entries, m);
        assert(sync_actions(entries, monitors.take(k)) =~= prefix + seq![step]);

        lemma_sync_create_count(entries, monitors.take(prev));
        lemma_fresh_prefix_len(entries, monitors, prev);
        let consumed = fresh_monitors(entries, monitors.take(prev)).len();
        assert(create_count(prefix) == consumed);
        lemma_apply_plan_add(survivors, prefix, seq![step], handles);

        let before = mid_state(entries, monitors, prev, handles);
        let rest = handles.skip(consumed as int);
        assert(seq![step].drop_first() =~= Seq::<OverlayAction>::empty());
        assert(seq![step][0] == step);
        if is_create(step) {
            lemma_fresh_prefix_len(entries, monitors, k);
            assert(fresh_monitors(entries, monitors.take(k)).len() == consumed + 1) by {
                reveal(Seq::filter);
                assert(monitors.take(k).drop_last() =~= monitors.take(prev));
            }
            assert(rest.len() > 0);
            assert(apply_plan(before, seq![step], rest)
                == apply_plan(apply_action(before, step, rest[0]),
                    seq![step].drop_first(), rest.drop_first()));
            assert(apply_plan(apply_action(before, step, rest[0]),
                Seq::<OverlayAction>::empty(), rest.drop_first())
                == apply_action(before, step, rest[0]));
        } else {
            assert(apply_plan(before, seq![step], rest)
                == apply_plan(apply_action(before, step, 0), seq![step].drop_first(), rest));
            assert(apply_plan(apply_action(before, step, 0),
                Seq::<OverlayAction>::empty(), rest)
                == apply_action(before, step, 0));
        }

        lemma_sync_step(entries, monitors, prev, handles);
    }
}

/// One sync step carries the mid-state one monitor further.
proof fn lemma_sync_step(entries: Seq<OverlayEntry>, monitors: Seq<MonitorSnapshot>, prev: int, handles: Seq<i64>)
    requires
        unique_entry_ids(entries),
        snapshot_ids(monitors).no_duplicates(),
        0 <= prev < monitors.len(),
        fresh_monitors(entries, monitors).len() <= handles.len(),
    ensures
        ({
            let m = monitors[prev];
            let step = sync_action_of(entries, m);
            let consumed = fresh_monitors(entries, monitors.take(prev)).len();
            let handle = if is_create(step) { handles.skip(consumed as int)[0] } else { 0i64 };
            apply_action(mid_state(entries, monitors, prev, handles), step, handle)
                == mid_state(entries, monitors, prev + 1, handles)
        }),
{
    let k = prev + 1;
    let m = monitors[prev];
    let step = sync_action_of(entries, m);
    let survivors = surviving_entries(entries, monitors);
    let updated_prev = partially_updated(entries, monitors, prev);
    let updated_k = partially_updated(entries, monitors, k);
    let created_prev = created_entries(entries, monitors.take(prev), handles);
    let created_k = created_entries(entries, monitors.take(k), handles);
    let fresh_prev = fresh_monitors(entries, monitors.take(prev));
    let fresh_k = fresh_monitors(entries, monitors.take(k));
    let consumed = fresh_prev.len();

    lemma_fresh_prefix_len(entries, monitors, prev);
    lemma_fresh_prefix_len(entries, monitors, k);
    assert(snapshot_ids(monitors)[prev] == m.monitor_id);
    assert(snapshot_ids(monitors.take(prev)) =~= snapshot_ids(monitors).take(prev));
    assert(snapshot_ids(monitors.take(k)) =~= snapshot_ids(monitors).take(k));

    // Surviving entries exist in the old bookkeeping, and created ones are
    // fresh: the two halves of the mid-state never share a monitor id.
    assert forall|i: int| 0 <= i < survivors.len()
        implies has_id(entries, #[trigger] survivors[i].monitor_id)
            && is_live(monitors, survivors[i].monitor_id) by {
        assert(entries.contains(survivors[i])) by {
            Seq::lemma_filter_contains_rev(
                entries,
                |e: OverlayEntry| is_live(monitors, e.monitor_id),
                survivors[i],
            );
            assert(survivors.contains(survivors[i]));
        }
        let w = choose|w: int| 0 <= w < entries.len() && entries[w] == survivors[i];
        assert(entry_ids(entries)[w] == survivors[i].monitor_id);
    }
    assert forall|i: int| 0 <= i < fresh_k.len()
        implies !has_id(entries, #[trigger] fresh_k[i].monitor_id) by {}

    reveal(Seq::filter);
    assert(monitors.take(k).drop_last() =~= monitors.take(prev));
    assert(monitors.take(k).last() == m);

    if has_id(entries, m.monitor_id) {
        // The step is an update of the surviving overlay of `m`.
        assert(!is_create(step));
        assert(fresh_k == fresh_prev);
        assert(created_k == created_prev);
        assert(apply_action(mid_state(entries, monitors, prev, handles), step, 0)
            == with_rect(updated_prev + created_prev, m.monitor_id, m.rect));

        // The prefix walked so far does not mention `m`: its id appears in
        // the enumeration only at position `prev`.
        assert forall|j: int| 0 <= j < prev
            implies #[trigger] snapshot_ids(monitors)[j] != m.monitor_id by {}

        assert forall|i: int| 0 <= i < updated_prev.len()
            implies with_rect(updated_prev + created_prev, m.monitor_id, m.rect)[i]
                == #[trigger] updated_k[i] by {
            let e = survivors[i];
            assert(updated_prev[i].monitor_id == e.monitor_id);
            if e.monitor_id == m.monitor_id {
                assert(!snapshot_ids(monitors.take(prev)).contains(e.monitor_id));
                assert(updated_prev[i] == e);
                assert(snapshot_ids(monitors.take(k))[prev] == m.monitor_id);
                assert(snapshot_ids(monitors.take(k)).contains(e.monitor_id));
                let x = snapshot_ids(monitors).index_of(m.monitor_id);
                assert(snapshot_ids(monitors)[x] == m.monitor_id);
                assert(x == prev);
                assert(rect_of(monitors, m.monitor_id) == m.rect);
            } else {
                assert(snapshot_ids(monitors.take(k)).contains(e.monitor_id)
                    == snapshot_ids(monitors.take(prev)).contains(e.monitor_id)) by {
                    if snapshot_ids(monitors.take(k)).contains(e.monitor_id) {
                        let w = choose|w: int|
                            0 <= w < snapshot_ids(monitors.take(k)).len()
                                && snapshot_ids(monitors.take(k))[w] == e.monitor_id;
                        assert(w != prev);
                        assert(snapshot_ids(monitors.take(prev))[w] == e.monitor_id);
                    }
                }
            }
        }
        assert forall|i: int| 0 <= i < created_prev.len()
            implies with_rect(updated_prev + created_prev, m.monitor_id, m.rect)[
                updated_prev.len() + i]
                == #[trigger] created_prev[i] by {
            assert(created_prev[i].monitor_id == fresh_prev[i].monitor_id);
            assert(fresh_k[i] == fresh_prev[i]);
            assert(!has_id(entries, fresh_k[i].monitor_id));
        }
        assert(with_rect(updated_prev + created_prev, m.monitor_id, m.rect)
            =~= updated_k + created_k);
    } else {
        // The step creates the overlay of a fresh monitor.
        assert(is_create(step));
        assert(fresh_k == fresh_prev.push(m));
        let handle = handles.skip(consumed as int)[0];
        assert(handle == handles[consumed as int]);
        assert(apply_action(mid_state(entries, monitors, prev, handles), step, handle)
            == (updated_prev + created_prev).push(
                OverlayEntry { monitor_id: m.monitor_id, window_handle: handle, rect: m.rect }));

        assert forall|i: int| 0 <= i < updated_prev.len()
            implies #[trigger] updated_prev[i] == updated_k[i] by {
            let e = survivors[i];
            assert(has_id(entries, e.monitor_id));
            assert(e.monitor_id != m.monitor_id);
            assert(snapshot_ids(monitors.take(k)).contains(e.monitor_id)
                == snapshot_ids(monitors.take(prev)).contains(e.monitor_id)) by {
                if snapshot_ids(monitors.take(k)).contains(e.monitor_id) {
                    let w = choose|w: int|
                        0 <= w < snapshot_ids(monitors.take(k)).len()
                            && snapshot_ids(monitors.take(k))[w] == e.monitor_id;
                    assert(w != prev);
                    assert(snapshot_ids(monitors.take(prev))[w] == e.monitor_id);
                }
            }
        }
        assert(created_k =~= created_prev.push(
            OverlayEntry { monitor_id: m.monitor_id, window_handle: handle, rect: m.rect }));
        assert((updated_prev + created_prev).push(
            OverlayEntry { monitor_id: m.monitor_id, window_handle: handle, rect: m.rect })
            =~= updated_k + created_k);
    }
}

/// The main theorem: walking a full refresh plan turns the bookkeeping
/// into exactly the reconciled state, for any outcome of the window
/// creations.
pub proof fn lemma_refresh_plan_reconciles(entries: Seq<OverlayEntry>, monitors: Seq<MonitorSnapshot>, handles: Seq<i64>)
    requires
        unique_entry_ids(entries),
        snapshot_ids(monitors).no_duplicates(),
        handles.len() == fresh_monitors(entries, monitors).len(),
    ensures
        apply_plan(entries, refresh_plan(entries, monitors), handles)
            == reconciled(entries, monitors, handles),
{
    let destroys = destroy_actions(entries, monitors);
    let syncs = sync_actions(entries, monitors);
    assert forall|j: int| 0 <= j < destroys.len()
        implies is_destroy(#[trigger] destroys[j]) by {
        assert(destroys[j] == destroy_action_of(stale_entries(entries, monitors)[j]));
    }
    assert forall|j: int| 0 <= j < destroys.len()
        implies !is_create(#[trigger] destroys[j]) by {}
    lemma_create_count_zero(destroys);
    lemma_apply_plan_add(entries, destroys, syncs, handles);
    assert(handles.skip(0) =~= handles);
    lemma_apply_destroy_actions(entries, monitors, handles);
    lemma_apply_sync_prefix(entries, monitors, monitors.len() as int, handles);
    assert(monitors.take(monitors.len() as int) =~= monitors);

    let survivors = surviving_entries(entries, monitors);
    assert forall|i: int| 0 <= i < survivors.len()
        implies partially_updated(entries, monitors, monitors.len() as int)[i]
            == #[trigger] refreshed_survivors(entries, monitors)[i] by {
        assert(is_live(monitors, survivors[i].monitor_id)) by {
            assert(survivors[i] == entries.filter(
                |e: OverlayEntry| is_live(monitors, e.monitor_id))[i]);
        }
    }
    assert(partially_updated(entries, monitors, monitors.len() as int)
        =~= refreshed_survivors(entries, monitors));
}

/// Filtering the bookkeeping never introduces a duplicate monitor id.
proof fn lemma_surviving_unique(entries: Seq<OverlayEntry>, monitors: Seq<MonitorSnapshot>)
    requires
        unique_entry_ids(entries),
    ensures
        unique_entry_ids(surviving_entries(entries, monitors)),
    decreases entries.len(),
{
    reveal(Seq::filter);
    if entries.len() > 0 {
        let front = entries.drop_last();
        let last = entries.last();
        assert forall|a: int, b: int|
            0 <= a < front.len() && 0 <= b < front.len() && a != b
            implies entry_ids(front)[a] != entry_ids(front)[b] by {
            assert(entry_ids(entries)[a] == entry_ids(front)[a]);
            assert(entry_ids(entries)[b] == entry_ids(front)[b]);
        }
        lemma_surviving_unique(front, monitors);
        if is_live(monitors, last.monitor_id) {
            let kept = surviving_entries(front, monitors);
            assert forall|j: int| 0 <= j < kept.len()
                implies #[trigger] kept[j].monitor_id != last.monitor_id by {
                assert(front.contains(kept[j])) by {
                    Seq::lemma_filter_contains_rev(
                        front,
                        |e: OverlayEntry| is_live(monitors, e.monitor_id),
                        kept[j],
                    );
                    assert(kept.contains(kept[j]));
                }
                let w = choose|w: int| 0 <= w < front.len() && front[w] == kept[j];
                assert(entry_ids(entries)[w] == kept[j].monitor_id);
                assert(entry_ids(entries)[entries.len() - 1] == last.monitor_id);
            }
            let grown = kept.push(last);
            assert(surviving_entries(entries, monitors) == grown);
            assert forall|a: int, b: int|
                0 <= a < grown.len() && 0 <= b < grown.len() && a != b
                implies entry_ids(grown)[a] != entry_ids(grown)[b] by {
                if a < kept.len() && b < kept.len() {
                    assert(entry_ids(kept)[a] != entry_ids(kept)[b]);
                }
            }
        }
    }
}

/// The fresh monitors of an enumeration without duplicate ids again carry
/// no duplicate ids.
proof fn lemma_fresh_unique(entries: Seq<OverlayEntry>, monitors: Seq<MonitorSnapshot>)
    requires
        snapshot_ids(monitors).no_duplicates(),
    ensures
        snapshot_ids(fresh_monitors(entries, monitors)).no_duplicates(),
    decreases monitors.len(),
{
    reveal(Seq::filter);
    if monitors.len() > 0 {
        let front = monitors.drop_last();
        let last = monitors.last();
        assert forall|a: int, b: int|
            0 <= a < front.len() && 0 <= b < front.len() && a != b
            implies snapshot_ids(front)[a] != snapshot_ids(front)[b] by {
            assert(snapshot_ids(monitors)[a] == snapshot_ids(front)[a]);
            assert(snapshot_ids(monitors)[b] == snapshot_ids(front)[b]);
        }
        lemma_fresh_unique(entries, front);
        if !has_id(entries, last.monitor_id) {
            let kept = fresh_monitors(entries, front);
            assert forall|j: int| 0 <= j < kept.len()
                implies #[trigger] kept[j].monitor_id != last.monitor_id by {
                assert(front.contains(kept[j])) by {
                    Seq::lemma_filter_contains_rev(
                        front,
                        |m: MonitorSnapshot| !has_id(entries, m.monitor_id),
                        kept[j],
                    );
                    assert(kept.contains(kept[j]));
                }
                let w = choose|w: int| 0 <= w < front.len() && front[w] == kept[j];
                assert(snapshot_ids(monitors)[w] == kept[j].monitor_id);
                assert(snapshot_ids(monitors)[monitors.len() - 1] == last.monitor_id);
            }
            let grown = kept.push(last);
            assert(fresh_monitors(entries, monitors) == grown);
            assert forall|a: int, b: int|
                0 <= a < grown.len() && 0 <= b < grown.len() && a != b
                implies snapshot_ids(grown)[a] != snapshot_ids(grown)[b] by {
                if a < kept.len() && b < kept.len() {
                    assert(snapshot_ids(kept)[a] != snapshot_ids(kept)[b]);
                }
            }
        }
    }
}

/// What the reconciled bookkeeping guarantees: one overlay per attached
/// monitor and none for anything else, each overlay on its monitor's
/// current rectangle, and surviving overlays still carrying their old
/// window handles.
pub proof fn lemma_reconciled_properties(entries: Seq<OverlayEntry>, monitors: Seq<MonitorSnapshot>, handles: Seq<i64>)
    requires
        unique_entry_ids(entries),
        snapshot_ids(monitors).no_duplicates(),
        handles.len() == fresh_monitors(entries, monitors).len(),
    ensures
        unique_entry_ids(reconciled(entries, monitors, handles)),
        forall|id: i64| has_id(reconciled(entries, monitors, handles), id) <==> is_live(monitors, id),
        forall|k: int| 0 <= k < monitors.len() ==> entry_with_id(
            reconciled(entries, monitors, handles),
            (#[trigger] monitors[k]).monitor_id,
        ).rect == monitors[k].rect,
        forall|id: i64| has_id(entries, id) && is_live(monitors, id) ==> entry_with_id(
            reconciled(entries, monitors, handles),
            id,
        ).window_handle == entry_with_id(entries, id).window_handle,
{
    let rec = reconciled(entries, monitors, handles);
    let survivors = surviving_entries(entries, monitors);
    let refreshed = refreshed_survivors(entries, monitors);
    let fresh = fresh_monitors(entries, monitors);
    let created = created_entries(entries, monitors, handles);

    assert(entry_ids(refreshed) =~= entry_ids(survivors));
    assert(entry_ids(created) =~= snapshot_ids(fresh));
    assert(entry_ids(rec) =~= entry_ids(refreshed) + entry_ids(created));

    // Where each part's entries come from.
    assert forall|i: int| 0 <= i < survivors.len()
        implies has_id(entries, #[trigger] survivors[i].monitor_id)
            && is_live(monitors, survivors[i].monitor_id)
            && entries.contains(survivors[i]) by {
        assert(entries.contains(survivors[i])) by {
            Seq::lemma_filter_contains_rev(
                entries,
                |e: OverlayEntry| is_live(monitors, e.monitor_id),
                survivors[i],
            );
            assert(survivors.contains(survivors[i]));
        }
        let w = choose|w: int| 0 <= w < entries.len() && entries[w] == survivors[i];
        assert(entry_ids(entries)[w] == survivors[i].monitor_id);
    }
    assert forall|i: int| 0 <= i < fresh.len()
        implies !has_id(entries, #[trigger] fresh[i].monitor_id)
            && monitors.contains(fresh[i]) by {
        assert(monitors.contains(fresh[i])) by {
            Seq::lemma_filter_contains_rev(
                monitors,
                |m: MonitorSnapshot| !has_id(entries, m.monitor_id),
                fresh[i],
            );
            assert(fresh.contains(fresh[i]));
        }
    }
    assert forall|i: int| 0 <= i < fresh.len()
        implies is_live(monitors, #[trigger] fresh[i].monitor_id) by {
        let w = choose|w: int| 0 <= w < monitors.len() && monitors[w] == fresh[i];
        assert(snapshot_ids(monitors)[w] == fresh[i].monitor_id);
    }

    // Uniqueness of the reconciled ids.
    lemma_surviving_unique(entries, monitors);
    lemma_fresh_unique(entries, monitors);
    assert forall|a: int, b: int|
        0 <= a < entry_ids(rec).len() && 0 <= b < entry_ids(rec).len() && a != b
        implies entry_ids(rec)[a] != entry_ids(rec)[b] by {
        let n = refreshed.len();
        if a < n && b < n {
            assert(entry_ids(survivors)[a] != entry_ids(survivors)[b]);
        } else if a >= n && b >= n {
            assert(snapshot_ids(fresh)[a - n] != snapshot_ids(fresh)[b - n]);
        } else {
            let sa = if a < n { a } else { b };
            let cb = if a < n { b } else { a };
            assert(entry_ids(rec)[sa] == survivors[sa].monitor_id);
            assert(entry_ids(rec)[cb] == fresh[cb - n].monitor_id);
        }
    }
    assert(unique_entry_ids(rec));

    // Exactly the attached monitors are covered.
    assert forall|id: i64| has_id(rec, id) implies is_live(monitors, id) by {
        let x = choose|x: int| 0 <= x < entry_ids(rec).len() && entry_ids(rec)[x] == id;
        if x < refreshed.len() {
            assert(survivors[x].monitor_id == id);
        } else {
            assert(fresh[x - refreshed.len()].monitor_id == id);
        }
    }
    assert forall|id: i64| is_live(monitors, id) implies has_id(rec, id) by {
        if has_id(entries, id) {
            let w = choose|w: int| 0 <= w < entry_ids(entries).len() && entry_ids(entries)[w] == id;
            assert(entries[w].monitor_id == id);
            assert(survivors.contains(entries[w])) by {
                Seq::lemma_filter_contains(
                    entries,
                    |e: OverlayEntry| is_live(monitors, e.monitor_id),
                    w,
                );
            }
            let j = choose|j: int| 0 <= j < survivors.len() && survivors[j] == entries[w];
            assert(entry_ids(rec)[j] == id);
        } else {
            let k = choose|k: int|
                0 <= k < snapshot_ids(monitors).len() && snapshot_ids(monitors)[k] == id;
            assert(monitors[k].monitor_id == id);
            assert(fresh.contains(monitors[k])) by {
                Seq::lemma_filter_contains(
                    monitors,
                    |m: MonitorSnapshot| !has_id(entries, m.monitor_id),
                    k,
                );
            }
            let j = choose|j: int| 0 <= j < fresh.len() && fresh[j] == monitors[k];
            assert(entry_ids(rec)[refreshed.len() + j] == id);
        }
    }

    // Every reconciled entry sits on its monitor's current rectangle.
    assert forall|k: int| 0 <= k < monitors.len()
        implies entry_with_id(rec, (#[trigger] monitors[k]).monitor_id).rect
            == monitors[k].rect by {
        let id = monitors[k].monitor_id;
        assert(snapshot_ids(monitors)[k] == id);
        assert(has_id(rec, id));
        let x = entry_ids(rec).index_of(id);
        assert(0 <= x < entry_ids(rec).len() && entry_ids(rec)[x] == id);
        if x < refreshed.len() {
            assert(refreshed[x].rect == rect_of(monitors, survivors[x].monitor_id));
            let y = snapshot_ids(monitors).index_of(id);
            assert(snapshot_ids(monitors)[y] == id);
            assert(y == k);
        } else {
            let j = x - refreshed.len();
            assert(created[j].rect == fresh[j].rect);
            let w = choose|w: int| 0 <= w < monitors.len() && monitors[w] == fresh[j];
            assert(snapshot_ids(monitors)[w] == id);
            assert(w == k);
        }
    }

    // Surviving overlays keep their window handles.
    assert forall|id: i64| has_id(entries, id) && is_live(monitors, id)
        implies entry_with_id(rec, id).window_handle
            == entry_with_id(entries, id).window_handle by {
        assert(has_id(rec, id));
        let x = entry_ids(rec).index_of(id);
        assert(0 <= x < entry_ids(rec).len() && entry_ids(rec)[x] == id);
        assert(x < refreshed.len()) by {
            if x >= refreshed.len() {
                assert(fresh[x - refreshed.len()].monitor_id == id);
            }
        }
        assert(refreshed[x].window_handle == survivors[x].window_handle);
        assert(survivors[x].monitor_id == id);
        let w = choose|w: int| 0 <= w < entries.len() && entries[w] == survivors[x];
        let y = entry_ids(entries).index_of(id);
        assert(0 <= y < entry_ids(entries).len() && entry_ids(entries)[y] == id);
        assert(entry_ids(entries)[w] == id);
        assert(y == w);
    }
}

/// How many windows a refresh plan creates: exactly one per monitor that
/// has no overlay yet.  This is the number of handles the main theorem
/// asks for.
pub proof fn lemma_plan_create_count(entries: Seq<OverlayEntry>, monitors: Seq<MonitorSnapshot>)
    ensures
        create_count(refresh_plan(entries, monitors))
            == fresh_monitors(entries, monitors).len(),
{
    let destroys = destroy_actions(entries, monitors);
    let syncs = sync_actions(entries, monitors);
    assert forall|j: int| 0 <= j < destroys.len()
        implies !is_create(#[trigger] destroys[j]) by {
        assert(destroys[j] == destroy_action_of(stale_entries(entries, monitors)[j]));
    }
    lemma_create_count_zero(destroys);
    lemma_create_count_add(destroys, syncs);
    lemma_sync_create_count(entries, monitors);
}

/// No window handle is lost: every overlay of the old bookkeeping either
/// survives the refresh or stands, handle and all, in a destroy action of
/// the plan.
pub proof fn lemma_no_handle_leak(entries: Seq<OverlayEntry>, monitors: Seq<MonitorSnapshot>)
    ensures
        forall|k: int| 0 <= k < entries.len() ==> is_live(monitors, (#[trigger] entries[k]).monitor_id)
            || refresh_plan(entries, monitors).contains(destroy_action_of(entries[k])),
{
    let stale = stale_entries(entries, monitors);
    let plan = refresh_plan(entries, monitors);
    assert forall|k: int| 0 <= k < entries.len()
        && !is_live(monitors, (#[trigger] entries[k]).monitor_id)
        implies plan.contains(destroy_action_of(entries[k])) by {
        assert(stale.contains(entries[k])) by {
            Seq::lemma_filter_contains(
                entries,
                |e: OverlayEntry| !is_live(monitors, e.monitor_id),
                k,
            );
        }
        let j = choose|j: int| 0 <= j < stale.len() && stale[j] == entries[k];
        assert(destroy_actions(entries, monitors)[j] == destroy_action_of(entries[k]));
        assert(plan[j] == destroy_action_of(entries[k]));
    }
}

} // verus!
