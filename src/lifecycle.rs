//! Facts about the alert lifecycle that span several calls.
use vstd::prelude::*;
use crate::alerts::{
    AlertView, ItemView, ManagerView, AlertSettings, HISTORY_CAP, acked, apply_items, capped,
    classify_spec, first_for_item, lemma_refresh_keeps_items, opened_for, reconciled, refresh,
    staged, tracks, unacked,
};

verus! {

/// No two alerts of `active` are for the same item.
pub open spec fn one_per_item(active: Seq<AlertView>) -> bool {
    forall|j: int, k: int|
        0 <= j < k < active.len() ==> #[trigger] active[j].item_id != #[trigger] active[k].item_id
}

/// No two items of `items` share an id.
pub open spec fn distinct_item_ids(items: Seq<ItemView>) -> bool {
    forall|j: int, k: int| 0 <= j < k < items.len() ==> #[trigger] items[j].id != #[trigger] items[k].id
}

/// Membership in a sequence with one more element at its end.
proof fn lemma_push_contains<A>(p: Seq<A>, y: A)
    ensures
        forall|x: A| #[trigger] p.push(y).contains(x) <==> (p.contains(x) || x == y),
{
    assert forall|x: A| #[trigger] p.push(y).contains(x) <==> (p.contains(x) || x == y) by {
        if p.contains(x) {
            let m = choose|m: int| 0 <= m < p.len() && p[m] == x;
            assert(p.push(y)[m] == x);
        }
        if x == y {
            assert(p.push(y)[p.len() as int] == x);
        }
        if p.push(y).contains(x) {
            let m = choose|m: int| 0 <= m < p.push(y).len() && p.push(y)[m] == x;
            if m < p.len() {
                assert(p[m] == x);
            }
        }
    }
}

/// The unacknowledged alerts are exactly those of `s` without the flag,
/// and the acknowledged ones exactly those with it.
proof fn lemma_split_contains(s: Seq<AlertView>)
    ensures
        forall|x: AlertView| #[trigger] unacked(s).contains(x) <==> (s.contains(x) && !x.acknowledged),
        forall|x: AlertView| #[trigger] acked(s).contains(x) <==> (s.contains(x) && x.acknowledged),
    decreases s.len(),
{
    if s.len() > 0 {
        let d = s.drop_last();
        lemma_split_contains(d);
        assert(s =~= d.push(s.last()));
        lemma_push_contains(d, s.last());
        lemma_push_contains(unacked(d), s.last());
        lemma_push_contains(acked(d), s.last());
    }
}

/// With no acknowledged alert, draining keeps everything and moves nothing.
proof fn lemma_split_all_open(s: Seq<AlertView>)
    requires
        forall|i: int| 0 <= i < s.len() ==> !(#[trigger] s[i]).acknowledged,
    ensures
        unacked(s) == s,
        acked(s) == Seq::<AlertView>::empty(),
    decreases s.len(),
{
    if s.len() > 0 {
        lemma_split_all_open(s.drop_last());
        assert(s =~= s.drop_last().push(s.last()));
    } else {
        assert(s =~= Seq::<AlertView>::empty());
    }
}

/// Dropping acknowledged alerts keeps one alert per item.
proof fn lemma_unacked_one_per_item(s: Seq<AlertView>)
    requires
        one_per_item(s),
    ensures
        one_per_item(unacked(s)),
    decreases s.len(),
{
    if s.len() > 0 {
        let d = s.drop_last();
        assert(one_per_item(d)) by {
            assert forall|j: int, k: int| 0 <= j < k < d.len() implies #[trigger] d[j].item_id
                != #[trigger] d[k].item_id by {
                assert(d[j] == s[j] && d[k] == s[k]);
            }
        }
        lemma_unacked_one_per_item(d);
        lemma_split_contains(d);
        if !s.last().acknowledged {
            let u = unacked(s);
            assert forall|j: int, k: int| 0 <= j < k < u.len() implies #[trigger] u[j].item_id
                != #[trigger] u[k].item_id by {
                if k == u.len() - 1 {
                    assert(unacked(d).contains(u[j]));
                    let m = choose|m: int| 0 <= m < d.len() && d[m] == u[j];
                    assert(s[m] == u[j]);
                    assert(s[s.len() - 1] == u[k]);
                } else {
                    assert(u[j] == unacked(d)[j] && u[k] == unacked(d)[k]);
                }
            }
        }
    }
}

/// The history after draining never exceeds its cap.
proof fn lemma_capped_len(h: Seq<AlertView>)
    ensures
        capped(h).len() <= HISTORY_CAP,
        h.len() <= HISTORY_CAP ==> capped(h) == h,
{
}

/// Every staged item comes from `items`, had no active alert and falls into
/// an alert band; every such item is staged; distinct items stay distinct.
proof fn lemma_staged_facts(active: Seq<AlertView>, items: Seq<ItemView>, settings: AlertSettings)
    ensures
        forall|i: int| 0 <= i < staged(active, items, settings).len() ==> {
            let it = #[trigger] staged(active, items, settings)[i];
            &&& items.contains(it)
            &&& !tracks(active, it.id)
            &&& classify_spec(it.quantity, settings) is Some
        },
        forall|it: ItemView|
            items.contains(it) && !tracks(active, it.id) && classify_spec(it.quantity, settings) is Some
                ==> #[trigger] staged(active, items, settings).contains(it),
        distinct_item_ids(items) ==> distinct_item_ids(staged(active, items, settings)),
    decreases items.len(),
{
    if items.len() > 0 {
        let d = items.drop_last();
        let last = items.last();
        lemma_staged_facts(active, d, settings);
        assert(items =~= d.push(last));
        lemma_push_contains(d, last);
        let sd = staged(active, d, settings);
        lemma_push_contains(sd, last);
        let st = staged(active, items, settings);
        assert forall|i: int| 0 <= i < st.len() implies {
            let it = #[trigger] st[i];
            &&& items.contains(it)
            &&& !tracks(active, it.id)
            &&& classify_spec(it.quantity, settings) is Some
        } by {
            if i < sd.len() {
                assert(st[i] == sd[i]);
            }
        }
        if distinct_item_ids(items) {
            assert(distinct_item_ids(d)) by {
                assert forall|j: int, k: int| 0 <= j < k < d.len() implies #[trigger] d[j].id
                    != #[trigger] d[k].id by {
                    assert(d[j] == items[j] && d[k] == items[k]);
                }
            }
            assert forall|j: int, k: int| 0 <= j < k < st.len() implies #[trigger] st[j].id
                != #[trigger] st[k].id by {
                if k == sd.len() && st.len() == sd.len() + 1 {
                    assert(d.contains(sd[j]));
                    let m = choose|m: int| 0 <= m < d.len() && d[m] == sd[j];
                    assert(items[m] == sd[j]);
                    assert(items[items.len() - 1] == st[k]);
                } else {
                    assert(st[j] == sd[j] && st[k] == sd[k]);
                }
            }
        }
    }
}

/// An alert with no matching item is left as it was.
proof fn lemma_apply_untouched(a: AlertView, items: Seq<ItemView>, low: u32)
    requires
        forall|i: int| 0 <= i < items.len() ==> (#[trigger] items[i]).id != a.item_id,
    ensures
        apply_items(a, items, low) == a,
    decreases items.len(),
{
    if items.len() > 0 {
        let d = items.drop_last();
        assert forall|i: int| 0 <= i < d.len() implies (#[trigger] d[i]).id != a.item_id by {
            assert(d[i] == items[i]);
        }
        lemma_apply_untouched(a, d, low);
    }
}

/// With distinct item ids, the one matching item decides the alert's news.
proof fn lemma_apply_one(a: AlertView, items: Seq<ItemView>, low: u32, m: int)
    requires
        distinct_item_ids(items),
        0 <= m < items.len(),
        items[m].id == a.item_id,
    ensures
        apply_items(a, items, low) == (AlertView {
            current_quantity: items[m].quantity,
            acknowledged: a.acknowledged || items[m].quantity >= low,
            ..a
        }),
    decreases items.len(),
{
    let d = items.drop_last();
    assert(distinct_item_ids(d)) by {
        assert forall|j: int, k: int| 0 <= j < k < d.len() implies #[trigger] d[j].id
            != #[trigger] d[k].id by {
            assert(d[j] == items[j] && d[k] == items[k]);
        }
    }
    if m == items.len() - 1 {
        assert forall|i: int| 0 <= i < d.len() implies (#[trigger] d[i]).id != a.item_id by {
            assert(d[i] == items[i]);
        }
        lemma_apply_untouched(a, d, low);
    } else {
        assert(d[m] == items[m]);
        lemma_apply_one(a, d, low, m);
    }
}

/// Reconciling with items of distinct ids keeps at most one active alert
/// per item.
pub proof fn lemma_one_alert_per_item(
    pre: ManagerView,
    post: ManagerView,
    items: Seq<ItemView>,
    created: Seq<AlertView>,
)
    requires
        reconciled(pre, post, items, created),
        one_per_item(pre.active),
        distinct_item_ids(items),
    ensures
        one_per_item(post.active),
{
    if pre.settings.enabled {
        let low = pre.settings.low_stock_threshold;
        let r = refresh(pre.active, items, low);
        let st = staged(pre.active, items, pre.settings);
        let joined = r + created;
        lemma_refresh_keeps_items(pre.active, items, low);
        lemma_staged_facts(pre.active, items, pre.settings);
        assert forall|j: int, k: int| 0 <= j < k < joined.len() implies #[trigger] joined[j].item_id
            != #[trigger] joined[k].item_id by {
            if k < r.len() {
                assert(r[j].item_id == pre.active[j].item_id);
                assert(r[k].item_id == pre.active[k].item_id);
            } else if j < r.len() {
                let i = k - r.len();
                assert(joined[k] == created[i]);
                assert(opened_for(created[i], st[i], pre.settings));
                assert(!tracks(pre.active, st[i].id));
                assert(r[j].item_id == pre.active[j].item_id);
            } else {
                let i = j - r.len();
                let i2 = k - r.len();
                assert(joined[j] == created[i] && joined[k] == created[i2]);
                assert(opened_for(created[i], st[i], pre.settings));
                assert(opened_for(created[i2], st[i2], pre.settings));
            }
        }
        lemma_unacked_one_per_item(joined);
    } else {
        assert(post.active.len() == 0);
    }
}

/// Items that all have an alert already, or need none, stage nothing.
proof fn lemma_staged_none(active: Seq<AlertView>, items: Seq<ItemView>, settings: AlertSettings)
    requires
        forall|i: int| 0 <= i < items.len() ==> tracks(active, (#[trigger] items[i]).id)
            || classify_spec(items[i].quantity, settings) is None,
    ensures
        staged(active, items, settings) == Seq::<ItemView>::empty(),
    decreases items.len(),
{
    if items.len() > 0 {
        let d = items.drop_last();
        assert forall|i: int| 0 <= i < d.len() implies tracks(active, (#[trigger] d[i]).id)
            || classify_spec(d[i].quantity, settings) is None by {
            assert(d[i] == items[i]);
        }
        lemma_staged_none(active, d, settings);
        assert(items.last() == items[items.len() - 1]);
    }
}

/// A matching item at or above `low` acknowledges the alert.
proof fn lemma_apply_resolves(a: AlertView, items: Seq<ItemView>, low: u32, m: int)
    requires
        0 <= m < items.len(),
        items[m].id == a.item_id,
        items[m].quantity >= low,
    ensures
        apply_items(a, items, low).acknowledged,
    decreases items.len(),
{
    if m < items.len() - 1 {
        let d = items.drop_last();
        assert(d[m] == items[m]);
        lemma_apply_resolves(a, d, low, m);
    }
}

/// Unacknowledged alerts at the end add nothing to the acknowledged ones.
proof fn lemma_acked_open_tail(s: Seq<AlertView>, t: Seq<AlertView>)
    requires
        forall|i: int| 0 <= i < t.len() ==> !(#[trigger] t[i]).acknowledged,
    ensures
        acked(s + t) == acked(s),
    decreases t.len(),
{
    if t.len() > 0 {
        let d = t.drop_last();
        assert forall|i: int| 0 <= i < d.len() implies !(#[trigger] d[i]).acknowledged by {
            assert(d[i] == t[i]);
        }
        lemma_acked_open_tail(s, d);
        assert((s + t).drop_last() =~= s + d);
        assert((s + t).last() == t[t.len() - 1]);
    } else {
        assert(s + t =~= s);
    }
}

/// Reconciling a second time with the same items and settings opens no
/// alert and changes nothing.
///
/// This needs items with distinct ids, no item that is both at or above the
/// low-stock threshold and inside an alert band (possible only at the
/// threshold itself or with a critical threshold above the low one), and no
/// pending acknowledgment on an alert for an item in the list: each of those
/// makes the first call retire an alert that the second call opens afresh.
pub proof fn lemma_reconcile_idempotent(
    m0: ManagerView,
    m1: ManagerView,
    m2: ManagerView,
    items: Seq<ItemView>,
    c1: Seq<AlertView>,
    c2: Seq<AlertView>,
)
    requires
        reconciled(m0, m1, items, c1),
        reconciled(m1, m2, items, c2),
        one_per_item(m0.active),
        distinct_item_ids(items),
        forall|i: int| 0 <= i < items.len() ==> !((#[trigger] items[i]).quantity >= m0.settings.low_stock_threshold
            && classify_spec(items[i].quantity, m0.settings) is Some),
        forall|i: int, j: int|
            0 <= i < items.len() && 0 <= j < m0.active.len() && (#[trigger] items[i]).id == (#[trigger] m0.active[j]).item_id
                ==> !m0.active[j].acknowledged,
    ensures
        c2.len() == 0,
        m2 == m1,
{
    if !m0.settings.enabled {
        assert(m2 =~= m1);
        return;
    }
    let settings = m0.settings;
    let low = settings.low_stock_threshold;
    let r1 = refresh(m0.active, items, low);
    let st1 = staged(m0.active, items, settings);
    let s1 = r1 + c1;
    let a1 = m1.active;
    lemma_refresh_keeps_items(m0.active, items, low);
    lemma_staged_facts(m0.active, items, settings);
    lemma_split_contains(s1);
    lemma_one_alert_per_item(m0, m1, items, c1);
    // Every alert left active is open and agrees with its item, which is below `low`.
    assert forall|p: int| 0 <= p < a1.len() implies {
        &&& !(#[trigger] a1[p]).acknowledged
        &&& forall|m: int| 0 <= m < items.len() && (#[trigger] items[m]).id == a1[p].item_id ==> {
            &&& a1[p].current_quantity == items[m].quantity
            &&& items[m].quantity < low
        }
    } by {
        let a = a1[p];
        assert(unacked(s1).contains(a));
        assert(s1.contains(a));
        let q = choose|q: int| 0 <= q < s1.len() && s1[q] == a;
        assert forall|m: int| 0 <= m < items.len() && (#[trigger] items[m]).id == a.item_id implies {
            &&& a.current_quantity == items[m].quantity
            &&& items[m].quantity < low
        } by {
            if q < r1.len() {
                assert(first_for_item(m0.active, q));
                assert(r1[q] == apply_items(m0.active[q], items, low));
                lemma_apply_one(m0.active[q], items, low, m);
            } else {
                let i = q - r1.len();
                assert(s1[q] == c1[i]);
                assert(opened_for(c1[i], st1[i], settings));
                assert(items.contains(st1[i]));
                let m2i = choose|k: int| 0 <= k < items.len() && items[k] == st1[i];
                assert(m2i == m);
            }
        }
    }
    // So seeing the items again leaves the active list as it is.
    let r2 = refresh(a1, items, low);
    assert forall|p: int| 0 <= p < a1.len() implies #[trigger] r2[p] == a1[p] by {
        assert(first_for_item(a1, p));
        if exists|m: int| 0 <= m < items.len() && (#[trigger] items[m]).id == a1[p].item_id {
            let m = choose|m: int| 0 <= m < items.len() && (#[trigger] items[m]).id == a1[p].item_id;
            lemma_apply_one(a1[p], items, low, m);
        } else {
            lemma_apply_untouched(a1[p], items, low);
        }
    }
    assert(r2 =~= a1);
    // And every item that needs an alert has one.
    assert forall|m: int| 0 <= m < items.len() implies tracks(a1, (#[trigger] items[m]).id)
        || classify_spec(items[m].quantity, settings) is None by {
        let it = items[m];
        if classify_spec(it.quantity, settings) is Some {
            if tracks(m0.active, it.id) {
                let j = choose|j: int| 0 <= j < m0.active.len() && #[trigger] m0.active[j].item_id == it.id;
                assert(first_for_item(m0.active, j));
                lemma_apply_one(m0.active[j], items, low, m);
                assert(s1[j] == r1[j]);
                assert(unacked(s1).contains(r1[j]));
                let p = choose|p: int| 0 <= p < a1.len() && a1[p] == r1[j];
                assert(a1[p].item_id == it.id);
            } else {
                assert(items.contains(it));
                assert(st1.contains(it));
                let i = choose|i: int| 0 <= i < st1.len() && st1[i] == it;
                assert(opened_for(c1[i], st1[i], settings));
                assert(s1[r1.len() + i] == c1[i]);
                assert(unacked(s1).contains(c1[i]));
                let p = choose|p: int| 0 <= p < a1.len() && a1[p] == c1[i];
                assert(a1[p].item_id == it.id);
            }
        }
    }
    lemma_staged_none(a1, items, settings);
    assert(c2 =~= Seq::<AlertView>::empty());
    assert(r2 + c2 =~= a1);
    lemma_split_all_open(a1);
    assert(m1.history + acked(a1) =~= m1.history);
    lemma_capped_len(m0.history + acked(s1));
    lemma_capped_len(m1.history);
    assert(m2 =~= m1);
}

/// Every alert active after a reconciliation was opened by it, or was
/// already active under the same id with the same category and threshold.
pub proof fn lemma_alert_identity_stable(
    pre: ManagerView,
    post: ManagerView,
    items: Seq<ItemView>,
    created: Seq<AlertView>,
)
    requires
        reconciled(pre, post, items, created),
    ensures
        forall|a: AlertView| #[trigger] post.active.contains(a) ==> created.contains(a) || exists|j: int|
            0 <= j < pre.active.len() && (#[trigger] pre.active[j]).id == a.id
                && pre.active[j].alert_type == a.alert_type && pre.active[j].threshold == a.threshold,
{
    if pre.settings.enabled {
        let low = pre.settings.low_stock_threshold;
        let r = refresh(pre.active, items, low);
        let joined = r + created;
        lemma_refresh_keeps_items(pre.active, items, low);
        lemma_split_contains(joined);
        assert forall|a: AlertView| #[trigger] post.active.contains(a) implies created.contains(a) || exists|j: int|
            0 <= j < pre.active.len() && (#[trigger] pre.active[j]).id == a.id
                && pre.active[j].alert_type == a.alert_type && pre.active[j].threshold == a.threshold by {
            assert(joined.contains(a));
            let q = choose|q: int| 0 <= q < joined.len() && joined[q] == a;
            if q < r.len() {
                assert(r[q] == a);
                assert(pre.active[q].id == a.id);
            } else {
                assert(created[q - r.len()] == a);
            }
        }
    }
}

/// An alert whose item comes back to at least the low-stock threshold is
/// acknowledged by the reconciliation and ends it in the history, no longer
/// active, provided at most `HISTORY_CAP` alerts are resolved in that call.
pub proof fn lemma_auto_resolution(
    pre: ManagerView,
    post: ManagerView,
    items: Seq<ItemView>,
    created: Seq<AlertView>,
    j: int,
    m: int,
)
    requires
        reconciled(pre, post, items, created),
        pre.settings.enabled,
        0 <= j < pre.active.len(),
        first_for_item(pre.active, j),
        0 <= m < items.len(),
        items[m].id == pre.active[j].item_id,
        items[m].quantity >= pre.settings.low_stock_threshold,
        acked(refresh(pre.active, items, pre.settings.low_stock_threshold)).len() <= HISTORY_CAP,
    ensures
        ({
            let a = refresh(pre.active, items, pre.settings.low_stock_threshold)[j];
            &&& a.id == pre.active[j].id
            &&& a.acknowledged
            &&& a.current_quantity == items[m].quantity || !distinct_item_ids(items)
            &&& post.history.contains(a)
            &&& !post.active.contains(a)
        }),
{
    let low = pre.settings.low_stock_threshold;
    let r = refresh(pre.active, items, low);
    let joined = r + created;
    let a = r[j];
    lemma_refresh_keeps_items(pre.active, items, low);
    lemma_apply_resolves(pre.active[j], items, low, m);
    if distinct_item_ids(items) {
        lemma_apply_one(pre.active[j], items, low, m);
    }
    lemma_split_contains(joined);
    let st = staged(pre.active, items, pre.settings);
    assert forall|i: int| 0 <= i < created.len() implies !(#[trigger] created[i]).acknowledged by {
        assert(opened_for(created[i], st[i], pre.settings));
    }
    lemma_acked_open_tail(r, created);
    assert(joined[j] == a);
    let ack = acked(joined);
    assert(ack.contains(a));
    let q = choose|q: int| 0 <= q < ack.len() && ack[q] == a;
    let h = pre.history + ack;
    assert(h[pre.history.len() + q] == a);
    if h.len() > HISTORY_CAP {
        let start = h.len() - HISTORY_CAP;
        assert(capped(h)[pre.history.len() + q - start] == a);
    }
    assert(post.history.contains(a));
}

/// No two alerts of `s` share an id.
pub open spec fn ids_distinct(s: Seq<AlertView>) -> bool {
    forall|i: int, j: int| 0 <= i < j < s.len() ==> (#[trigger] s[i]).id != (#[trigger] s[j]).id
}

/// With distinct ids, an alert that was active keeps its category and
/// threshold wherever its id turns up after a reconciliation: in the active
/// list or in the history.
pub proof fn lemma_alert_identity_stable_by_id(
    pre: ManagerView,
    post: ManagerView,
    items: Seq<ItemView>,
    created: Seq<AlertView>,
    p: int,
)
    requires
        reconciled(pre, post, items, created),
        ids_distinct(pre.active + pre.history + created),
        0 <= p < pre.active.len(),
    ensures
        forall|b: AlertView| (post.active.contains(b) || post.history.contains(b)) && #[trigger] b.id == pre.active[p].id
            ==> b.alert_type == pre.active[p].alert_type && b.threshold == pre.active[p].threshold,
{
    let a = pre.active[p];
    let all = pre.active + pre.history + created;
    let na = pre.active.len() as int;
    let nh = pre.history.len() as int;
    assert(all[p] == a);
    assert forall|q: int| 0 <= q < pre.history.len() implies (#[trigger] pre.history[q]).id != a.id by {
        assert(all[na + q] == pre.history[q]);
    }
    assert forall|i: int| 0 <= i < created.len() implies (#[trigger] created[i]).id != a.id by {
        assert(all[na + nh + i] == created[i]);
    }
    assert forall|q: int| 0 <= q < pre.active.len() && q != p implies (#[trigger] pre.active[q]).id != a.id by {
        assert(all[q] == pre.active[q]);
        if q < p {
            assert(all[q].id != all[p].id);
        } else {
            assert(all[p].id != all[q].id);
        }
    }
    if pre.settings.enabled {
        let low = pre.settings.low_stock_threshold;
        let r = refresh(pre.active, items, low);
        let joined = r + created;
        lemma_refresh_keeps_items(pre.active, items, low);
        lemma_split_contains(joined);
        let h = pre.history + acked(joined);
        assert forall|b: AlertView| (post.active.contains(b) || post.history.contains(b)) && #[trigger] b.id == a.id
            implies b.alert_type == a.alert_type && b.threshold == a.threshold by {
            if post.history.contains(b) {
                let k = choose|k: int| 0 <= k < post.history.len() && post.history[k] == b;
                if h.len() > HISTORY_CAP {
                    assert(h[h.len() - HISTORY_CAP + k] == b);
                } else {
                    assert(h[k] == b);
                }
                assert(h.contains(b));
                let k2 = choose|k2: int| 0 <= k2 < h.len() && h[k2] == b;
                if k2 < nh {
                    assert(pre.history[k2] == b);
                } else {
                    assert(acked(joined)[k2 - nh] == b);
                    assert(acked(joined).contains(b));
                }
            }
            assert(joined.contains(b));
            let q = choose|q: int| 0 <= q < joined.len() && joined[q] == b;
            if q < r.len() {
                assert(r[q] == b);
                assert(pre.active[q].id == b.id);
            } else {
                assert(created[q - r.len()] == b);
            }
        }
    } else {
        assert forall|b: AlertView| (post.active.contains(b) || post.history.contains(b)) && #[trigger] b.id == a.id
            implies b.alert_type == a.alert_type && b.threshold == a.threshold by {
            if post.history.contains(b) {
                let k = choose|k: int| 0 <= k < post.history.len() && post.history[k] == b;
                assert(pre.history[k] == b);
            }
        }
    }
}

/// With distinct ids, an alert whose item comes back to at least the
/// low-stock threshold leaves the active list in that reconciliation and is
/// in the history, acknowledged, with its category and threshold, provided
/// at most `HISTORY_CAP` alerts are resolved in that call.
pub proof fn lemma_auto_resolution_by_id(
    pre: ManagerView,
    post: ManagerView,
    items: Seq<ItemView>,
    created: Seq<AlertView>,
    j: int,
    m: int,
)
    requires
        reconciled(pre, post, items, created),
        pre.settings.enabled,
        ids_distinct(pre.active + created),
        0 <= j < pre.active.len(),
        first_for_item(pre.active, j),
        0 <= m < items.len(),
        items[m].id == pre.active[j].item_id,
        items[m].quantity >= pre.settings.low_stock_threshold,
        acked(refresh(pre.active, items, pre.settings.low_stock_threshold)).len() <= HISTORY_CAP,
    ensures
        forall|b: AlertView| #[trigger] post.active.contains(b) ==> b.id != pre.active[j].id,
        exists|h: AlertView| #[trigger] post.history.contains(h) && h.id == pre.active[j].id && h.acknowledged
            && h.alert_type == pre.active[j].alert_type && h.threshold == pre.active[j].threshold
            && (distinct_item_ids(items) ==> h.current_quantity == items[m].quantity),
{
    let low = pre.settings.low_stock_threshold;
    let r = refresh(pre.active, items, low);
    let joined = r + created;
    let a = pre.active[j];
    let all = pre.active + created;
    let na = pre.active.len() as int;
    lemma_auto_resolution(pre, post, items, created, j, m);
    lemma_refresh_keeps_items(pre.active, items, low);
    lemma_split_contains(joined);
    assert(all[j] == a);
    assert forall|b: AlertView| #[trigger] post.active.contains(b) implies b.id != a.id by {
        assert(joined.contains(b) && !b.acknowledged);
        let q = choose|q: int| 0 <= q < joined.len() && joined[q] == b;
        if q < r.len() {
            assert(r[q] == b);
            if q != j {
                assert(all[q] == pre.active[q]);
                if q < j {
                    assert(all[q].id != all[j].id);
                } else {
                    assert(all[j].id != all[q].id);
                }
            }
        } else {
            let i = q - r.len();
            assert(created[i] == b);
            assert(all[na + i] == created[i]);
        }
    }
    assert(post.history.contains(r[j]));
}

/// Draining never leaves more than `HISTORY_CAP` entries in the history,
/// and a full history that receives one more entry loses its oldest.
pub proof fn lemma_retention(m: ManagerView)
    ensures
        m.drained().history.len() <= HISTORY_CAP,
        m.history.len() == HISTORY_CAP && acked(m.active).len() == 1 ==> m.drained().history
            == m.history.drop_first() + acked(m.active),
{
    let h = m.history + acked(m.active);
    if m.history.len() == HISTORY_CAP && acked(m.active).len() == 1 {
        assert(capped(h) =~= m.history.drop_first() + acked(m.active));
    }
}

} // verus!
