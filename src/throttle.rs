//! Time-windowed debouncing of notifications, keyed by an opaque string.
use vstd::prelude::*;
use vstd::string::StringExecFns;
use crate::alerts::{AlertType, AlertView, StockAlert, alert_views};
use crate::text::{decimal, decimal_string};

verus! {

/// Shortest throttle window, in seconds.
pub const MIN_WINDOW_SECS: u32 = 1;

/// Longest throttle window, in seconds.
pub const MAX_WINDOW_SECS: u32 = 86400;

/// The configured window in seconds, clamped to
/// `[MIN_WINDOW_SECS, MAX_WINDOW_SECS]`.
pub open spec fn clamp_window(secs: u32) -> u32 {
    if secs < MIN_WINDOW_SECS {
        MIN_WINDOW_SECS
    } else if secs > MAX_WINDOW_SECS {
        MAX_WINDOW_SECS
    } else {
        secs
    }
}

/// The throttle window in milliseconds for a configured number of seconds,
/// so that neither zero nor a huge value can disable throttling.
pub fn throttle_window_ms(configured_secs: u32) -> (r: u64)
    ensures
        r == clamp_window(configured_secs) as u64 * 1000,
{
    let secs = if configured_secs < MIN_WINDOW_SECS {
        MIN_WINDOW_SECS
    } else if configured_secs > MAX_WINDOW_SECS {
        MAX_WINDOW_SECS
    } else {
        configured_secs
    };
    secs as u64 * 1000
}

/// Time from `last` to `now`, or zero when `now` is not later.
pub open spec fn elapsed(last: u64, now: u64) -> u64 {
    if now >= last {
        (now - last) as u64
    } else {
        0
    }
}

/// A notification under `key` may go out at `now`: none was recorded yet,
/// or the window has passed since the last one.
pub open spec fn due(sent: Map<Seq<char>, u64>, key: Seq<char>, window: u64, now: u64) -> bool {
    !sent.contains_key(key) || elapsed(sent[key], now) >= window
}

/// The record after a call at `now` for `key`.
pub open spec fn record(sent: Map<Seq<char>, u64>, key: Seq<char>, window: u64, now: u64) -> Map<Seq<char>, u64> {
    if due(sent, key, window, now) {
        sent.insert(key, now)
    } else {
        sent
    }
}

/// No two entries share a key.
pub open spec fn keys_unique(s: Seq<(String, u64)>) -> bool {
    forall|i: int, j: int| 0 <= i < j < s.len() ==> (#[trigger] s[i]).0@ != (#[trigger] s[j]).0@
}

/// The map that a list of entries with unique keys stands for.
pub open spec fn entry_map(s: Seq<(String, u64)>) -> Map<Seq<char>, u64> {
    Map::new(
        |k: Seq<char>| exists|i: int| 0 <= i < s.len() && (#[trigger] s[i]).0@ == k,
        |k: Seq<char>| s[choose|i: int| 0 <= i < s.len() && (#[trigger] s[i]).0@ == k].1,
    )
}

/// A notification to hand to the delivery channel.
pub struct Notification {
    pub title: String,
    pub body: String,
}

/// Mathematical value of a [`Notification`].
pub struct NotificationView {
    pub title: Seq<char>,
    pub body: Seq<char>,
}

impl View for Notification {
    type V = NotificationView;

    open spec fn view(&self) -> NotificationView {
        NotificationView { title: self.title@, body: self.body@ }
    }
}

/// The views of a sequence of notifications.
pub open spec fn notification_views(s: Seq<Notification>) -> Seq<NotificationView> {
    s.map_values(|n: Notification| n@)
}

/// The throttle key of an alert.
pub open spec fn alert_key(a: AlertView) -> Seq<char> {
    "alert:"@ + a.id
}

/// The notification that announces an alert.
pub open spec fn announce(a: AlertView) -> NotificationView {
    NotificationView {
        title: a.alert_type.label_spec() + ": "@ + a.item_name,
        body: "SKU: "@ + a.item_sku + " | Qty: "@ + decimal(a.current_quantity as nat),
    }
}

/// The record and the notifications after offering `alerts`, in order, to
/// the throttle: each alert whose key is due is announced and recorded.
pub open spec fn dispatch(
    sent: Map<Seq<char>, u64>,
    alerts: Seq<AlertView>,
    window: u64,
    now: u64,
) -> (Map<Seq<char>, u64>, Seq<NotificationView>)
    decreases alerts.len(),
{
    if alerts.len() == 0 {
        (sent, Seq::empty())
    } else {
        let (m, out) = dispatch(sent, alerts.drop_last(), window, now);
        let a = alerts.last();
        if due(m, alert_key(a), window, now) {
            (m.insert(alert_key(a), now), out.push(announce(a)))
        } else {
            (m, out)
        }
    }
}

/// The last time a notification went out under each key, in milliseconds of
/// a monotonic clock.
pub struct NotificationThrottle {
    entries: Vec<(String, u64)>,
}

impl View for NotificationThrottle {
    type V = Map<Seq<char>, u64>;

    closed spec fn view(&self) -> Map<Seq<char>, u64> {
        entry_map(self.entries@)
    }
}

/// An entry of a list with unique keys is what the map holds for its key.
proof fn lemma_entry_at(s: Seq<(String, u64)>, i: int)
    requires
        keys_unique(s),
        0 <= i < s.len(),
    ensures
        entry_map(s).contains_key(s[i].0@),
        entry_map(s)[s[i].0@] == s[i].1,
{
    let k = s[i].0@;
    assert(exists|j: int| 0 <= j < s.len() && (#[trigger] s[j]).0@ == k);
    let j = choose|j: int| 0 <= j < s.len() && (#[trigger] s[j]).0@ == k;
    if j != i {
        if i < j {
            assert(s[i].0@ != s[j].0@);
        } else {
            assert(s[j].0@ != s[i].0@);
        }
    }
}

impl NotificationThrottle {
    /// The throttle's entries have unique keys.
    pub closed spec fn wf(&self) -> bool {
        keys_unique(self.entries@)
    }

    /// A throttle that has sent nothing yet.
    pub fn new() -> (r: NotificationThrottle)
        ensures
            r.wf(),
            r@ == Map::<Seq<char>, u64>::empty(),
    {
        let r = NotificationThrottle { entries: Vec::new() };
        assert(r@ =~= Map::<Seq<char>, u64>::empty());
        r
    }

    /// The notifications to send for newly opened alerts at `now_ms`.
    ///
    /// Nothing is attempted, and nothing recorded, unless both device
    /// notifications and alert notifications are switched on. Otherwise each
    /// alert, in order, is announced when its key `alert:<id>` is due.
    pub fn notify_new_alerts(
        &mut self,
        alerts: &[StockAlert],
        device_notifications_enabled: bool,
        show_notifications: bool,
        window_ms: u64,
        now_ms: u64,
    ) -> (r: Vec<Notification>)
        requires
            old(self).wf(),
        ensures
            final(self).wf(),
            if device_notifications_enabled && show_notifications {
                (final(self)@, notification_views(r@)) == dispatch(old(self)@, alert_views(alerts@), window_ms, now_ms)
            } else {
                final(self)@ == old(self)@ && r@.len() == 0
            },
    {
        let mut out: Vec<Notification> = Vec::new();
        if !device_notifications_enabled || !show_notifications {
            return out;
        }
        let ghost pre = self@;
        let ghost av = alert_views(alerts@);
        let mut i: usize = 0;
        assert(av.take(0) =~= Seq::<AlertView>::empty());
        assert(notification_views(out@) =~= Seq::<NotificationView>::empty());
        while i < alerts.len()
            invariant
                i <= alerts@.len(),
                av == alert_views(alerts@),
                pre == old(self)@,
                self.wf(),
                (self@, notification_views(out@)) == dispatch(pre, av.take(i as int), window_ms, now_ms),
            decreases alerts@.len() - i,
        {
            let a = &alerts[i];
            proof {
                assert(av.take(i + 1).drop_last() =~= av.take(i as int));
                assert(av.take(i + 1).last() == a@);
            }
            let mut key = "alert:".to_string();
            key.append(a.id.as_str());
            assert(key@ == alert_key(a@));
            if self.should_send(key.as_str(), window_ms, now_ms) {
                let mut title = a.alert_type.label();
                title.append(": ");
                title.append(a.item_name.as_str());
                let mut body = "SKU: ".to_string();
                body.append(a.item_sku.as_str());
                body.append(" | Qty: ");
                let qty = decimal_string(a.current_quantity);
                body.append(qty.as_str());
                let n = Notification { title, body };
                assert(n@ == announce(a@));
                let ghost before = out@;
                out.push(n);
                assert(notification_views(out@) =~= notification_views(before).push(n@));
            }
            i += 1;
        }
        assert(av.take(i as int) =~= av);
        out
    }

    /// Whether a notification under `key` may be sent at `now_ms`, given the
    /// window `window_ms`; when it may, `now_ms` is recorded for `key`.
    pub fn should_send(&mut self, key: &str, window_ms: u64, now_ms: u64) -> (r: bool)
        requires
            old(self).wf(),
        ensures
            final(self).wf(),
            r == due(old(self)@, key@, window_ms, now_ms),
            final(self)@ == record(old(self)@, key@, window_ms, now_ms),
    {
        let ghost pre = self.entries@;
        let k = key.to_string();
        let mut i: usize = 0;
        while i < self.entries.len()
            invariant
                k@ == key@,
                pre == old(self).entries@,
                self.entries@ == pre,
                keys_unique(pre),
                i <= pre.len(),
                forall|j: int| 0 <= j < i ==> (#[trigger] pre[j]).0@ != key@,
            decreases pre.len() - i,
        {
            if self.entries[i].0 == k {
                proof {
                    lemma_entry_at(pre, i as int);
                }
                let last = self.entries[i].1;
                let passed = if now_ms >= last { now_ms - last } else { 0 };
                if passed < window_ms {
                    return false;
                }
                self.entries[i].1 = now_ms;
                proof {
                    let post = self.entries@;
                    assert(post =~= pre.update(i as int, (pre[i as int].0, now_ms)));
                    assert(keys_unique(post)) by {
                        assert forall|a: int, b: int| 0 <= a < b < post.len() implies
                            (#[trigger] post[a]).0@ != (#[trigger] post[b]).0@ by {
                            assert(pre[a].0@ != pre[b].0@);
                        }
                    }
                    assert forall|x: Seq<char>| #[trigger] entry_map(post).contains_key(x)
                        == entry_map(pre).insert(key@, now_ms).contains_key(x) by {
                        if entry_map(pre).contains_key(x) {
                            let j = choose|j: int| 0 <= j < pre.len() && (#[trigger] pre[j]).0@ == x;
                            assert(post[j].0@ == x);
                        }
                        if entry_map(post).contains_key(x) {
                            let j = choose|j: int| 0 <= j < post.len() && (#[trigger] post[j]).0@ == x;
                            assert(pre[j].0@ == x);
                        }
                        if x == key@ {
                            assert(post[i as int].0@ == x);
                        }
                    }
                    assert forall|x: Seq<char>| #[trigger] entry_map(post).contains_key(x) implies
                        entry_map(post)[x] == entry_map(pre).insert(key@, now_ms)[x] by {
                        let j = choose|j: int| 0 <= j < post.len() && (#[trigger] post[j]).0@ == x;
                        lemma_entry_at(post, j);
                        lemma_entry_at(pre, j);
                    }
                    assert(entry_map(post) =~= entry_map(pre).insert(key@, now_ms));
                }
                return true;
            }
            i += 1;
        }
        self.entries.push((k, now_ms));
        proof {
            let post = self.entries@;
            assert(!entry_map(pre).contains_key(key@));
            assert(keys_unique(post)) by {
                assert forall|a: int, b: int| 0 <= a < b < post.len() implies
                    (#[trigger] post[a]).0@ != (#[trigger] post[b]).0@ by {
                    if b == pre.len() {
                        assert(pre[a].0@ != key@);
                    } else {
                        assert(pre[a].0@ != pre[b].0@);
                    }
                }
            }
            assert forall|x: Seq<char>| #[trigger] entry_map(post).contains_key(x)
                == entry_map(pre).insert(key@, now_ms).contains_key(x) by {
                if entry_map(pre).contains_key(x) {
                    let j = choose|j: int| 0 <= j < pre.len() && (#[trigger] pre[j]).0@ == x;
                    assert(post[j].0@ == x);
                }
                if entry_map(post).contains_key(x) {
                    let j = choose|j: int| 0 <= j < post.len() && (#[trigger] post[j]).0@ == x;
                    if j < pre.len() {
                        assert(pre[j].0@ == x);
                    }
                }
                if x == key@ {
                    assert(post[pre.len() as int].0@ == x);
                }
            }
            assert forall|x: Seq<char>| #[trigger] entry_map(post).contains_key(x) implies
                entry_map(post)[x] == entry_map(pre).insert(key@, now_ms)[x] by {
                let j = choose|j: int| 0 <= j < post.len() && (#[trigger] post[j]).0@ == x;
                lemma_entry_at(post, j);
                if j < pre.len() {
                    lemma_entry_at(pre, j);
                }
            }
            assert(entry_map(post) =~= entry_map(pre).insert(key@, now_ms));
        }
        true
    }
}

} // verus!
