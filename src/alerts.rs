//! Stock alerts: classification, the active list and the bounded history.
use vstd::prelude::*;

verus! {

/// Highest number of records kept in the alert history.
pub const HISTORY_CAP: usize = 100;

/// Category of a stock alert.
#[derive(Debug, Clone, Copy, PartialEq, Eq, Structural)]
pub enum AlertType {
    OutOfStock,
    LowStock,
    CriticallyLow,
}

impl AlertType {
    /// The symbol shown next to an alert of this category.
    pub fn icon(&self) -> (r: &'static str)
        ensures
            r@ == match *self {
                AlertType::OutOfStock => "\u{1F6AB}"@,
                AlertType::LowStock => "\u{26A0}\u{FE0F}"@,
                AlertType::CriticallyLow => "\u{2757}"@,
            },
    {
        match self {
            AlertType::OutOfStock => "\u{1F6AB}",
            AlertType::LowStock => "\u{26A0}\u{FE0F}",
            AlertType::CriticallyLow => "\u{2757}",
        }
    }

    /// Human-readable name of the category.
    pub fn label(&self) -> (r: String)
        ensures
            r@ == self.label_spec(),
    {
        match self {
            AlertType::OutOfStock => "Out of Stock".to_string(),
            AlertType::LowStock => "Low Stock".to_string(),
            AlertType::CriticallyLow => "Critically Low".to_string(),
        }
    }

    /// Human-readable name of the category.
    pub open spec fn label_spec(self) -> Seq<char> {
        match self {
            AlertType::OutOfStock => "Out of Stock"@,
            AlertType::LowStock => "Low Stock"@,
            AlertType::CriticallyLow => "Critically Low"@,
        }
    }

    /// True for the categories that count as critical.
    pub open spec fn is_critical(self) -> bool {
        self == AlertType::OutOfStock || self == AlertType::CriticallyLow
    }
}

/// Alert configuration.
#[derive(Debug, Clone, Copy, PartialEq, Eq, Structural)]
pub struct AlertSettings {
    pub enabled: bool,
    pub low_stock_threshold: u32,
    pub critically_low_threshold: u32,
    pub show_notifications: bool,
}

impl Default for AlertSettings {
    fn default() -> (r: Self)
        ensures
            r == (AlertSettings {
                enabled: true,
                low_stock_threshold: 10,
                critically_low_threshold: 3,
                show_notifications: true,
            }),
    {
        AlertSettings {
            enabled: true,
            low_stock_threshold: 10,
            critically_low_threshold: 3,
            show_notifications: true,
        }
    }
}

/// The category and threshold that a quantity falls under, if any.
///
/// An empty shelf comes first, then the critical band, then the low band.
pub open spec fn classify_spec(quantity: u32, settings: AlertSettings) -> Option<(AlertType, u32)> {
    if quantity == 0 {
        Some((AlertType::OutOfStock, 0u32))
    } else if quantity <= settings.critically_low_threshold {
        Some((AlertType::CriticallyLow, settings.critically_low_threshold))
    } else if quantity <= settings.low_stock_threshold {
        Some((AlertType::LowStock, settings.low_stock_threshold))
    } else {
        None
    }
}

/// Maps a quantity and the thresholds to an alert category and the
/// threshold that triggered it, or `None` when the stock is sufficient.
pub fn classify(quantity: u32, settings: &AlertSettings) -> (r: Option<(AlertType, u32)>)
    ensures
        r == classify_spec(quantity, *settings),
{
    if quantity == 0 {
        Some((AlertType::OutOfStock, 0))
    } else if quantity <= settings.critically_low_threshold {
        Some((AlertType::CriticallyLow, settings.critically_low_threshold))
    } else if quantity <= settings.low_stock_threshold {
        Some((AlertType::LowStock, settings.low_stock_threshold))
    } else {
        None
    }
}

} // verus!

verus! {

/// What the engine reads of an inventory item.
pub struct StockItem {
    pub id: String,
    pub name: String,
    pub sku: String,
    pub quantity: u32,
}

/// Mathematical value of a [`StockItem`].
pub struct ItemView {
    pub id: Seq<char>,
    pub name: Seq<char>,
    pub sku: Seq<char>,
    pub quantity: u32,
}

impl View for StockItem {
    type V = ItemView;

    open spec fn view(&self) -> ItemView {
        ItemView { id: self.id@, name: self.name@, sku: self.sku@, quantity: self.quantity }
    }
}

/// One alert for one item while its stock stays low.
#[derive(Debug, Clone)]
pub struct StockAlert {
    pub id: String,
    pub item_id: String,
    pub item_name: String,
    pub item_sku: String,
    pub current_quantity: u32,
    pub alert_type: AlertType,
    pub threshold: u32,
    pub created_at: i64,
    pub acknowledged: bool,
}

/// Mathematical value of a [`StockAlert`].
pub struct AlertView {
    pub id: Seq<char>,
    pub item_id: Seq<char>,
    pub item_name: Seq<char>,
    pub item_sku: Seq<char>,
    pub current_quantity: u32,
    pub alert_type: AlertType,
    pub threshold: u32,
    pub created_at: i64,
    pub acknowledged: bool,
}

impl View for StockAlert {
    type V = AlertView;

    open spec fn view(&self) -> AlertView {
        AlertView {
            id: self.id@,
            item_id: self.item_id@,
            item_name: self.item_name@,
            item_sku: self.item_sku@,
            current_quantity: self.current_quantity,
            alert_type: self.alert_type,
            threshold: self.threshold,
            created_at: self.created_at,
            acknowledged: self.acknowledged,
        }
    }
}

/// The views of a sequence of alerts.
pub open spec fn alert_views(s: Seq<StockAlert>) -> Seq<AlertView> {
    s.map_values(|a: StockAlert| a@)
}

/// The views of a sequence of items.
pub open spec fn item_views(s: Seq<StockItem>) -> Seq<ItemView> {
    s.map_values(|i: StockItem| i@)
}

/// `a` is a new, unacknowledged alert for `item`, classified under `settings`.
pub open spec fn opened_for(a: AlertView, item: ItemView, settings: AlertSettings) -> bool {
    &&& classify_spec(item.quantity, settings) == Some((a.alert_type, a.threshold))
    &&& a.item_id == item.id
    &&& a.item_name == item.name
    &&& a.item_sku == item.sku
    &&& a.current_quantity == item.quantity
    &&& !a.acknowledged
}

impl StockAlert {
    /// When the alert was opened, in UTC to the minute, or `Unknown` when
    /// the instant cannot be represented.
    pub fn formatted_timestamp(&self) -> (r: String)
        ensures
            r@ == match crate::support::utc_minutes_text(self.created_at) {
                Some(t) => t,
                None => "Unknown"@,
            },
    {
        match crate::support::format_utc_minutes(self.created_at) {
            Some(s) => s,
            None => "Unknown".to_string(),
        }
    }

    /// A field-by-field copy.
    fn copied(&self) -> (r: StockAlert)
        ensures
            r@ == self@,
    {
        StockAlert {
            id: self.id.clone(),
            item_id: self.item_id.clone(),
            item_name: self.item_name.clone(),
            item_sku: self.item_sku.clone(),
            current_quantity: self.current_quantity,
            alert_type: self.alert_type,
            threshold: self.threshold,
            created_at: self.created_at,
            acknowledged: self.acknowledged,
        }
    }

    /// A new, unacknowledged alert for `item` with the given id and creation
    /// time; the item's name and SKU are captured as they are now.
    pub fn opened(item: &StockItem, alert_type: AlertType, threshold: u32, id: String, created_at: i64) -> (r: StockAlert)
        ensures
            r@ == (AlertView {
                id: id@,
                item_id: item.id@,
                item_name: item.name@,
                item_sku: item.sku@,
                current_quantity: item.quantity,
                alert_type,
                threshold,
                created_at,
                acknowledged: false,
            }),
    {
        StockAlert {
            id,
            item_id: item.id.clone(),
            item_name: item.name.clone(),
            item_sku: item.sku.clone(),
            current_quantity: item.quantity,
            alert_type,
            threshold,
            created_at,
            acknowledged: false,
        }
    }

    /// A new alert for `item` with a fresh id and the current time.
    pub fn new(item: &StockItem, alert_type: AlertType, threshold: u32) -> (r: StockAlert)
        ensures
            r@.item_id == item.id@,
            r@.item_name == item.name@,
            r@.item_sku == item.sku@,
            r@.current_quantity == item.quantity,
            r@.alert_type == alert_type,
            r@.threshold == threshold,
            !r@.acknowledged,
            r@.id.len() == 36,
    {
        let id = crate::support::new_id();
        let now = crate::support::unix_now();
        StockAlert::opened(item, alert_type, threshold, id, now)
    }
}

/// The alerts of `s` that are not acknowledged, in order.
pub open spec fn unacked(s: Seq<AlertView>) -> Seq<AlertView>
    decreases s.len(),
{
    if s.len() == 0 {
        s
    } else if s.last().acknowledged {
        unacked(s.drop_last())
    } else {
        unacked(s.drop_last()).push(s.last())
    }
}

/// The alerts of `s` that are acknowledged, in order.
pub open spec fn acked(s: Seq<AlertView>) -> Seq<AlertView>
    decreases s.len(),
{
    if s.len() == 0 {
        s
    } else if s.last().acknowledged {
        acked(s.drop_last()).push(s.last())
    } else {
        acked(s.drop_last())
    }
}

/// The most recent `HISTORY_CAP` entries of `h`.
pub open spec fn capped(h: Seq<AlertView>) -> Seq<AlertView> {
    if h.len() > HISTORY_CAP {
        h.subrange(h.len() - HISTORY_CAP, h.len() as int)
    } else {
        h
    }
}

/// No earlier alert of `active` is for the same item as the one at `j`.
pub open spec fn first_for_item(active: Seq<AlertView>, j: int) -> bool {
    forall|k: int| 0 <= k < j ==> active[k].item_id != #[trigger] active[j].item_id
}

/// Some alert of `active` is for the item with id `id`.
pub open spec fn tracks(active: Seq<AlertView>, id: Seq<char>) -> bool {
    exists|k: int| 0 <= k < active.len() && #[trigger] active[k].item_id == id
}

/// The alert `a` after the items of `items` with its item id were seen in
/// order: each takes over the quantity, and one at or above `low` marks the
/// alert as acknowledged. Category and threshold stay as they were.
pub open spec fn apply_items(a: AlertView, items: Seq<ItemView>, low: u32) -> AlertView
    decreases items.len(),
{
    if items.len() == 0 {
        a
    } else {
        let prev = apply_items(a, items.drop_last(), low);
        let it = items.last();
        if it.id == a.item_id {
            AlertView {
                current_quantity: it.quantity,
                acknowledged: prev.acknowledged || it.quantity >= low,
                ..prev
            }
        } else {
            prev
        }
    }
}

/// The active list after the items were seen: the first alert of each item
/// takes the item's news, later duplicates are left as they were.
pub open spec fn refresh(active: Seq<AlertView>, items: Seq<ItemView>, low: u32) -> Seq<AlertView> {
    Seq::new(
        active.len(),
        |j: int|
            if first_for_item(active, j) {
                apply_items(active[j], items, low)
            } else {
                active[j]
            },
    )
}

/// The items, in input order, that had no active alert and fall into an
/// alert band: each one receives a new alert.
pub open spec fn staged(active: Seq<AlertView>, items: Seq<ItemView>, settings: AlertSettings) -> Seq<ItemView>
    decreases items.len(),
{
    if items.len() == 0 {
        Seq::empty()
    } else {
        let prev = staged(active, items.drop_last(), settings);
        let it = items.last();
        if !tracks(active, it.id) && classify_spec(it.quantity, settings) is Some {
            prev.push(it)
        } else {
            prev
        }
    }
}

/// One reconciliation took `pre` to `post` and opened the alerts `created`.
///
/// With alerts disabled the active list is emptied, the history is left
/// alone and nothing is opened. Otherwise the active alerts take the
/// items' news, one new alert (with a fresh 36-character id) is opened per
/// staged item, and the acknowledged alerts are drained to the history.
pub open spec fn reconciled(
    pre: ManagerView,
    post: ManagerView,
    items: Seq<ItemView>,
    created: Seq<AlertView>,
) -> bool {
    if !pre.settings.enabled {
        &&& post == (ManagerView { active: Seq::empty(), ..pre })
        &&& created.len() == 0
    } else {
        let st = staged(pre.active, items, pre.settings);
        &&& created.len() == st.len()
        &&& forall|i: int| 0 <= i < created.len() ==> opened_for(#[trigger] created[i], st[i], pre.settings)
        &&& forall|i: int| 0 <= i < created.len() ==> (#[trigger] created[i]).id.len() == 36
        &&& post == (ManagerView {
            active: refresh(pre.active, items, pre.settings.low_stock_threshold) + created,
            ..pre
        }).drained()
    }
}

/// Seeing items never changes which alert it is, its category or threshold.
pub(crate) proof fn lemma_apply_keeps_identity(a: AlertView, items: Seq<ItemView>, low: u32)
    ensures
        apply_items(a, items, low).id == a.id,
        apply_items(a, items, low).item_id == a.item_id,
        apply_items(a, items, low).item_name == a.item_name,
        apply_items(a, items, low).item_sku == a.item_sku,
        apply_items(a, items, low).alert_type == a.alert_type,
        apply_items(a, items, low).threshold == a.threshold,
        apply_items(a, items, low).created_at == a.created_at,
    decreases items.len(),
{
    if items.len() > 0 {
        lemma_apply_keeps_identity(a, items.drop_last(), low);
    }
}

/// Refreshing keeps the item of every position.
pub(crate) proof fn lemma_refresh_keeps_items(active: Seq<AlertView>, items: Seq<ItemView>, low: u32)
    ensures
        refresh(active, items, low).len() == active.len(),
        forall|j: int| 0 <= j < active.len() ==> (#[trigger] refresh(active, items, low)[j]).item_id == active[j].item_id,
        forall|j: int| 0 <= j < active.len() ==> (#[trigger] refresh(active, items, low)[j]).id == active[j].id,
        forall|j: int| 0 <= j < active.len() ==> (#[trigger] refresh(active, items, low)[j]).alert_type == active[j].alert_type,
        forall|j: int| 0 <= j < active.len() ==> (#[trigger] refresh(active, items, low)[j]).threshold == active[j].threshold,
{
    assert forall|j: int| 0 <= j < active.len() implies {
        let r = #[trigger] refresh(active, items, low)[j];
        &&& r.item_id == active[j].item_id
        &&& r.id == active[j].id
        &&& r.alert_type == active[j].alert_type
        &&& r.threshold == active[j].threshold
    } by {
        lemma_apply_keeps_identity(active[j], items, low);
    }
}

/// The unacknowledged alerts of `s` in a critical category, in order.
pub open spec fn critical_open(s: Seq<AlertView>) -> Seq<AlertView>
    decreases s.len(),
{
    if s.len() == 0 {
        s
    } else if s.last().alert_type.is_critical() && !s.last().acknowledged {
        critical_open(s.drop_last()).push(s.last())
    } else {
        critical_open(s.drop_last())
    }
}

/// Position of the first alert of `s` with id `id`, if any.
pub open spec fn first_with_id(s: Seq<AlertView>, id: Seq<char>) -> Option<int> {
    if exists|j: int| 0 <= j < s.len() && #[trigger] s[j].id == id {
        Some(choose|j: int| 0 <= j < s.len() && s[j].id == id && forall|k: int| 0 <= k < j ==> #[trigger] s[k].id != id)
    } else {
        None
    }
}

/// The first alert with a given id is where a scan stops.
proof fn lemma_first_with_id(s: Seq<AlertView>, id: Seq<char>, k: int)
    requires
        0 <= k < s.len(),
        s[k].id == id,
        forall|m: int| 0 <= m < k ==> #[trigger] s[m].id != id,
    ensures
        first_with_id(s, id) == Some(k),
{
    assert(exists|m: int| 0 <= m < s.len() && #[trigger] s[m].id == id);
    let j = first_with_id(s, id)->Some_0;
    if j < k {
        assert(s[j].id != id);
    } else if j > k {
        assert(s[k].id != id);
    }
}

/// Mathematical value of an [`AlertManager`].
pub struct ManagerView {
    pub active: Seq<AlertView>,
    pub history: Seq<AlertView>,
    pub settings: AlertSettings,
}

impl ManagerView {
    /// The history stays within its cap.
    pub open spec fn wf(self) -> bool {
        self.history.len() <= HISTORY_CAP
    }

    /// Acknowledged alerts leave the active list for the end of the history,
    /// which then keeps its most recent `HISTORY_CAP` entries.
    pub open spec fn drained(self) -> ManagerView {
        ManagerView {
            active: unacked(self.active),
            history: capped(self.history + acked(self.active)),
            settings: self.settings,
        }
    }
}

/// Owns the active alerts, the alert history and the alert settings.
pub struct AlertManager {
    active_alerts: Vec<StockAlert>,
    alert_history: Vec<StockAlert>,
    settings: AlertSettings,
}

impl View for AlertManager {
    type V = ManagerView;

    closed spec fn view(&self) -> ManagerView {
        ManagerView {
            active: alert_views(self.active_alerts@),
            history: alert_views(self.alert_history@),
            settings: self.settings,
        }
    }
}

impl Default for AlertManager {
    fn default() -> (r: AlertManager)
        ensures
            r@.active == Seq::<AlertView>::empty(),
            r@.history == Seq::<AlertView>::empty(),
            r@.settings == (AlertSettings {
                enabled: true,
                low_stock_threshold: 10,
                critically_low_threshold: 3,
                show_notifications: true,
            }),
            r@.wf(),
    {
        AlertManager::new()
    }
}

impl AlertManager {
    /// An engine with no alerts and the default settings.
    pub fn new() -> (r: AlertManager)
        ensures
            r@.active == Seq::<AlertView>::empty(),
            r@.history == Seq::<AlertView>::empty(),
            r@.settings == (AlertSettings {
                enabled: true,
                low_stock_threshold: 10,
                critically_low_threshold: 3,
                show_notifications: true,
            }),
            r@.wf(),
    {
        let r = AlertManager {
            active_alerts: Vec::new(),
            alert_history: Vec::new(),
            settings: AlertSettings::default(),
        };
        assert(r@.active =~= Seq::<AlertView>::empty());
        assert(r@.history =~= Seq::<AlertView>::empty());
        r
    }

    /// Position of the first active alert for the item `item_id`.
    fn find_active(&self, item_id: &String) -> (r: Option<usize>)
        ensures
            match r {
                Some(k) => {
                    &&& k < self@.active.len()
                    &&& self@.active[k as int].item_id == item_id@
                    &&& forall|j: int| 0 <= j < k ==> self@.active[j].item_id != item_id@
                },
                None => forall|j: int| 0 <= j < self@.active.len() ==> self@.active[j].item_id != item_id@,
            },
    {
        let mut k: usize = 0;
        while k < self.active_alerts.len()
            invariant
                k <= self.active_alerts@.len(),
                forall|j: int| 0 <= j < k ==> self@.active[j].item_id != item_id@,
            decreases self.active_alerts@.len() - k,
        {
            if self.active_alerts[k].item_id == *item_id {
                return Some(k);
            }
            k += 1;
        }
        None
    }

    /// Reconciles the alerts with a snapshot of the inventory and returns the
    /// alerts opened by this call.
    ///
    /// With alerts disabled, the active list is emptied (without touching the
    /// history) and nothing is opened. Otherwise, for each item in order: an
    /// item that already has an active alert updates that alert's quantity,
    /// and one at or above the low-stock threshold acknowledges it; an item
    /// without one gets a new alert when its quantity falls into an alert
    /// band. The new alerts join the active list, and the acknowledged alerts
    /// move to the bounded history.
    pub fn update_from_inventory(&mut self, items: &[StockItem]) -> (r: Vec<StockAlert>)
        requires
            old(self)@.wf(),
        ensures
            final(self)@.wf(),
            reconciled(old(self)@, final(self)@, item_views(items@), alert_views(r@)),
    {
        let ghost pre = self@;
        if !self.settings.enabled {
            self.active_alerts.clear();
            let r: Vec<StockAlert> = Vec::new();
            assert(self@.active =~= Seq::<AlertView>::empty());
            assert(self@ =~= (ManagerView { active: Seq::empty(), ..pre }));
            return r;
        }
        let ghost iv = item_views(items@);
        let low = self.settings.low_stock_threshold;
        let mut created: Vec<StockAlert> = Vec::new();
        let mut i: usize = 0;
        assert(refresh(pre.active, iv.take(0), low) =~= pre.active);
        while i < items.len()
            invariant
                i <= items@.len(),
                iv == item_views(items@),
                pre == old(self)@,
                pre.settings.enabled,
                self.settings == pre.settings,
                low == pre.settings.low_stock_threshold,
                alert_views(self.alert_history@) == pre.history,
                alert_views(self.active_alerts@) == refresh(pre.active, iv.take(i as int), low),
                created@.len() == staged(pre.active, iv.take(i as int), pre.settings).len(),
                forall|k: int| 0 <= k < created@.len() ==> (#[trigger] created@[k]@).id.len() == 36,
                forall|k: int|
                    0 <= k < created@.len() ==> opened_for(
                        #[trigger] created@[k]@,
                        staged(pre.active, iv.take(i as int), pre.settings)[k],
                        pre.settings,
                    ),
            decreases items@.len() - i,
        {
            let item = &items[i];
            let ghost cur = self@.active;
            let ghost before = iv.take(i as int);
            let ghost after = iv.take(i + 1);
            proof {
                lemma_refresh_keeps_items(pre.active, before, low);
                assert(after.drop_last() =~= before);
                assert(after.last() == item@);
            }
            match self.find_active(&item.id) {
                Some(k) => {
                    proof {
                        assert forall|j: int| 0 <= j < k implies pre.active[j].item_id
                            != #[trigger] pre.active[k as int].item_id by {
                            assert(cur[j] == refresh(pre.active, before, low)[j]);
                            assert(cur[k as int] == refresh(pre.active, before, low)[k as int]);
                        }
                        assert(first_for_item(pre.active, k as int));
                        assert(pre.active[k as int].item_id == item@.id);
                    }
                    let ghost old_vec = self.active_alerts@;
                    let q = item.quantity;
                    self.active_alerts[k].current_quantity = q;
                    if q >= low {
                        self.active_alerts[k].acknowledged = true;
                    }
                    proof {
                        assert forall|j: int| 0 <= j < pre.active.len() implies
                            #[trigger] self@.active[j] == refresh(pre.active, after, low)[j] by {
                            assert(cur[j] == refresh(pre.active, before, low)[j]);
                            if j == k {
                                assert(cur[j] == apply_items(pre.active[j], before, low));
                                assert(self.active_alerts@[j]@ == (AlertView {
                                    current_quantity: q,
                                    acknowledged: cur[j].acknowledged || q >= low,
                                    ..cur[j]
                                }));
                            } else {
                                assert(self.active_alerts@[j] == old_vec[j]);
                                if first_for_item(pre.active, j) {
                                    if j < k {
                                        assert(pre.active[j].item_id != item@.id);
                                    } else {
                                        assert(pre.active[k as int].item_id != pre.active[j].item_id);
                                    }
                                }
                            }
                        }
                        assert(self@.active =~= refresh(pre.active, after, low));
                        assert(tracks(pre.active, item@.id));
                        assert(staged(pre.active, after, pre.settings) == staged(pre.active, before, pre.settings));
                    }
                },
                None => {
                    match classify(item.quantity, &self.settings) {
                        Some((t, th)) => {
                            let a = StockAlert::new(item, t, th);
                            created.push(a);
                        },
                        None => {},
                    }
                    proof {
                        assert forall|j: int| 0 <= j < pre.active.len() implies
                            #[trigger] self@.active[j] == refresh(pre.active, after, low)[j] by {
                            assert(cur[j] == refresh(pre.active, before, low)[j]);
                            assert(pre.active[j].item_id != item@.id);
                        }
                        assert(self@.active =~= refresh(pre.active, after, low));
                        assert forall|j: int| 0 <= j < pre.active.len() implies
                            #[trigger] pre.active[j].item_id != item@.id by {
                            assert(cur[j] == refresh(pre.active, before, low)[j]);
                        }
                        assert(!tracks(pre.active, item@.id));
                    }
                },
            }
            i += 1;
        }
        proof {
            assert(iv.take(i as int) =~= iv);
        }
        let ghost refreshed = self@.active;
        let mut c: usize = 0;
        while c < created.len()
            invariant
                c <= created@.len(),
                self.settings == pre.settings,
                alert_views(self.alert_history@) == pre.history,
                alert_views(self.active_alerts@) == refreshed + alert_views(created@).take(c as int),
            decreases created@.len() - c,
        {
            let a = created[c].copied();
            let ghost old_vec = self.active_alerts@;
            self.active_alerts.push(a);
            assert(alert_views(self.active_alerts@) =~= alert_views(old_vec).push(a@));
            assert(alert_views(created@).take(c + 1) =~= alert_views(created@).take(c as int).push(a@));
            assert(alert_views(self.active_alerts@) =~= refreshed + alert_views(created@).take(c + 1));
            c += 1;
        }
        assert(alert_views(created@).take(c as int) =~= alert_views(created@));
        assert(self@ =~= (ManagerView { active: refreshed + alert_views(created@), ..pre }));
        self.drain_acknowledged_to_history();
        created
    }

    /// The alert settings.
    pub fn settings(&self) -> (r: &AlertSettings)
        ensures
            *r == self@.settings,
    {
        &self.settings
    }

    /// The alert settings, for changing in place. Nothing else changes.
    pub fn settings_mut(&mut self) -> (r: &mut AlertSettings)
        ensures
            *r == old(self)@.settings,
            final(self)@ == (ManagerView { settings: *final(r), ..old(self)@ }),
    {
        &mut self.settings
    }

    /// The active alerts, in insertion order.
    pub fn get_active_alerts(&self) -> (r: &[StockAlert])
        ensures
            alert_views(r@) == self@.active,
    {
        self.active_alerts.as_slice()
    }

    /// The history, oldest first.
    pub fn get_alert_history(&self) -> (r: &[StockAlert])
        ensures
            alert_views(r@) == self@.history,
    {
        self.alert_history.as_slice()
    }

    /// Number of active alerts that are not acknowledged.
    pub fn get_unacknowledged_count(&self) -> (r: usize)
        ensures
            r == unacked(self@.active).len(),
    {
        let ghost all = self@.active;
        let mut n: usize = 0;
        let mut k: usize = 0;
        while k < self.active_alerts.len()
            invariant
                k <= all.len(),
                all == self@.active,
                n == unacked(all.take(k as int)).len(),
                n <= k,
            decreases all.len() - k,
        {
            assert(all.take(k + 1).drop_last() =~= all.take(k as int));
            if !self.active_alerts[k].acknowledged {
                n += 1;
            }
            k += 1;
        }
        assert(all.take(k as int) =~= all);
        n
    }

    /// The active alerts that are out of stock or critically low and not yet
    /// acknowledged, in order.
    pub fn get_critical_alerts(&self) -> (r: Vec<&StockAlert>)
        ensures
            r@.map_values(|a: &StockAlert| a@) == critical_open(self@.active),
    {
        let ghost all = self@.active;
        let mut r: Vec<&StockAlert> = Vec::new();
        let mut k: usize = 0;
        while k < self.active_alerts.len()
            invariant
                k <= all.len(),
                all == self@.active,
                r@.map_values(|a: &StockAlert| a@) == critical_open(all.take(k as int)),
            decreases all.len() - k,
        {
            assert(all.take(k + 1).drop_last() =~= all.take(k as int));
            let a = &self.active_alerts[k];
            let critical = match a.alert_type {
                AlertType::OutOfStock => true,
                AlertType::CriticallyLow => true,
                AlertType::LowStock => false,
            };
            if critical && !a.acknowledged {
                let ghost before = r@;
                r.push(a);
                assert(r@.map_values(|a: &StockAlert| a@) =~= before.map_values(|a: &StockAlert| a@).push(a@));
            }
            k += 1;
        }
        assert(all.take(k as int) =~= all);
        r
    }

    /// Acknowledges the first active alert with id `alert_id`; returns
    /// whether there was one. Nothing moves to the history here.
    pub fn acknowledge_alert(&mut self, alert_id: &str) -> (r: bool)
        ensures
            r == (first_with_id(old(self)@.active, alert_id@) is Some),
            match first_with_id(old(self)@.active, alert_id@) {
                Some(j) => final(self)@ == (ManagerView {
                    active: old(self)@.active.update(j, AlertView { acknowledged: true, ..old(self)@.active[j] }),
                    ..old(self)@
                }),
                None => final(self)@ == old(self)@,
            },
    {
        let ghost pre = self@;
        let key = alert_id.to_string();
        let mut k: usize = 0;
        while k < self.active_alerts.len()
            invariant
                key@ == alert_id@,
                pre == old(self)@,
                self@ == pre,
                k <= pre.active.len(),
                forall|j: int| 0 <= j < k ==> #[trigger] pre.active[j].id != alert_id@,
            decreases pre.active.len() - k,
        {
            if self.active_alerts[k].id == key {
                let ghost old_vec = self.active_alerts@;
                self.active_alerts[k].acknowledged = true;
                proof {
                    lemma_first_with_id(pre.active, alert_id@, k as int);
                    assert(self@.active =~= pre.active.update(k as int, AlertView { acknowledged: true, ..pre.active[k as int] }));
                }
                return true;
            }
            k += 1;
        }
        assert(first_with_id(pre.active, alert_id@) is None);
        false
    }

    /// Acknowledges every active alert.
    pub fn acknowledge_all(&mut self)
        ensures
            final(self)@.history == old(self)@.history,
            final(self)@.settings == old(self)@.settings,
            final(self)@.active.len() == old(self)@.active.len(),
            forall|j: int| 0 <= j < old(self)@.active.len() ==> #[trigger] final(self)@.active[j]
                == (AlertView { acknowledged: true, ..old(self)@.active[j] }),
    {
        let ghost pre = self@;
        let mut k: usize = 0;
        while k < self.active_alerts.len()
            invariant
                k <= pre.active.len(),
                self@.history == pre.history,
                self@.settings == pre.settings,
                self@.active.len() == pre.active.len(),
                forall|j: int| 0 <= j < k ==> #[trigger] self@.active[j]
                    == (AlertView { acknowledged: true, ..pre.active[j] }),
                forall|j: int| k <= j < pre.active.len() ==> #[trigger] self@.active[j] == pre.active[j],
            decreases pre.active.len() - k,
        {
            let ghost before = self@.active;
            self.active_alerts[k].acknowledged = true;
            assert(self@.active =~= before.update(k as int, AlertView { acknowledged: true, ..before[k as int] }));
            k += 1;
        }
    }

    /// Moves the acknowledged alerts to the history now, as reconciliation
    /// would, keeping the history within its cap.
    pub fn clear_acknowledged(&mut self)
        requires
            old(self)@.wf(),
        ensures
            final(self)@ == old(self)@.drained(),
            final(self)@.wf(),
    {
        self.drain_acknowledged_to_history();
    }

    /// Moves every acknowledged alert, in order, to the end of the history,
    /// and drops the oldest history entries beyond `HISTORY_CAP`.
    fn drain_acknowledged_to_history(&mut self)
        ensures
            final(self)@ == old(self)@.drained(),
    {
        let ghost orig = alert_views(self.active_alerts@);
        let mut pending = self.active_alerts.split_off(0);
        let mut removed: Vec<StockAlert> = Vec::new();
        let ghost n = pending@.len();
        let ghost mut i: int = 0;
        assert(alert_views(pending@) =~= orig);
        assert(alert_views(self.active_alerts@) =~= unacked(orig.take(0)));
        assert(alert_views(removed@) =~= acked(orig.take(0)));
        while pending.len() > 0
            invariant
                0 <= i <= n == orig.len(),
                pending@.len() == n - i,
                alert_views(pending@) == orig.subrange(i, n as int),
                alert_views(self.active_alerts@) == unacked(orig.take(i)),
                alert_views(removed@) == acked(orig.take(i)),
                self.alert_history == old(self).alert_history,
                self.settings == old(self).settings,
            decreases pending.len(),
        {
            let ghost old_pending = pending;
            let a = pending.remove(0);
            proof {
                assert(alert_views(old_pending@)[0] == orig.subrange(i, n as int)[0]);
                assert(a@ == orig[i]);
                assert(orig.take(i + 1).drop_last() =~= orig.take(i));
                assert forall|k: int| 0 <= k < pending@.len() implies alert_views(pending@)[k]
                    == orig.subrange(i + 1, n as int)[k] by {
                    assert(pending@[k] == old_pending@[k + 1]);
                    assert(alert_views(old_pending@)[k + 1] == orig.subrange(i, n as int)[k + 1]);
                }
                assert(alert_views(pending@) =~= orig.subrange(i + 1, n as int));
            }
            if a.acknowledged {
                removed.push(a);
                assert(alert_views(removed@) =~= acked(orig.take(i + 1)));
                assert(alert_views(self.active_alerts@) =~= unacked(orig.take(i + 1)));
            } else {
                self.active_alerts.push(a);
                assert(alert_views(removed@) =~= acked(orig.take(i + 1)));
                assert(alert_views(self.active_alerts@) =~= unacked(orig.take(i + 1)));
            }
            proof {
                i = i + 1;
            }
        }
        assert(orig.take(i) =~= orig);
        let ghost before = alert_views(self.alert_history@);
        self.alert_history.append(&mut removed);
        assert(alert_views(self.alert_history@) =~= before + acked(orig));
        let len = self.alert_history.len();
        if len > HISTORY_CAP {
            let ghost joined = alert_views(self.alert_history@);
            let tail = self.alert_history.split_off(len - HISTORY_CAP);
            self.alert_history = tail;
            assert(alert_views(self.alert_history@) =~= joined.subrange(
                len - HISTORY_CAP,
                len as int,
            ));
        }
    }
}

} // verus!
