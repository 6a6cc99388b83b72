use inventory_app::alerts::{classify, AlertManager, AlertSettings, AlertType, StockAlert, StockItem};

fn item(id: &str, quantity: u32) -> StockItem {
    StockItem {
        id: id.to_string(),
        name: format!("Item {}", id),
        sku: format!("SKU-{}", id),
        quantity,
    }
}

fn settings(low: u32, critical: u32) -> AlertSettings {
    AlertSettings {
        enabled: true,
        low_stock_threshold: low,
        critically_low_threshold: critical,
        show_notifications: true,
    }
}

fn ids(alerts: &[StockAlert]) -> Vec<String> {
    alerts.iter().map(|a| a.id.clone()).collect()
}

#[test]
fn classify_bands() {
    let s = settings(10, 3);
    assert_eq!(classify(0, &s), Some((AlertType::OutOfStock, 0)));
    assert_eq!(classify(2, &s), Some((AlertType::CriticallyLow, 3)));
    assert_eq!(classify(3, &s), Some((AlertType::CriticallyLow, 3)));
    assert_eq!(classify(4, &s), Some((AlertType::LowStock, 10)));
    assert_eq!(classify(10, &s), Some((AlertType::LowStock, 10)));
    assert_eq!(classify(11, &s), None);
}

#[test]
fn classify_empty_shelf_before_zero_critical_threshold() {
    let s = settings(10, 0);
    assert_eq!(classify(0, &s), Some((AlertType::OutOfStock, 0)));
    assert_eq!(classify(1, &s), Some((AlertType::LowStock, 10)));
}

#[test]
fn classify_overlapping_thresholds_prefer_critical() {
    let s = settings(5, 8);
    assert_eq!(classify(4, &s), Some((AlertType::CriticallyLow, 8)));
    assert_eq!(classify(7, &s), Some((AlertType::CriticallyLow, 8)));
    assert_eq!(classify(9, &s), None);
}

#[test]
fn default_settings() {
    let s = AlertSettings::default();
    assert!(s.enabled);
    assert_eq!(s.low_stock_threshold, 10);
    assert_eq!(s.critically_low_threshold, 3);
    assert!(s.show_notifications);
    let m = AlertManager::new();
    assert_eq!(*m.settings(), s);
    assert!(m.get_active_alerts().is_empty());
    assert!(m.get_alert_history().is_empty());
}

#[test]
fn scenario_lifecycle_of_one_alert() {
    let mut m = AlertManager::new();
    let created = m.update_from_inventory(&[item("A", 2)]);
    assert_eq!(created.len(), 1);
    assert_eq!(created[0].item_id, "A");
    assert_eq!(created[0].alert_type, AlertType::CriticallyLow);
    assert_eq!(created[0].threshold, 3);
    assert_eq!(created[0].current_quantity, 2);
    assert!(!created[0].acknowledged);
    assert_eq!(created[0].id.len(), 36);
    let id = created[0].id.clone();

    let created = m.update_from_inventory(&[item("A", 0)]);
    assert!(created.is_empty());
    assert_eq!(m.get_active_alerts().len(), 1);
    let a = &m.get_active_alerts()[0];
    assert_eq!(a.id, id);
    assert_eq!(a.current_quantity, 0);
    assert_eq!(a.alert_type, AlertType::CriticallyLow);
    assert_eq!(a.threshold, 3);

    let created = m.update_from_inventory(&[item("A", 12)]);
    assert!(created.is_empty());
    assert!(m.get_active_alerts().is_empty());
    assert_eq!(m.get_alert_history().len(), 1);
    let h = &m.get_alert_history()[0];
    assert_eq!(h.id, id);
    assert!(h.acknowledged);
    assert_eq!(h.current_quantity, 12);
    assert_eq!(h.alert_type, AlertType::CriticallyLow);
}

#[test]
fn scenario_disabled_clears_without_history() {
    let mut m = AlertManager::new();
    m.update_from_inventory(&[item("A", 1)]);
    assert_eq!(m.get_active_alerts().len(), 1);
    m.settings_mut().enabled = false;
    let created = m.update_from_inventory(&[item("A", 1)]);
    assert!(created.is_empty());
    assert!(m.get_active_alerts().is_empty());
    assert!(m.get_alert_history().is_empty());
    assert!(!m.settings().enabled);
}

#[test]
fn one_alert_per_item_over_several_passes() {
    let mut m = AlertManager::new();
    let passes = vec![
        vec![item("A", 1), item("B", 5), item("C", 50)],
        vec![item("A", 0), item("B", 4), item("C", 2)],
        vec![item("C", 1), item("A", 3), item("D", 0)],
        vec![item("B", 20), item("D", 0)],
    ];
    for items in &passes {
        m.update_from_inventory(items);
        let mut seen: Vec<String> = m.get_active_alerts().iter().map(|a| a.item_id.clone()).collect();
        let n = seen.len();
        seen.sort();
        seen.dedup();
        assert_eq!(seen.len(), n);
    }
    let mut seen: Vec<String> = m.get_active_alerts().iter().map(|a| a.item_id.clone()).collect();
    seen.sort();
    assert_eq!(seen, vec!["A", "C", "D"]);
}

#[test]
fn second_pass_with_same_items_changes_nothing() {
    let mut m = AlertManager::new();
    let items = vec![item("A", 0), item("B", 2), item("C", 7), item("D", 40)];
    let first = m.update_from_inventory(&items);
    assert_eq!(first.len(), 3);
    let active_before = ids(m.get_active_alerts());
    let quantities: Vec<u32> = m.get_active_alerts().iter().map(|a| a.current_quantity).collect();
    let second = m.update_from_inventory(&items);
    assert!(second.is_empty());
    assert_eq!(ids(m.get_active_alerts()), active_before);
    let again: Vec<u32> = m.get_active_alerts().iter().map(|a| a.current_quantity).collect();
    assert_eq!(again, quantities);
    assert!(m.get_alert_history().is_empty());
}

#[test]
fn category_and_threshold_survive_updates() {
    let mut m = AlertManager::new();
    m.update_from_inventory(&[item("A", 9)]);
    let a = m.get_active_alerts()[0].clone();
    assert_eq!(a.alert_type, AlertType::LowStock);
    assert_eq!(a.threshold, 10);
    m.settings_mut().low_stock_threshold = 20;
    m.settings_mut().critically_low_threshold = 15;
    for q in [5, 0, 1, 19] {
        m.update_from_inventory(&[item("A", q)]);
        let b = &m.get_active_alerts()[0];
        assert_eq!(b.id, a.id);
        assert_eq!(b.alert_type, AlertType::LowStock);
        assert_eq!(b.threshold, 10);
        assert_eq!(b.current_quantity, q);
    }
}

#[test]
fn recovery_exactly_at_low_threshold_resolves() {
    let mut m = AlertManager::new();
    m.update_from_inventory(&[item("A", 5)]);
    m.update_from_inventory(&[item("A", 10)]);
    assert!(m.get_active_alerts().is_empty());
    assert_eq!(m.get_alert_history().len(), 1);
    assert!(m.get_alert_history()[0].acknowledged);
}

#[test]
fn history_keeps_the_latest_hundred() {
    let mut m = AlertManager::new();
    let low: Vec<StockItem> = (0..101).map(|i| item(&format!("I{:03}", i), 1)).collect();
    let created = m.update_from_inventory(&low);
    assert_eq!(created.len(), 101);
    let high: Vec<StockItem> = (0..101).map(|i| item(&format!("I{:03}", i), 50)).collect();
    m.update_from_inventory(&high);
    assert!(m.get_active_alerts().is_empty());
    let h = m.get_alert_history();
    assert_eq!(h.len(), 100);
    assert_eq!(h[0].item_id, "I001");
    assert_eq!(h[99].item_id, "I100");
}

#[test]
fn hundred_and_first_entry_drops_the_oldest() {
    let mut m = AlertManager::new();
    let low: Vec<StockItem> = (0..100).map(|i| item(&format!("I{:03}", i), 1)).collect();
    m.update_from_inventory(&low);
    let high: Vec<StockItem> = (0..100).map(|i| item(&format!("I{:03}", i), 50)).collect();
    m.update_from_inventory(&high);
    assert_eq!(m.get_alert_history().len(), 100);
    assert_eq!(m.get_alert_history()[0].item_id, "I000");
    m.update_from_inventory(&[item("X", 1)]);
    m.update_from_inventory(&[item("X", 50)]);
    let h = m.get_alert_history();
    assert_eq!(h.len(), 100);
    assert_eq!(h[0].item_id, "I001");
    assert_eq!(h[99].item_id, "X");
}

#[test]
fn missing_item_leaves_its_alert_alone() {
    let mut m = AlertManager::new();
    m.update_from_inventory(&[item("A", 1), item("B", 2)]);
    let created = m.update_from_inventory(&[]);
    assert!(created.is_empty());
    assert_eq!(m.get_active_alerts().len(), 2);
    m.update_from_inventory(&[item("B", 30)]);
    assert_eq!(m.get_active_alerts().len(), 1);
    assert_eq!(m.get_active_alerts()[0].item_id, "A");
    assert_eq!(m.get_active_alerts()[0].current_quantity, 1);
}

#[test]
fn acknowledge_and_clear() {
    let mut m = AlertManager::new();
    m.update_from_inventory(&[item("A", 0), item("B", 5), item("C", 2)]);
    assert_eq!(m.get_unacknowledged_count(), 3);
    assert!(!m.acknowledge_alert("no-such-id"));
    assert_eq!(m.get_unacknowledged_count(), 3);
    let b = m.get_active_alerts()[1].id.clone();
    assert!(m.acknowledge_alert(&b));
    assert_eq!(m.get_unacknowledged_count(), 2);
    assert_eq!(m.get_active_alerts().len(), 3);
    assert!(m.get_active_alerts()[1].acknowledged);
    m.clear_acknowledged();
    assert_eq!(m.get_active_alerts().len(), 2);
    assert_eq!(m.get_alert_history().len(), 1);
    assert_eq!(m.get_alert_history()[0].id, b);
    m.clear_acknowledged();
    assert_eq!(m.get_active_alerts().len(), 2);
    assert_eq!(m.get_alert_history().len(), 1);
}

#[test]
fn acknowledged_alert_moves_on_next_pass() {
    let mut m = AlertManager::new();
    m.update_from_inventory(&[item("A", 1)]);
    let id = m.get_active_alerts()[0].id.clone();
    m.acknowledge_alert(&id);
    let created = m.update_from_inventory(&[]);
    assert!(created.is_empty());
    assert!(m.get_active_alerts().is_empty());
    assert_eq!(m.get_alert_history()[0].id, id);
}

#[test]
fn acknowledge_all_flags_everything() {
    let mut m = AlertManager::new();
    m.update_from_inventory(&[item("A", 0), item("B", 5)]);
    m.acknowledge_all();
    assert_eq!(m.get_unacknowledged_count(), 0);
    assert!(m.get_active_alerts().iter().all(|a| a.acknowledged));
    assert!(m.get_critical_alerts().is_empty());
}

#[test]
fn critical_alerts_are_open_empty_or_critical() {
    let mut m = AlertManager::new();
    m.update_from_inventory(&[item("A", 0), item("B", 5), item("C", 2), item("D", 3)]);
    let crit: Vec<String> = m.get_critical_alerts().iter().map(|a| a.item_id.clone()).collect();
    assert_eq!(crit, vec!["A", "C", "D"]);
    let c = m.get_active_alerts()[2].id.clone();
    m.acknowledge_alert(&c);
    let crit: Vec<String> = m.get_critical_alerts().iter().map(|a| a.item_id.clone()).collect();
    assert_eq!(crit, vec!["A", "D"]);
}

#[test]
fn duplicate_items_in_one_snapshot_open_two_alerts() {
    let mut m = AlertManager::new();
    let created = m.update_from_inventory(&[item("A", 1), item("A", 2)]);
    assert_eq!(created.len(), 2);
    assert_eq!(m.get_active_alerts().len(), 2);
}

#[test]
fn labels_and_icons() {
    assert_eq!(AlertType::OutOfStock.label(), "Out of Stock");
    assert_eq!(AlertType::LowStock.label(), "Low Stock");
    assert_eq!(AlertType::CriticallyLow.label(), "Critically Low");
    assert_eq!(AlertType::OutOfStock.icon(), "\u{1F6AB}");
    assert_eq!(AlertType::LowStock.icon(), "\u{26A0}\u{FE0F}");
    assert_eq!(AlertType::CriticallyLow.icon(), "\u{2757}");
}

#[test]
fn new_alert_snapshots_item() {
    let it = item("Z", 4);
    let a = StockAlert::new(&it, AlertType::LowStock, 10);
    assert_eq!(a.item_id, "Z");
    assert_eq!(a.item_name, "Item Z");
    assert_eq!(a.item_sku, "SKU-Z");
    assert_eq!(a.current_quantity, 4);
    assert!(!a.acknowledged);
    let b = StockAlert::new(&it, AlertType::LowStock, 10);
    assert_ne!(a.id, b.id);
}

#[test]
fn alert_timestamp_text() {
    let mut a = StockAlert::new(&item("A", 1), AlertType::OutOfStock, 0);
    a.created_at = 1_431_648_000;
    assert_eq!(a.formatted_timestamp(), "2015-05-15 00:00");
    a.created_at = i64::MIN;
    assert_eq!(a.formatted_timestamp(), "Unknown");
}

#[test]
fn opened_alert_carries_given_id_and_time() {
    let a = StockAlert::opened(&item("Q", 3), AlertType::CriticallyLow, 3, "alert-1".to_string(), 1_700_000_000);
    assert_eq!(a.id, "alert-1");
    assert_eq!(a.created_at, 1_700_000_000);
    assert_eq!(a.item_id, "Q");
    assert_eq!(a.item_name, "Item Q");
    assert_eq!(a.item_sku, "SKU-Q");
    assert_eq!(a.current_quantity, 3);
    assert_eq!(a.alert_type, AlertType::CriticallyLow);
    assert_eq!(a.threshold, 3);
    assert!(!a.acknowledged);
}
