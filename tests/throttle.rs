use inventory_app::alerts::{AlertManager, StockItem};
use inventory_app::text::decimal_string;
use inventory_app::throttle::{throttle_window_ms, NotificationThrottle};

#[test]
fn throttle_within_window_swallows() {
    let mut t = NotificationThrottle::new();
    let window = throttle_window_ms(30);
    assert_eq!(window, 30_000);
    assert!(t.should_send("alert:x", window, 5_000));
    assert!(!t.should_send("alert:x", window, 15_000));
}

#[test]
fn throttle_after_window_sends_again() {
    let mut t = NotificationThrottle::new();
    let window = throttle_window_ms(30);
    assert!(t.should_send("alert:x", window, 5_000));
    assert!(t.should_send("alert:x", window, 36_000));
}

#[test]
fn throttle_window_boundary_and_keys() {
    let mut t = NotificationThrottle::new();
    assert!(t.should_send("a", 1_000, 100));
    assert!(t.should_send("b", 1_000, 100));
    assert!(!t.should_send("a", 1_000, 1_099));
    assert!(t.should_send("a", 1_000, 1_100));
    assert!(!t.should_send("a", 1_000, 50));
}

#[test]
fn throttle_window_is_clamped() {
    assert_eq!(throttle_window_ms(0), 1_000);
    assert_eq!(throttle_window_ms(1), 1_000);
    assert_eq!(throttle_window_ms(86_400), 86_400_000);
    assert_eq!(throttle_window_ms(86_401), 86_400_000);
    assert_eq!(throttle_window_ms(u32::MAX), 86_400_000);
}

#[test]
fn decimal_rendering() {
    assert_eq!(decimal_string(0), "0");
    assert_eq!(decimal_string(7), "7");
    assert_eq!(decimal_string(10), "10");
    assert_eq!(decimal_string(1234), "1234");
    assert_eq!(decimal_string(u32::MAX), "4294967295");
}

fn opened_alerts() -> Vec<inventory_app::alerts::StockAlert> {
    let mut m = AlertManager::new();
    m.update_from_inventory(&[
        StockItem { id: "w".to_string(), name: "Widget".to_string(), sku: "W-1".to_string(), quantity: 2 },
        StockItem { id: "g".to_string(), name: "Gadget".to_string(), sku: "G-9".to_string(), quantity: 0 },
    ])
}

#[test]
fn notifications_for_new_alerts() {
    let alerts = opened_alerts();
    let mut t = NotificationThrottle::new();
    let out = t.notify_new_alerts(&alerts, true, true, 30_000, 1_000);
    assert_eq!(out.len(), 2);
    assert_eq!(out[0].title, "Critically Low: Widget");
    assert_eq!(out[0].body, "SKU: W-1 | Qty: 2");
    assert_eq!(out[1].title, "Out of Stock: Gadget");
    assert_eq!(out[1].body, "SKU: G-9 | Qty: 0");
    let again = t.notify_new_alerts(&alerts, true, true, 30_000, 2_000);
    assert!(again.is_empty());
    assert!(!t.should_send(&format!("alert:{}", alerts[0].id), 30_000, 3_000));
}

#[test]
fn notifications_gated_off_record_nothing() {
    let alerts = opened_alerts();
    let mut t = NotificationThrottle::new();
    assert!(t.notify_new_alerts(&alerts, false, true, 30_000, 1_000).is_empty());
    assert!(t.notify_new_alerts(&alerts, true, false, 30_000, 1_000).is_empty());
    let out = t.notify_new_alerts(&alerts, true, true, 30_000, 1_000);
    assert_eq!(out.len(), 2);
}
