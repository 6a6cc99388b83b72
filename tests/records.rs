use inventory_app::audit::{AuditAction, AuditEntry, AuditLog, LOG_CAP};
use inventory_app::auth::AuthStore;
use inventory_app::note::Note;
use inventory_app::user::{default_password_hash, UserRole};

fn entry(user: &str, action: AuditAction, entity: Option<&str>, details: &str, ts: i64) -> AuditEntry {
    let mut e = AuditEntry::new(
        format!("id-{}", user),
        user.to_string(),
        action,
        "item".to_string(),
        entity.map(|s| s.to_string()),
        details.to_string(),
    );
    e.timestamp = ts;
    e
}

#[test]
fn audit_entry_fields_and_values() {
    let e = entry("ann", AuditAction::ItemCreated, Some("i1"), "made", 5);
    assert_eq!(e.id.len(), 36);
    assert_eq!(e.username, "ann");
    assert!(e.old_value.is_none() && e.new_value.is_none());
    let e = e.with_values(Some("1".to_string()), Some("2".to_string()));
    assert_eq!(e.old_value.as_deref(), Some("1"));
    assert_eq!(e.new_value.as_deref(), Some("2"));
    assert_eq!(e.username, "ann");
}

#[test]
fn audit_timestamp_text() {
    let e = entry("ann", AuditAction::UserLogin, None, "", 0);
    assert_eq!(e.formatted_timestamp(), "1970-01-01 00:00:00");
    let e = entry("ann", AuditAction::UserLogin, None, "", 1_431_648_000);
    assert_eq!(e.formatted_timestamp(), "2015-05-15 00:00:00");
    let e = entry("ann", AuditAction::UserLogin, None, "", i64::MAX);
    assert_eq!(e.formatted_timestamp(), "Unknown");
}

#[test]
fn audit_filters() {
    let mut log = AuditLog::new();
    log.add_entry(entry("ann", AuditAction::ItemCreated, Some("i1"), "a", 10));
    log.add_entry(entry("bob", AuditAction::ItemDeleted, Some("i2"), "b", 20));
    log.add_entry(entry("ann", AuditAction::ItemDeleted, None, "c", 30));
    log.add_entry(entry("cy", AuditAction::UserLogin, Some("i1"), "d", 40));
    let by_user: Vec<&str> = log.filter_by_user("id-ann").iter().map(|e| e.details.as_str()).collect();
    assert_eq!(by_user, vec!["a", "c"]);
    let by_action: Vec<&str> =
        log.filter_by_action(&AuditAction::ItemDeleted).iter().map(|e| e.details.as_str()).collect();
    assert_eq!(by_action, vec!["b", "c"]);
    let by_entity: Vec<&str> = log.filter_by_entity("i1").iter().map(|e| e.details.as_str()).collect();
    assert_eq!(by_entity, vec!["a", "d"]);
    let by_range: Vec<&str> = log.filter_by_date_range(20, 30).iter().map(|e| e.details.as_str()).collect();
    assert_eq!(by_range, vec!["b", "c"]);
    assert!(log.filter_by_date_range(31, 39).is_empty());
    assert_eq!(log.get_entries().len(), 4);
}

#[test]
fn audit_recent_newest_first() {
    let mut log = AuditLog::new();
    for i in 0..5 {
        log.add_entry(entry("ann", AuditAction::NoteUpdated, None, &i.to_string(), i));
    }
    let recent: Vec<&str> = log.get_recent(3).iter().map(|e| e.details.as_str()).collect();
    assert_eq!(recent, vec!["4", "3", "2"]);
    assert_eq!(log.get_recent(10).len(), 5);
    assert!(log.get_recent(0).is_empty());
}

#[test]
fn audit_log_keeps_the_latest_thousand() {
    let mut log = AuditLog::new();
    for i in 0..(LOG_CAP as i64 + 1) {
        log.add_entry(entry("ann", AuditAction::DataExported, None, &i.to_string(), i));
    }
    assert_eq!(log.get_entries().len(), LOG_CAP);
    assert_eq!(log.get_entries()[0].details, "1");
    assert_eq!(log.get_entries()[LOG_CAP - 1].details, "1000");
}

#[test]
fn audit_csv_export() {
    let mut log = AuditLog::new();
    let mut e = entry("ann", AuditAction::SettingsChanged, None, "a,b,c", 0);
    e.id = "E1".to_string();
    log.add_entry(e);
    let mut e = entry("bob", AuditAction::ItemCreated, Some("i9"), "plain", 1_431_648_000);
    e.id = "E2".to_string();
    log.add_entry(e);
    assert_eq!(
        log.export_to_csv(),
        "ID,Timestamp,User,Action,Entity Type,Entity ID,Details\n\
         E1,1970-01-01 00:00:00,ann,Settings Changed,item,N/A,a;b;c\n\
         E2,2015-05-15 00:00:00,bob,Item Created,item,i9,plain\n"
    );
    assert_eq!(AuditLog::new().export_to_csv(), "ID,Timestamp,User,Action,Entity Type,Entity ID,Details\n");
}

#[test]
fn audit_action_labels() {
    assert_eq!(AuditAction::ItemCreated.label(), "Item Created");
    assert_eq!(AuditAction::UserLogout.label(), "User Logout");
    assert_eq!(AuditAction::DataCleared.label(), "Data Cleared");
}

#[test]
fn role_permissions() {
    let all = [UserRole::Admin, UserRole::Manager, UserRole::User, UserRole::Viewer];
    let table: Vec<(bool, bool, bool, bool, bool, bool)> = all
        .iter()
        .map(|r| (r.can_view(), r.can_create(), r.can_edit(), r.can_delete(), r.can_manage_users(), r.can_view_audit()))
        .collect();
    assert_eq!(
        table,
        vec![
            (true, true, true, true, true, true),
            (true, true, true, true, false, true),
            (true, true, true, false, false, false),
            (true, false, false, false, false, false),
        ]
    );
}

#[test]
fn placeholder_hash_shape() {
    let h = default_password_hash();
    assert!(h.starts_with("$2b$12$"));
    assert_eq!(h.len(), 87);
}

#[test]
fn note_updates_keep_identity() {
    let mut n = Note::new("Title".to_string());
    assert_eq!(n.content, "");
    assert_eq!(n.created_at, n.updated_at);
    let id = n.id.clone();
    n.update_content("body".to_string());
    n.update_title("New".to_string());
    assert_eq!(n.id, id);
    assert_eq!(n.title, "New");
    assert_eq!(n.content, "body");
    assert!(n.updated_at >= n.created_at);
}

#[test]
fn auth_default_admin_logs_in() {
    let mut store = AuthStore::new();
    assert_eq!(store.get_all_users().len(), 1);
    let s = store.authenticate("admin", "admin123").expect("admin login");
    assert_eq!(s.username, "admin");
    assert_eq!(s.role, UserRole::Admin);
    let u = store.get_user(&s.user_id).expect("admin exists");
    assert!(u.last_login.is_some());
}

#[test]
fn auth_wrong_password_is_refused() {
    let mut store = AuthStore::new();
    assert!(store.authenticate("admin", "nope").is_none());
    assert!(store.get_all_users()[0].last_login.is_none());
}

#[test]
fn auth_unknown_or_inactive_user_is_refused() {
    let mut store = AuthStore::new();
    assert!(store.authenticate("nobody", "admin123").is_none());
    let id = store.get_all_users()[0].id.clone();
    assert_eq!(store.update_user(&id, UserRole::Admin, false), Ok(()));
    assert!(store.authenticate("admin", "admin123").is_none());
}

#[test]
fn auth_duplicate_username_is_refused() {
    let mut store = AuthStore::new();
    assert_eq!(
        store.add_user("admin".to_string(), "x", UserRole::Viewer).map(|u| u.username),
        Err("Username already exists".to_string())
    );
    assert_eq!(store.get_all_users().len(), 1);
}

#[test]
fn auth_add_user_then_login() {
    let mut store = AuthStore::new();
    let u = store.add_user("eve".to_string(), "pw", UserRole::Viewer).expect("added");
    assert_eq!(u.username, "eve");
    assert_eq!(u.role, UserRole::Viewer);
    assert!(u.active);
    assert_eq!(store.get_all_users().len(), 2);
    assert_eq!(store.get_user(&u.id).map(|x| x.username.clone()), Some("eve".to_string()));
}

#[test]
fn auth_unknown_user_errors() {
    let mut store = AuthStore::new();
    assert_eq!(store.update_user("missing", UserRole::User, true), Err("User not found".to_string()));
    assert_eq!(store.change_password("missing", "x"), Err("User not found".to_string()));
    assert_eq!(store.delete_user("missing"), Err("User not found".to_string()));
    assert!(store.get_user("missing").is_none());
}

#[test]
fn auth_last_admin_cannot_be_deleted() {
    let mut store = AuthStore::new();
    let id = store.get_all_users()[0].id.clone();
    assert_eq!(store.delete_user(&id), Err("Cannot delete the last active admin".to_string()));
    assert_eq!(store.get_all_users().len(), 1);
    assert_eq!(store.update_user(&id, UserRole::Manager, true), Ok(()));
    assert_eq!(store.delete_user(&id), Ok(()));
    assert!(store.get_all_users().is_empty());
}

#[test]
fn auth_change_password() {
    let mut store = AuthStore::new();
    let id = store.get_all_users()[0].id.clone();
    let before = store.get_all_users()[0].password_hash.clone();
    assert_eq!(store.change_password(&id, "fresh"), Ok(()));
    assert_ne!(store.get_all_users()[0].password_hash, before);
}

use inventory_app::user::{Session, User};

#[test]
fn audit_entry_recorded_with_given_id_and_time() {
    let e = AuditEntry::recorded(
        "E9".to_string(),
        42,
        "u1".to_string(),
        "ann".to_string(),
        AuditAction::NoteDeleted,
        "note".to_string(),
        Some("n1".to_string()),
        "gone".to_string(),
    );
    assert_eq!(e.id, "E9");
    assert_eq!(e.timestamp, 42);
    assert_eq!(e.entity_id.as_deref(), Some("n1"));
    assert!(e.old_value.is_none());
}

#[test]
fn note_with_given_times() {
    let mut n = Note::created("n1".to_string(), "T".to_string(), 100);
    assert_eq!((n.id.as_str(), n.created_at, n.updated_at), ("n1", 100, 100));
    n.set_title("U".to_string(), 150);
    assert_eq!((n.title.as_str(), n.updated_at, n.created_at), ("U", 150, 100));
    n.set_content("body".to_string(), 175);
    assert_eq!((n.content.as_str(), n.updated_at), ("body", 175));
}

#[test]
fn user_parts_login_and_session() {
    let mut u = User::from_parts("u1".to_string(), "ann".to_string(), default_password_hash(), UserRole::Manager, 10);
    assert!(u.active);
    assert!(u.last_login.is_none());
    assert!(!u.verify_password("anything"));
    u.record_login(99);
    assert_eq!(u.last_login, Some(99));
    let s = Session::started(&u, 99);
    assert_eq!((s.user_id.as_str(), s.username.as_str(), s.role, s.login_time), ("u1", "ann", UserRole::Manager, 99));
}

#[test]
fn auth_new_user_password_verifies() {
    let mut store = AuthStore::new();
    let u = store.add_user("eve".to_string(), "secret", UserRole::User).expect("added");
    assert!(u.verify_password("secret"));
    assert!(store.authenticate("eve", "secret").is_some());
}

#[test]
fn auth_changed_password_verifies() {
    let mut store = AuthStore::new();
    let id = store.get_all_users()[0].id.clone();
    assert_eq!(store.change_password(&id, "fresh"), Ok(()));
    assert!(store.get_user(&id).unwrap().verify_password("fresh"));
    assert!(!store.get_user(&id).unwrap().verify_password("admin123"));
}
