//! A bounded log of user actions, with queries and CSV export.
use vstd::prelude::*;
use vstd::string::StringExecFns;
use crate::support::{format_utc_seconds, new_id, unix_now, utc_seconds_text};
use crate::text::{replace_all, substitute};

verus! {

/// Highest number of entries the log keeps.
pub const LOG_CAP: usize = 1000;

/// What was done.
#[derive(Debug, Clone, Copy, PartialEq, Eq, Structural)]
pub enum AuditAction {
    ItemCreated,
    ItemUpdated,
    ItemDeleted,
    NoteCreated,
    NoteUpdated,
    NoteDeleted,
    UserLogin,
    UserLogout,
    UserCreated,
    UserUpdated,
    UserDeleted,
    SettingsChanged,
    DataExported,
    DataImported,
    DataCleared,
}

impl AuditAction {
    /// Human-readable name of the action.
    pub open spec fn label_spec(self) -> Seq<char> {
        match self {
            AuditAction::ItemCreated => "Item Created"@,
            AuditAction::ItemUpdated => "Item Updated"@,
            AuditAction::ItemDeleted => "Item Deleted"@,
            AuditAction::NoteCreated => "Note Created"@,
            AuditAction::NoteUpdated => "Note Updated"@,
            AuditAction::NoteDeleted => "Note Deleted"@,
            AuditAction::UserLogin => "User Login"@,
            AuditAction::UserLogout => "User Logout"@,
            AuditAction::UserCreated => "User Created"@,
            AuditAction::UserUpdated => "User Updated"@,
            AuditAction::UserDeleted => "User Deleted"@,
            AuditAction::SettingsChanged => "Settings Changed"@,
            AuditAction::DataExported => "Data Exported"@,
            AuditAction::DataImported => "Data Imported"@,
            AuditAction::DataCleared => "Data Cleared"@,
        }
    }

    /// Human-readable name of the action.
    pub fn label(&self) -> (r: String)
        ensures
            r@ == self.label_spec(),
    {
        match self {
            AuditAction::ItemCreated => "Item Created".to_string(),
            AuditAction::ItemUpdated => "Item Updated".to_string(),
            AuditAction::ItemDeleted => "Item Deleted".to_string(),
            AuditAction::NoteCreated => "Note Created".to_string(),
            AuditAction::NoteUpdated => "Note Updated".to_string(),
            AuditAction::NoteDeleted => "Note Deleted".to_string(),
            AuditAction::UserLogin => "User Login".to_string(),
            AuditAction::UserLogout => "User Logout".to_string(),
            AuditAction::UserCreated => "User Created".to_string(),
            AuditAction::UserUpdated => "User Updated".to_string(),
            AuditAction::UserDeleted => "User Deleted".to_string(),
            AuditAction::SettingsChanged => "Settings Changed".to_string(),
            AuditAction::DataExported => "Data Exported".to_string(),
            AuditAction::DataImported => "Data Imported".to_string(),
            AuditAction::DataCleared => "Data Cleared".to_string(),
        }
    }
}

/// One logged action.
#[derive(Debug, Clone)]
pub struct AuditEntry {
    pub id: String,
    pub timestamp: i64,
    pub user_id: String,
    pub username: String,
    pub action: AuditAction,
    pub entity_type: String,
    pub entity_id: Option<String>,
    pub details: String,
    pub old_value: Option<String>,
    pub new_value: Option<String>,
}

/// Mathematical value of an [`AuditEntry`].
pub struct AuditEntryView {
    pub id: Seq<char>,
    pub timestamp: i64,
    pub user_id: Seq<char>,
    pub username: Seq<char>,
    pub action: AuditAction,
    pub entity_type: Seq<char>,
    pub entity_id: Option<Seq<char>>,
    pub details: Seq<char>,
    pub old_value: Option<Seq<char>>,
    pub new_value: Option<Seq<char>>,
}

/// The view of an optional string.
pub open spec fn opt_view(o: Option<String>) -> Option<Seq<char>> {
    match o {
        Some(s) => Some(s@),
        None => None,
    }
}

impl View for AuditEntry {
    type V = AuditEntryView;

    open spec fn view(&self) -> AuditEntryView {
        AuditEntryView {
            id: self.id@,
            timestamp: self.timestamp,
            user_id: self.user_id@,
            username: self.username@,
            action: self.action,
            entity_type: self.entity_type@,
            entity_id: opt_view(self.entity_id),
            details: self.details@,
            old_value: opt_view(self.old_value),
            new_value: opt_view(self.new_value),
        }
    }
}

/// The views of a sequence of entries.
pub open spec fn entry_views(s: Seq<AuditEntry>) -> Seq<AuditEntryView> {
    s.map_values(|e: AuditEntry| e@)
}

/// The views of a sequence of borrowed entries.
pub open spec fn entry_ref_views(s: Seq<&AuditEntry>) -> Seq<AuditEntryView> {
    s.map_values(|e: &AuditEntry| e@)
}

/// The timestamp as shown to people: its UTC date and time, or `Unknown`.
pub open spec fn shown_time(ts: i64) -> Seq<char> {
    match utc_seconds_text(ts) {
        Some(t) => t,
        None => "Unknown"@,
    }
}

impl AuditEntry {
    /// An entry with the given id and timestamp, without old or new values.
    pub fn recorded(
        id: String,
        timestamp: i64,
        user_id: String,
        username: String,
        action: AuditAction,
        entity_type: String,
        entity_id: Option<String>,
        details: String,
    ) -> (r: AuditEntry)
        ensures
            r@ == (AuditEntryView {
                id: id@,
                timestamp,
                user_id: user_id@,
                username: username@,
                action,
                entity_type: entity_type@,
                entity_id: opt_view(entity_id),
                details: details@,
                old_value: None,
                new_value: None,
            }),
    {
        AuditEntry {
            id,
            timestamp,
            user_id,
            username,
            action,
            entity_type,
            entity_id,
            details,
            old_value: None,
            new_value: None,
        }
    }

    /// A new entry, stamped with a fresh id and the current time, without
    /// old or new values.
    pub fn new(
        user_id: String,
        username: String,
        action: AuditAction,
        entity_type: String,
        entity_id: Option<String>,
        details: String,
    ) -> (r: AuditEntry)
        ensures
            r@.user_id == user_id@,
            r@.username == username@,
            r@.action == action,
            r@.entity_type == entity_type@,
            r@.entity_id == opt_view(entity_id),
            r@.details == details@,
            r@.old_value is None,
            r@.new_value is None,
            r@.id.len() == 36,
    {
        let id = new_id();
        let now = unix_now();
        AuditEntry::recorded(id, now, user_id, username, action, entity_type, entity_id, details)
    }

    /// The entry with its old and new values set.
    pub fn with_values(self, old_value: Option<String>, new_value: Option<String>) -> (r: AuditEntry)
        ensures
            r@ == (AuditEntryView {
                old_value: opt_view(old_value),
                new_value: opt_view(new_value),
                ..self@
            }),
    {
        let mut e = self;
        e.old_value = old_value;
        e.new_value = new_value;
        e
    }

    /// The entry as one CSV line.
    fn csv_line(&self) -> (r: String)
        ensures
            r@ == csv_line(self@),
    {
        let mut line = self.id.clone();
        line.append(",");
        let ts = self.formatted_timestamp();
        line.append(ts.as_str());
        line.append(",");
        line.append(self.username.as_str());
        line.append(",");
        let action = self.action.label();
        line.append(action.as_str());
        line.append(",");
        line.append(self.entity_type.as_str());
        line.append(",");
        match &self.entity_id {
            Some(id) => line.append(id.as_str()),
            None => line.append("N/A"),
        }
        line.append(",");
        let details = replace_all(self.details.as_str(), ',', ";");
        line.append(details.as_str());
        line.append("\n");
        assert(line@ =~= csv_line(self@));
        line
    }

    /// The entry's time in UTC, or `Unknown` when it cannot be represented.
    pub fn formatted_timestamp(&self) -> (r: String)
        ensures
            r@ == shown_time(self.timestamp),
    {
        match format_utc_seconds(self.timestamp) {
            Some(s) => s,
            None => "Unknown".to_string(),
        }
    }
}

/// A condition on log entries.
pub enum QueryView {
    User(Seq<char>),
    Action(AuditAction),
    Entity(Seq<char>),
    Between(i64, i64),
}

/// Whether entry `e` meets `q`: its user, its action, its entity, or a
/// timestamp within the closed range.
pub open spec fn meets(e: AuditEntryView, q: QueryView) -> bool {
    match q {
        QueryView::User(u) => e.user_id == u,
        QueryView::Action(a) => e.action == a,
        QueryView::Entity(id) => e.entity_id == Some(id),
        QueryView::Between(start, end) => start <= e.timestamp <= end,
    }
}

/// The entries of `s` that meet `q`, in order.
pub open spec fn select(s: Seq<AuditEntryView>, q: QueryView) -> Seq<AuditEntryView>
    decreases s.len(),
{
    if s.len() == 0 {
        s
    } else if meets(s.last(), q) {
        select(s.drop_last(), q).push(s.last())
    } else {
        select(s.drop_last(), q)
    }
}

/// The last `count` entries of `s`, newest first.
pub open spec fn recent(s: Seq<AuditEntryView>, count: nat) -> Seq<AuditEntryView> {
    let n = if count < s.len() { count as int } else { s.len() as int };
    Seq::new(n as nat, |i: int| s[s.len() - 1 - i])
}

/// The most recent `LOG_CAP` entries of `s`.
pub open spec fn capped_log(s: Seq<AuditEntryView>) -> Seq<AuditEntryView> {
    if s.len() > LOG_CAP {
        s.subrange(s.len() - LOG_CAP, s.len() as int)
    } else {
        s
    }
}

/// First line of the CSV export.
pub open spec fn csv_header() -> Seq<char> {
    "ID,Timestamp,User,Action,Entity Type,Entity ID,Details\n"@
}

/// One CSV line for an entry; commas in the details become semicolons.
pub open spec fn csv_line(e: AuditEntryView) -> Seq<char> {
    e.id + ","@ + shown_time(e.timestamp) + ","@ + e.username + ","@ + e.action.label_spec() + ","@
        + e.entity_type + ","@ + match e.entity_id {
        Some(id) => id,
        None => "N/A"@,
    } + ","@ + substitute(e.details, ',', ";"@) + "\n"@
}

/// The CSV lines of all entries, in order.
pub open spec fn csv_lines(s: Seq<AuditEntryView>) -> Seq<char>
    decreases s.len(),
{
    if s.len() == 0 {
        Seq::empty()
    } else {
        csv_lines(s.drop_last()) + csv_line(s.last())
    }
}

enum Query {
    User(String),
    Action(AuditAction),
    Entity(String),
    Between(i64, i64),
}

impl View for Query {
    type V = QueryView;

    closed spec fn view(&self) -> QueryView {
        match self {
            Query::User(u) => QueryView::User(u@),
            Query::Action(a) => QueryView::Action(*a),
            Query::Entity(id) => QueryView::Entity(id@),
            Query::Between(start, end) => QueryView::Between(*start, *end),
        }
    }
}

impl Query {
    fn test(&self, e: &AuditEntry) -> (r: bool)
        ensures
            r == meets(e@, self@),
    {
        match self {
            Query::User(u) => e.user_id == *u,
            Query::Action(a) => e.action == *a,
            Query::Entity(id) => match &e.entity_id {
                Some(x) => *x == *id,
                None => false,
            },
            Query::Between(start, end) => *start <= e.timestamp && e.timestamp <= *end,
        }
    }
}

/// The action log, oldest entry first, holding at most `LOG_CAP` entries.
#[derive(Debug, Clone)]
pub struct AuditLog {
    entries: Vec<AuditEntry>,
}

impl View for AuditLog {
    type V = Seq<AuditEntryView>;

    closed spec fn view(&self) -> Seq<AuditEntryView> {
        entry_views(self.entries@)
    }
}

impl Default for AuditLog {
    fn default() -> (r: AuditLog)
        ensures
            r@ == Seq::<AuditEntryView>::empty(),
    {
        AuditLog::new()
    }
}

impl AuditLog {
    /// An empty log.
    pub fn new() -> (r: AuditLog)
        ensures
            r@ == Seq::<AuditEntryView>::empty(),
    {
        let r = AuditLog { entries: Vec::new() };
        assert(r@ =~= Seq::<AuditEntryView>::empty());
        r
    }

    /// Appends `entry`, dropping the oldest entries beyond `LOG_CAP`.
    pub fn add_entry(&mut self, entry: AuditEntry)
        ensures
            final(self)@ == capped_log(old(self)@.push(entry@)),
    {
        let ghost pushed = old(self)@.push(entry@);
        self.entries.push(entry);
        assert(self@ =~= pushed);
        let len = self.entries.len();
        if len > LOG_CAP {
            let tail = self.entries.split_off(len - LOG_CAP);
            self.entries = tail;
            assert(self@ =~= pushed.subrange(len - LOG_CAP, len as int));
        }
    }

    /// All entries, oldest first.
    pub fn get_entries(&self) -> (r: &[AuditEntry])
        ensures
            entry_views(r@) == self@,
    {
        self.entries.as_slice()
    }

    fn select_where(&self, q: &Query) -> (r: Vec<&AuditEntry>)
        ensures
            entry_ref_views(r@) == select(self@, q@),
    {
        let ghost all = self@;
        let mut r: Vec<&AuditEntry> = Vec::new();
        let mut k: usize = 0;
        while k < self.entries.len()
            invariant
                k <= all.len(),
                all == self@,
                entry_ref_views(r@) == select(all.take(k as int), q@),
            decreases all.len() - k,
        {
            assert(all.take(k + 1).drop_last() =~= all.take(k as int));
            let e = &self.entries[k];
            if q.test(e) {
                let ghost before = r@;
                r.push(e);
                assert(entry_ref_views(r@) =~= entry_ref_views(before).push(e@));
            }
            k += 1;
        }
        assert(all.take(k as int) =~= all);
        r
    }

    /// The entries made by user `user_id`, oldest first.
    pub fn filter_by_user(&self, user_id: &str) -> (r: Vec<&AuditEntry>)
        ensures
            entry_ref_views(r@) == select(self@, QueryView::User(user_id@)),
    {
        self.select_where(&Query::User(user_id.to_string()))
    }

    /// The entries of action `action`, oldest first.
    pub fn filter_by_action(&self, action: &AuditAction) -> (r: Vec<&AuditEntry>)
        ensures
            entry_ref_views(r@) == select(self@, QueryView::Action(*action)),
    {
        self.select_where(&Query::Action(*action))
    }

    /// The entries about entity `entity_id`, oldest first.
    pub fn filter_by_entity(&self, entity_id: &str) -> (r: Vec<&AuditEntry>)
        ensures
            entry_ref_views(r@) == select(self@, QueryView::Entity(entity_id@)),
    {
        self.select_where(&Query::Entity(entity_id.to_string()))
    }

    /// The entries stamped from `start` to `end`, both included, oldest first.
    pub fn filter_by_date_range(&self, start: i64, end: i64) -> (r: Vec<&AuditEntry>)
        ensures
            entry_ref_views(r@) == select(self@, QueryView::Between(start, end)),
    {
        self.select_where(&Query::Between(start, end))
    }

    /// The last `count` entries, newest first.
    pub fn get_recent(&self, count: usize) -> (r: Vec<&AuditEntry>)
        ensures
            entry_ref_views(r@) == recent(self@, count as nat),
    {
        let ghost all = self@;
        let len = self.entries.len();
        let start = if len > count { len - count } else { 0 };
        let mut r: Vec<&AuditEntry> = Vec::new();
        let mut k: usize = len;
        while k > start
            invariant
                start <= k <= len,
                len == all.len(),
                all == self@,
                entry_ref_views(r@) =~= recent(all, (len - k) as nat),
            decreases k,
        {
            k -= 1;
            let ghost before = r@;
            r.push(&self.entries[k]);
            assert(entry_ref_views(r@) =~= entry_ref_views(before).push(all[k as int]));
        }
        r
    }

    /// The log as CSV: a header line, then one line per entry, oldest first.
    pub fn export_to_csv(&self) -> (r: String)
        ensures
            r@ == csv_header() + csv_lines(self@),
    {
        let ghost all = self@;
        let mut csv = "ID,Timestamp,User,Action,Entity Type,Entity ID,Details\n".to_string();
        let mut k: usize = 0;
        assert(all.take(0) =~= Seq::<AuditEntryView>::empty());
        assert(csv_header() + csv_lines(all.take(0)) =~= csv_header());
        while k < self.entries.len()
            invariant
                k <= all.len(),
                all == self@,
                csv@ == csv_header() + csv_lines(all.take(k as int)),
            decreases all.len() - k,
        {
            assert(all.take(k + 1).drop_last() =~= all.take(k as int));
            let e = &self.entries[k];
            let ghost before = csv@;
            let line = e.csv_line();
            csv.append(line.as_str());
            assert(csv@ =~= before + csv_line(e@));
            assert(csv@ =~= csv_header() + csv_lines(all.take(k + 1)));
            k += 1;
        }
        assert(all.take(k as int) =~= all);
        csv
    }
}

} // verus!
