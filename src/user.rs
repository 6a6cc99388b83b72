//! Users, their roles and login sessions.
use vstd::prelude::*;
use vstd::string::StringExecFns;
use crate::support::{new_id, unix_now};
use crate::password::{bcrypt_verdict, check_password, hash_password};

verus! {

/// What a user may do.
#[derive(Debug, Clone, Copy, PartialEq, Eq, Structural)]
pub enum UserRole {
    Admin,
    Manager,
    User,
    Viewer,
}

impl UserRole {
    /// Every role may view the inventory.
    pub fn can_view(&self) -> (r: bool)
        ensures
            r,
    {
        true
    }

    /// Admins, managers and users may create records.
    pub fn can_create(&self) -> (r: bool)
        ensures
            r == (*self != UserRole::Viewer),
    {
        match self {
            UserRole::Admin | UserRole::Manager | UserRole::User => true,
            UserRole::Viewer => false,
        }
    }

    /// Admins, managers and users may edit records.
    pub fn can_edit(&self) -> (r: bool)
        ensures
            r == (*self != UserRole::Viewer),
    {
        match self {
            UserRole::Admin | UserRole::Manager | UserRole::User => true,
            UserRole::Viewer => false,
        }
    }

    /// Admins and managers may delete records.
    pub fn can_delete(&self) -> (r: bool)
        ensures
            r == (*self == UserRole::Admin || *self == UserRole::Manager),
    {
        match self {
            UserRole::Admin | UserRole::Manager => true,
            UserRole::User | UserRole::Viewer => false,
        }
    }

    /// Only admins may manage users.
    pub fn can_manage_users(&self) -> (r: bool)
        ensures
            r == (*self == UserRole::Admin),
    {
        match self {
            UserRole::Admin => true,
            _ => false,
        }
    }

    /// Admins and managers may read the audit log.
    pub fn can_view_audit(&self) -> (r: bool)
        ensures
            r == (*self == UserRole::Admin || *self == UserRole::Manager),
    {
        match self {
            UserRole::Admin | UserRole::Manager => true,
            UserRole::User | UserRole::Viewer => false,
        }
    }
}

/// The stand-in hash of a user record that came without one; no password
/// matches it, so such a user must have the password reset.
pub open spec fn placeholder_hash() -> Seq<char> {
    "$2b$12$XXXXXXXXXXXXXXXXXXXXXXXXXXXXXXXXXXXXXXXXXXXXXXXXXXXXXXXXXXXXXXXXXXXXXXXXXXXXXXXX"@
}

/// The stand-in hash of a user record that came without one.
pub fn default_password_hash() -> (r: String)
    ensures
        r@ == placeholder_hash(),
{
    "$2b$12$XXXXXXXXXXXXXXXXXXXXXXXXXXXXXXXXXXXXXXXXXXXXXXXXXXXXXXXXXXXXXXXXXXXXXXXXXXXXXXXX".to_string()
}

/// An account.
#[derive(Debug, Clone)]
pub struct User {
    pub id: String,
    pub username: String,
    pub password_hash: String,
    pub role: UserRole,
    pub created_at: i64,
    pub last_login: Option<i64>,
    pub active: bool,
}

/// Mathematical value of a [`User`].
pub struct UserView {
    pub id: Seq<char>,
    pub username: Seq<char>,
    pub password_hash: Seq<char>,
    pub role: UserRole,
    pub created_at: i64,
    pub last_login: Option<i64>,
    pub active: bool,
}

impl View for User {
    type V = UserView;

    open spec fn view(&self) -> UserView {
        UserView {
            id: self.id@,
            username: self.username@,
            password_hash: self.password_hash@,
            role: self.role,
            created_at: self.created_at,
            last_login: self.last_login,
            active: self.active,
        }
    }
}

impl User {
    /// An active user that has never logged in, from its parts.
    pub fn from_parts(id: String, username: String, password_hash: String, role: UserRole, created_at: i64) -> (r: User)
        ensures
            r@ == (UserView {
                id: id@,
                username: username@,
                password_hash: password_hash@,
                role,
                created_at,
                last_login: None,
                active: true,
            }),
    {
        User { id, username, password_hash, role, created_at, last_login: None, active: true }
    }

    /// A new active user with a fresh id and a hash of `password`, created
    /// now; fails only where hashing fails.
    pub fn new(username: String, password: &str, role: UserRole) -> (r: Result<User, bcrypt::BcryptError>)
        ensures
            r matches Ok(u) ==> {
                &&& u@.username == username@
                &&& u@.role == role
                &&& u@.last_login is None
                &&& u@.active
                &&& u@.id.len() == 36
                &&& bcrypt_verdict(password@, u@.password_hash) == Some(true)
            },
    {
        let password_hash = match hash_password(password) {
            Ok(h) => h,
            Err(e) => return Err(e),
        };
        let now = unix_now();
        let id = new_id();
        Ok(User::from_parts(id, username, password_hash, role, now))
    }

    /// A field-by-field copy.
    pub fn copied(&self) -> (r: User)
        ensures
            r@ == self@,
    {
        User {
            id: self.id.clone(),
            username: self.username.clone(),
            password_hash: self.password_hash.clone(),
            role: self.role,
            created_at: self.created_at,
            last_login: self.last_login,
            active: self.active,
        }
    }

    /// Whether `password` matches the stored hash; an unreadable hash
    /// matches nothing.
    pub fn verify_password(&self, password: &str) -> (r: bool)
        ensures
            r == (bcrypt_verdict(password@, self.password_hash@) == Some(true)),
    {
        match check_password(password, self.password_hash.as_str()) {
            Ok(b) => b,
            Err(_) => false,
        }
    }

    /// Records a login at time `at`.
    pub fn record_login(&mut self, at: i64)
        ensures
            final(self)@ == (UserView { last_login: Some(at), ..old(self)@ }),
    {
        self.last_login = Some(at);
    }

    /// Records a login now.
    pub fn update_last_login(&mut self)
        ensures
            final(self)@.last_login is Some,
            final(self)@ == (UserView { last_login: final(self)@.last_login, ..old(self)@ }),
    {
        self.record_login(unix_now());
    }

    /// Replaces the password; on failure of hashing the user is unchanged.
    pub fn change_password(&mut self, new_password: &str) -> (r: Result<(), bcrypt::BcryptError>)
        ensures
            final(self)@ == (UserView { password_hash: final(self)@.password_hash, ..old(self)@ }),
            r is Err ==> final(self)@ == old(self)@,
            r is Ok ==> bcrypt_verdict(new_password@, final(self)@.password_hash) == Some(true),
    {
        match hash_password(new_password) {
            Ok(h) => {
                self.password_hash = h;
                Ok(())
            },
            Err(e) => Err(e),
        }
    }
}

/// A logged-in user.
#[derive(Debug, Clone)]
pub struct Session {
    pub user_id: String,
    pub username: String,
    pub role: UserRole,
    pub login_time: i64,
}

impl Session {
    /// A session for `user` that started at `login_time`.
    pub fn started(user: &User, login_time: i64) -> (r: Session)
        ensures
            r.user_id@ == user.id@,
            r.username@ == user.username@,
            r.role == user.role,
            r.login_time == login_time,
    {
        Session { user_id: user.id.clone(), username: user.username.clone(), role: user.role, login_time }
    }

    /// A session for `user` that starts now.
    pub fn new(user: &User) -> (r: Session)
        ensures
            r.user_id@ == user.id@,
            r.username@ == user.username@,
            r.role == user.role,
    {
        Session::started(user, unix_now())
    }
}

} // verus!
