//! The user accounts and the rules around logging in and managing them.
use vstd::prelude::*;
use vstd::string::StringExecFns;
use crate::password::{bcrypt_verdict, error_text};
use crate::user::{Session, User, UserRole, UserView};

verus! {

/// The views of a sequence of users.
pub open spec fn user_views(s: Seq<User>) -> Seq<UserView> {
    s.map_values(|u: User| u@)
}

/// The views of a sequence of borrowed users.
pub open spec fn user_ref_views(s: Seq<&User>) -> Seq<UserView> {
    s.map_values(|u: &User| u@)
}

/// No two users share an id.
pub open spec fn ids_unique(users: Seq<UserView>) -> bool {
    forall|i: int, j: int| 0 <= i < j < users.len() ==> (#[trigger] users[i]).id != (#[trigger] users[j]).id
}

/// Some user has id `id`.
pub open spec fn has_user(users: Seq<UserView>, id: Seq<char>) -> bool {
    exists|i: int| 0 <= i < users.len() && (#[trigger] users[i]).id == id
}

/// Some user is named `name`.
pub open spec fn has_username(users: Seq<UserView>, name: Seq<char>) -> bool {
    exists|i: int| 0 <= i < users.len() && (#[trigger] users[i]).username == name
}

/// `users` with `u` stored under its id: it replaces the user with that id,
/// or joins at the end.
pub open spec fn store_user(users: Seq<UserView>, u: UserView) -> Seq<UserView> {
    if has_user(users, u.id) {
        Seq::new(users.len(), |i: int| if users[i].id == u.id { u } else { users[i] })
    } else {
        users.push(u)
    }
}

/// The user at `j` is the first active user named `name`.
pub open spec fn login_target(users: Seq<UserView>, name: Seq<char>, j: int) -> bool {
    &&& 0 <= j < users.len()
    &&& users[j].username == name
    &&& users[j].active
    &&& forall|k: int| 0 <= k < j ==> !((#[trigger] users[k]).username == name && users[k].active)
}

/// The active admins, in order.
pub open spec fn active_admins(users: Seq<UserView>) -> Seq<UserView>
    decreases users.len(),
{
    if users.len() == 0 {
        users
    } else if users.last().role == UserRole::Admin && users.last().active {
        active_admins(users.drop_last()).push(users.last())
    } else {
        active_admins(users.drop_last())
    }
}

/// Deleting the user `id` would leave no active admin.
pub open spec fn is_last_admin(users: Seq<UserView>, id: Seq<char>) -> bool {
    active_admins(users).len() == 1 && active_admins(users)[0].id == id
}

/// The accounts, each under its own id.
#[derive(Debug, Clone)]
pub struct AuthStore {
    users: Vec<User>,
}

impl View for AuthStore {
    type V = Seq<UserView>;

    closed spec fn view(&self) -> Seq<UserView> {
        user_views(self.users@)
    }
}

impl Default for AuthStore {
    fn default() -> (r: AuthStore)
        ensures
            ids_unique(r@),
            r@.len() <= 1,
            r@.len() == 1 ==> r@[0].username == "admin"@ && r@[0].role == UserRole::Admin && r@[0].active,
    {
        AuthStore::new()
    }
}

impl AuthStore {
    /// Position of the user with id `user_id`.
    fn index_of(&self, user_id: &String) -> (r: Option<usize>)
        requires
            ids_unique(self@),
        ensures
            match r {
                Some(k) => k < self@.len() && self@[k as int].id == user_id@,
                None => !has_user(self@, user_id@),
            },
    {
        let mut k: usize = 0;
        while k < self.users.len()
            invariant
                k <= self@.len(),
                forall|j: int| 0 <= j < k ==> (#[trigger] self@[j]).id != user_id@,
            decreases self@.len() - k,
        {
            if self.users[k].id == *user_id {
                return Some(k);
            }
            k += 1;
        }
        None
    }

    /// A store holding one active admin, `admin`, with password `admin123`;
    /// empty where hashing fails.
    pub fn new() -> (r: AuthStore)
        ensures
            ids_unique(r@),
            r@.len() <= 1,
            r@.len() == 1 ==> r@[0].username == "admin"@ && r@[0].role == UserRole::Admin && r@[0].active,
    {
        let mut users: Vec<User> = Vec::new();
        match User::new("admin".to_string(), "admin123", UserRole::Admin) {
            Ok(admin) => users.push(admin),
            Err(_) => {},
        }
        let r = AuthStore { users };
        proof {
            if r.users@.len() == 1 {
                assert(r@[0] == r.users@[0]@);
            }
        }
        r
    }

    /// Logs in the first active user named `username` when `password`
    /// matches, recording the login; otherwise nothing changes.
    pub fn authenticate(&mut self, username: &str, password: &str) -> (r: Option<Session>)
        requires
            ids_unique(old(self)@),
        ensures
            ids_unique(final(self)@),
            (forall|j: int| !login_target(old(self)@, username@, j)) ==> r is None && final(self)@ == old(self)@,
            forall|j: int| #[trigger] login_target(old(self)@, username@, j) ==> {
                if bcrypt_verdict(password@, old(self)@[j].password_hash) == Some(true) {
                    &&& (r matches Some(s) && s.user_id@ == old(self)@[j].id && s.username@ == username@
                        && s.role == old(self)@[j].role)
                    &&& final(self)@ == old(self)@.update(j, UserView { last_login: final(self)@[j].last_login, ..old(self)@[j] })
                    &&& final(self)@[j].last_login is Some
                } else {
                    r is None && final(self)@ == old(self)@
                }
            },
    {
        let ghost pre = self@;
        let name = username.to_string();
        let mut k: usize = 0;
        while k < self.users.len()
            invariant
                name@ == username@,
                pre == old(self)@,
                ids_unique(pre),
                self@ == pre,
                k <= pre.len(),
                forall|j: int| 0 <= j < k ==> !((#[trigger] pre[j]).username == username@ && pre[j].active),
            decreases pre.len() - k,
        {
            if self.users[k].username == name && self.users[k].active {
                assert(login_target(pre, username@, k as int));
                assert forall|j: int| #[trigger] login_target(pre, username@, j) implies j == k by {
                    if j < k {
                        assert(!(pre[j].username == username@ && pre[j].active));
                    } else if j > k {
                        assert(!(pre[k as int].username == username@ && pre[k as int].active));
                    }
                }
                if self.users[k].verify_password(password) {
                    let ghost old_vec = self.users@;
                    self.users[k].update_last_login();
                    let s = Session::new(&self.users[k]);
                    proof {
                        assert(self.users@ == old_vec.update(k as int, self.users@[k as int]));
                        assert(self@ =~= pre.update(k as int, UserView { last_login: self@[k as int].last_login, ..pre[k as int] }));
                        assert forall|a: int, b: int| 0 <= a < b < self@.len() implies
                            (#[trigger] self@[a]).id != (#[trigger] self@[b]).id by {
                            assert(pre[a].id != pre[b].id);
                        }
                    }
                    return Some(s);
                } else {
                    return None;
                }
            }
            k += 1;
        }
        None
    }

    /// Adds an active user; fails when the name is taken or hashing fails.
    pub fn add_user(&mut self, username: String, password: &str, role: UserRole) -> (r: Result<User, String>)
        requires
            ids_unique(old(self)@),
        ensures
            ids_unique(final(self)@),
            has_username(old(self)@, username@) ==> (r matches Err(m) && m@ == "Username already exists"@
                && final(self)@ == old(self)@),
            !has_username(old(self)@, username@) ==> match r {
                Ok(u) => {
                    &&& u@.username == username@
                    &&& u@.role == role
                    &&& u@.active
                    &&& u@.last_login is None
                    &&& bcrypt_verdict(password@, u@.password_hash) == Some(true)
                    &&& final(self)@ == store_user(old(self)@, u@)
                },
                Err(m) => {
                    &&& final(self)@ == old(self)@
                    &&& m@.len() >= "Failed to create user: "@.len()
                    &&& m@.subrange(0, "Failed to create user: "@.len() as int) == "Failed to create user: "@
                },
            },
    {
        let ghost pre = self@;
        let mut k: usize = 0;
        while k < self.users.len()
            invariant
                pre == old(self)@,
                ids_unique(pre),
                self@ == pre,
                k <= pre.len(),
                forall|j: int| 0 <= j < k ==> (#[trigger] pre[j]).username != username@,
            decreases pre.len() - k,
        {
            if self.users[k].username == username {
                assert(pre[k as int].username == username@);
                return Err("Username already exists".to_string());
            }
            k += 1;
        }
        let user = match User::new(username, password, role) {
            Ok(u) => u,
            Err(e) => {
                let mut m = "Failed to create user: ".to_string();
                let detail = error_text(&e);
                m.append(detail.as_str());
                assert(m@.subrange(0, "Failed to create user: "@.len() as int) =~= "Failed to create user: "@);
                return Err(m);
            },
        };
        let stored = user.copied();
        match self.index_of(&user.id) {
            Some(i) => {
                self.users.set(i, stored);
                proof {
                    assert forall|a: int| 0 <= a < pre.len() && a != i implies (#[trigger] pre[a]).id != user@.id by {
                        if a < i {
                            assert(pre[a].id != pre[i as int].id);
                        } else {
                            assert(pre[i as int].id != pre[a].id);
                        }
                    }
                    assert(self@ =~= store_user(pre, user@));
                }
            },
            None => {
                self.users.push(stored);
                proof {
                    assert(self@ =~= store_user(pre, user@));
                    assert forall|a: int, b: int| 0 <= a < b < self@.len() implies
                        (#[trigger] self@[a]).id != (#[trigger] self@[b]).id by {
                        if b < pre.len() {
                            assert(pre[a].id != pre[b].id);
                        } else {
                            assert(pre[a].id != user@.id);
                        }
                    }
                }
            },
        }
        Ok(user)
    }

    /// The user with id `user_id`, if any.
    pub fn get_user(&self, user_id: &str) -> (r: Option<&User>)
        requires
            ids_unique(self@),
        ensures
            r is None <==> !has_user(self@, user_id@),
            r matches Some(u) ==> u@.id == user_id@ && self@.contains(u@),
    {
        match self.index_of(&user_id.to_string()) {
            Some(k) => {
                assert(self@[k as int] == self.users@[k as int]@);
                Some(&self.users[k])
            },
            None => None,
        }
    }

    /// All users.
    pub fn get_all_users(&self) -> (r: Vec<&User>)
        ensures
            user_ref_views(r@) == self@,
    {
        let ghost all = self@;
        let mut r: Vec<&User> = Vec::new();
        let mut k: usize = 0;
        while k < self.users.len()
            invariant
                k <= all.len(),
                all == self@,
                user_ref_views(r@) == all.take(k as int),
            decreases all.len() - k,
        {
            let ghost before = r@;
            r.push(&self.users[k]);
            assert(user_ref_views(r@) =~= user_ref_views(before).push(all[k as int]));
            assert(user_ref_views(r@) =~= all.take(k + 1));
            k += 1;
        }
        assert(all.take(k as int) =~= all);
        r
    }

    /// Sets the role and active flag of the user `user_id`.
    pub fn update_user(&mut self, user_id: &str, role: UserRole, active: bool) -> (r: Result<(), String>)
        requires
            ids_unique(old(self)@),
        ensures
            ids_unique(final(self)@),
            !has_user(old(self)@, user_id@) ==> (r matches Err(m) && m@ == "User not found"@ && final(self)@ == old(self)@),
            has_user(old(self)@, user_id@) ==> r is Ok && final(self)@.len() == old(self)@.len() && forall|i: int|
                0 <= i < old(self)@.len() ==> #[trigger] final(self)@[i] == if old(self)@[i].id == user_id@ {
                    UserView { role, active, ..old(self)@[i] }
                } else {
                    old(self)@[i]
                },
    {
        let ghost pre = self@;
        match self.index_of(&user_id.to_string()) {
            Some(k) => {
                self.users[k].role = role;
                self.users[k].active = active;
                proof {
                    assert forall|i: int| 0 <= i < pre.len() implies #[trigger] self@[i] == if pre[i].id == user_id@ {
                        UserView { role, active, ..pre[i] }
                    } else {
                        pre[i]
                    } by {
                        if i != k && pre[i].id == user_id@ {
                            if i < k {
                                assert(pre[i].id != pre[k as int].id);
                            } else {
                                assert(pre[k as int].id != pre[i].id);
                            }
                        }
                    }
                    assert forall|a: int, b: int| 0 <= a < b < self@.len() implies
                        (#[trigger] self@[a]).id != (#[trigger] self@[b]).id by {
                        assert(pre[a].id != pre[b].id);
                    }
                }
                Ok(())
            },
            None => Err("User not found".to_string()),
        }
    }

    /// Replaces the password of the user `user_id`; fails when there is no
    /// such user or hashing fails, and then nothing changes.
    pub fn change_password(&mut self, user_id: &str, new_password: &str) -> (r: Result<(), String>)
        requires
            ids_unique(old(self)@),
        ensures
            ids_unique(final(self)@),
            !has_user(old(self)@, user_id@) ==> (r matches Err(m) && m@ == "User not found"@ && final(self)@ == old(self)@),
            r is Err ==> final(self)@ == old(self)@,
            r is Ok ==> forall|i: int| 0 <= i < old(self)@.len() && (#[trigger] old(self)@[i]).id == user_id@
                ==> bcrypt_verdict(new_password@, final(self)@[i].password_hash) == Some(true),
            final(self)@.len() == old(self)@.len(),
            forall|i: int| 0 <= i < old(self)@.len() ==> #[trigger] final(self)@[i] == if old(self)@[i].id == user_id@ {
                UserView { password_hash: final(self)@[i].password_hash, ..old(self)@[i] }
            } else {
                old(self)@[i]
            },
    {
        let ghost pre = self@;
        match self.index_of(&user_id.to_string()) {
            Some(k) => {
                let ghost old_vec = self.users@;
                let res = self.users[k].change_password(new_password);
                proof {
                    assert forall|i: int| 0 <= i < pre.len() implies #[trigger] self@[i] == if pre[i].id == user_id@ {
                        UserView { password_hash: self@[i].password_hash, ..pre[i] }
                    } else {
                        pre[i]
                    } by {
                        if i != k {
                            assert(self.users@[i] == old_vec[i]);
                            if pre[i].id == user_id@ {
                                if i < k {
                                    assert(pre[i].id != pre[k as int].id);
                                } else {
                                    assert(pre[k as int].id != pre[i].id);
                                }
                            }
                        }
                    }
                    assert forall|a: int, b: int| 0 <= a < b < self@.len() implies
                        (#[trigger] self@[a]).id != (#[trigger] self@[b]).id by {
                        assert(pre[a].id != pre[b].id);
                    }
                }
                match res {
                    Ok(()) => {
                        proof {
                            assert forall|i: int| 0 <= i < pre.len() && (#[trigger] pre[i]).id == user_id@
                                implies bcrypt_verdict(new_password@, self@[i].password_hash) == Some(true) by {
                                if i != k {
                                    if i < k {
                                        assert(pre[i].id != pre[k as int].id);
                                    } else {
                                        assert(pre[k as int].id != pre[i].id);
                                    }
                                }
                            }
                        }
                        Ok(())
                    },
                    Err(e) => {
                        assert(self@ =~= pre);
                        let mut m = "Failed to change password: ".to_string();
                        let detail = error_text(&e);
                        m.append(detail.as_str());
                        Err(m)
                    },
                }
            },
            None => Err("User not found".to_string()),
        }
    }

    /// Removes the user `user_id`, unless that user is the only active admin.
    pub fn delete_user(&mut self, user_id: &str) -> (r: Result<(), String>)
        requires
            ids_unique(old(self)@),
        ensures
            ids_unique(final(self)@),
            is_last_admin(old(self)@, user_id@) ==> (r matches Err(m) && m@ == "Cannot delete the last active admin"@
                && final(self)@ == old(self)@),
            !is_last_admin(old(self)@, user_id@) && !has_user(old(self)@, user_id@) ==> (r matches Err(m)
                && m@ == "User not found"@ && final(self)@ == old(self)@),
            !is_last_admin(old(self)@, user_id@) && has_user(old(self)@, user_id@) ==> r is Ok && forall|j: int|
                0 <= j < old(self)@.len() && #[trigger] old(self)@[j].id == user_id@ ==> final(self)@ == old(self)@.remove(j),
    {
        let ghost pre = self@;
        let id = user_id.to_string();
        let mut admins: usize = 0;
        let mut admin_index: usize = 0;
        let mut k: usize = 0;
        while k < self.users.len()
            invariant
                pre == old(self)@,
                ids_unique(pre),
                self@ == pre,
                k <= pre.len(),
                admins as int == active_admins(pre.take(k as int)).len(),
                admins <= k,
                admins >= 1 ==> admin_index < k && active_admins(pre.take(k as int))[0] == pre[admin_index as int],
            decreases pre.len() - k,
        {
            assert(pre.take(k + 1).drop_last() =~= pre.take(k as int));
            assert(pre.take(k + 1).last() == pre[k as int]);
            let u = &self.users[k];
            let admin = match u.role {
                UserRole::Admin => true,
                _ => false,
            };
            if admin && u.active {
                if admins == 0 {
                    admin_index = k;
                }
                admins += 1;
            }
            k += 1;
        }
        assert(pre.take(k as int) =~= pre);
        if admins == 1 && self.users[admin_index].id == id {
            return Err("Cannot delete the last active admin".to_string());
        }
        match self.index_of(&id) {
            Some(i) => {
                self.users.remove(i);
                proof {
                    assert(self@ =~= pre.remove(i as int));
                    assert forall|j: int| 0 <= j < pre.len() && #[trigger] pre[j].id == user_id@ implies j == i by {
                        if j < i {
                            assert(pre[j].id != pre[i as int].id);
                        } else if j > i {
                            assert(pre[i as int].id != pre[j].id);
                        }
                    }
                    assert forall|a: int, b: int| 0 <= a < b < self@.len() implies
                        (#[trigger] self@[a]).id != (#[trigger] self@[b]).id by {
                        if b < i {
                            assert(pre[a].id != pre[b].id);
                        } else if a < i {
                            assert(pre[a].id != pre[b + 1].id);
                        } else {
                            assert(pre[a + 1].id != pre[b + 1].id);
                        }
                    }
                }
                Ok(())
            },
            None => Err("User not found".to_string()),
        }
    }
}

} // verus!
