//! User rows.  The shared household user is protected: updating or
//! soft-deleting applies only to non-shared users, as in the underlying
//! store's guarded statements.

use crate::error::AppError;
use crate::store::{lemma_ids_ok_push, lemma_store_view, store_model, user_ids, Store, StoreModel};
use crate::types::{CreateUserInput, UpdateUserInput, User};
use vstd::prelude::*;

verus! {

/// Some user row carries this identifier.
pub open spec fn has_user(users: Seq<User>, id: i64) -> bool {
    exists|j: int| 0 <= j < users.len() && (#[trigger] users[j]).id == id
}

/// The row that creating a user from `input` produces.
pub open spec fn created_user_ok(u: User, input: CreateUserInput, id: i64) -> bool {
    &&& u.id == id
    &&& u.name == input.name
    &&& (match input.color {
        Some(c) => u.color == c,
        None => u.color@ == "#3B82F6"@,
    })
    &&& u.avatar == input.avatar
    &&& (match input.role {
        Some(r2) => u.role == r2,
        None => u.role@ == "member"@,
    })
    &&& u.is_shared_user == false
    &&& u.active == true
}

/// The row that updating a non-shared user with `input` leaves behind.
pub open spec fn updated_user_ok(u2: User, u: User, input: UpdateUserInput) -> bool {
    &&& u2.id == u.id
    &&& u2.name == input.name
    &&& u2.color == input.color
    &&& u2.avatar == input.avatar
    &&& u2.role == input.role
    &&& u2.is_shared_user == u.is_shared_user
    &&& u2.active == input.active
}

impl Store {
    /// The index of the user row with this identifier, if any.
    pub(crate) fn find_user_idx(&self, id: i64) -> (r: Option<usize>)
        ensures
            r matches Some(j) ==> j < self@.users.len() && self@.users[j as int].id == id,
            r matches Some(j) ==> j < self.users@.len(),
            r is None ==> !has_user(self@.users, id),
    {
        proof {
            lemma_store_view(*self);
        }
        let n = self.users.len();
        let mut i: usize = 0;
        while i < n
            invariant
                n == self.users.len(),
                0 <= i <= n,
                forall|j: int| 0 <= j < i ==> (#[trigger] self.users@[j]).id != id,
            decreases n - i,
        {
            if self.users[i].id == id {
                proof {
                    lemma_store_view(*self);
                }
                return Some(i);
            }
            i = i + 1;
        }
        proof {
            lemma_store_view(*self);
        }
        None
    }

    /// Create a user row.
    pub fn create_user(&mut self, input: CreateUserInput) -> (r: Result<User, AppError>)
        requires
            old(self)@.wf(),
        ensures
            final(self)@.wf(),
            r is Ok <==> old(self)@.next_id < i64::MAX,
            r matches Ok(u) ==> created_user_ok(u, input, (old(self)@.next_id) as i64)
                && final(self)@ == (StoreModel {
                next_id: old(self)@.next_id + 1,
                users: old(self)@.users.push(u),
                ..old(self)@
            }),
            r is Err ==> final(self)@ == old(self)@ && r->Err_0 is Internal,
    {
        proof {
            lemma_store_view(*old(self));
        }
        if self.next_id == i64::MAX {
            return Err(AppError::Internal("store identifiers exhausted".to_owned()));
        }
        let id = self.next_id;
        self.next_id = self.next_id + 1;
        let row = User {
            id,
            name: input.name,
            color: match input.color {
                Some(c) => c,
                None => "#3B82F6".to_owned(),
            },
            avatar: input.avatar,
            role: match input.role {
                Some(r2) => r2,
                None => "member".to_owned(),
            },
            is_shared_user: false,
            active: true,
        };
        let out = row.clone_row();
        self.users.push(row);
        proof {
            lemma_store_view(*self);
            let m = store_model(*old(self));
            assert(self@ =~= (StoreModel {
                next_id: m.next_id + 1,
                users: m.users.push(out),
                ..m
            }));
            assert(user_ids(m.users.push(out)) =~= user_ids(m.users).push(id));
            lemma_ids_ok_push(user_ids(m.users), m.next_id);
        }
        Ok(out)
    }

    /// Look up a user row by identifier.
    pub fn get_user_by_id(&self, id: i64) -> (r: Result<User, AppError>)
        ensures
            r is Ok <==> has_user(self@.users, id),
            r matches Ok(u) ==> exists|j: int|
                0 <= j < self@.users.len() && (#[trigger] self@.users[j]).id == id && u
                    == self@.users[j],
            r matches Err(e) ==> e is NotFound,
    {
        match self.find_user_idx(id) {
            Some(i) => {
                let u = self.users[i].clone_row();
                proof {
                    lemma_store_view(*self);
                }
                Ok(u)
            },
            None => Err(AppError::NotFound("user not found".to_owned())),
        }
    }

    /// List user rows, all of them or only the active ones, in insertion
    /// order.
    pub fn get_users(&self, active_only: bool) -> (r: Vec<User>)
        ensures
            active_only ==> r@ == self@.users.filter(|u: User| u.active),
            !active_only ==> r@ == self@.users,
    {
        proof {
            lemma_store_view(*self);
        }
        let n = self.users.len();
        let mut out: Vec<User> = Vec::new();
        let mut i: usize = 0;
        while i < n
            invariant
                n == self.users.len(),
                0 <= i <= n,
                active_only ==> out@ == self.users@.take(i as int).filter(|u: User| u.active),
                !active_only ==> out@ == self.users@.take(i as int),
            decreases n - i,
        {
            let ghost prefix = self.users@.take(i as int);
            let ghost prefix2 = self.users@.take(i as int + 1);
            proof {
                assert(prefix2.drop_last() =~= prefix);
                assert(prefix2.last() == self.users@[i as int]);
            }
            if !active_only || self.users[i].active {
                let row = self.users[i].clone_row();
                out.push(row);
                proof {
                    if active_only {
                        reveal(Seq::filter);
                        assert(prefix2.filter(|u: User| u.active) == prefix.filter(
                            |u: User| u.active,
                        ).push(prefix2.last()));
                    }
                }
            } else {
                proof {
                    reveal(Seq::filter);
                    assert(prefix2.filter(|u: User| u.active) == prefix.filter(|u: User| u.active));
                }
            }
            i = i + 1;
        }
        proof {
            assert(self.users@.take(n as int) =~= self.users@);
        }
        out
    }

    /// Rewrite a user row's fields.  A shared user is protected: its row
    /// is returned unchanged.
    pub fn update_user(&mut self, id: i64, input: UpdateUserInput) -> (r: Result<User, AppError>)
        requires
            old(self)@.wf(),
        ensures
            final(self)@.wf(),
            r is Ok <==> has_user(old(self)@.users, id),
            r is Err ==> final(self)@ == old(self)@ && r->Err_0 is NotFound,
            r matches Ok(u) ==> exists|j: int|
                0 <= j < old(self)@.users.len() && (#[trigger] old(self)@.users[j]).id == id && (
                if old(self)@.users[j].is_shared_user {
                    u == old(self)@.users[j] && final(self)@ == old(self)@
                } else {
                    updated_user_ok(u, old(self)@.users[j], input) && final(self)@ == (StoreModel {
                        users: old(self)@.users.update(j, u),
                        ..old(self)@
                    })
                }),
    {
        match self.find_user_idx(id) {
            Some(i) => {
                proof {
                    lemma_store_view(*old(self));
                }
                if self.users[i].is_shared_user {
                    let u = self.users[i].clone_row();
                    proof {
                        lemma_store_view(*self);
                    }
                    return Ok(u);
                }
                let old_row = self.users.remove(i);
                let row = User {
                    id: old_row.id,
                    name: input.name,
                    color: input.color,
                    avatar: input.avatar,
                    role: input.role,
                    is_shared_user: old_row.is_shared_user,
                    active: input.active,
                };
                let out = row.clone_row();
                self.users.insert(i, row);
                proof {
                    lemma_store_view(*self);
                    let m = store_model(*old(self));
                    assert(self.users@ =~= old(self).users@.update(i as int, out));
                    assert(self@ =~= (StoreModel { users: m.users.update(i as int, out), ..m }));
                    assert(user_ids(m.users.update(i as int, out)) =~= user_ids(m.users));
                }
                Ok(out)
            },
            None => Err(AppError::NotFound("user not found".to_owned())),
        }
    }

    /// Soft-delete a non-shared user; a shared or missing user is left
    /// unchanged.
    pub fn delete_user(&mut self, id: i64) -> (r: Result<(), AppError>)
        requires
            old(self)@.wf(),
        ensures
            final(self)@.wf(),
            r is Ok,
            !has_user(old(self)@.users, id) ==> final(self)@ == old(self)@,
            has_user(old(self)@.users, id) ==> exists|j: int|
                0 <= j < old(self)@.users.len() && (#[trigger] old(self)@.users[j]).id == id && (
                if old(self)@.users[j].is_shared_user {
                    final(self)@ == old(self)@
                } else {
                    final(self)@ == (StoreModel {
                        users: old(self)@.users.update(
                            j,
                            User { active: false, ..old(self)@.users[j] },
                        ),
                        ..old(self)@
                    })
                }),
    {
        match self.find_user_idx(id) {
            Some(i) => {
                proof {
                    lemma_store_view(*old(self));
                }
                if self.users[i].is_shared_user {
                    proof {
                        lemma_store_view(*self);
                    }
                    return Ok(());
                }
                let mut row = self.users.remove(i);
                row.active = false;
                self.users.insert(i, row);
                proof {
                    lemma_store_view(*self);
                    let m = store_model(*old(self));
                    let u2 = User { active: false, ..m.users[i as int] };
                    assert(self.users@ =~= old(self).users@.update(i as int, self.users@[i as int]));
                    assert(self.users@[i as int] == u2);
                    assert(self@ =~= (StoreModel { users: m.users.update(i as int, u2), ..m }));
                    assert(user_ids(m.users.update(i as int, u2)) =~= user_ids(m.users));
                }
                Ok(())
            },
            None => Ok(()),
        }
    }
}

} // verus!
