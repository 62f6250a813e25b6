//! Pre-game rooms: a lobby collects members until its host starts the game.

use vstd::prelude::*;

use crate::game::NOBODY_CHAT_ID;

pub mod local_lobby_manager;

verus! {

/// Identifier of a lobby, shown to users as the join code.
#[derive(Copy, Clone, Debug, PartialEq, Eq, Structural, Hash)]
pub struct LobbyId(pub i32);

/// A chat user: the id the transport addresses them by, plus a display name.
pub struct User {
    pub chat_id: i64,
    pub username: String,
}

/// Mathematical image of a `User`.
pub ghost struct UserV {
    pub chat_id: i64,
    pub username: Seq<char>,
}

impl View for User {
    type V = UserV;

    open spec fn view(&self) -> UserV {
        UserV { chat_id: self.chat_id, username: self.username@ }
    }
}

impl Clone for User {
    fn clone(&self) -> (res: User)
        ensures
            res@ == self@,
    {
        User { chat_id: self.chat_id, username: self.username.clone() }
    }
}

/// A snapshot of one lobby's details.
pub struct Lobby {
    pub host_id: i64,
    pub users: Vec<User>,
    pub lobby_id: LobbyId,
}

/// Mathematical image of a `Lobby`.
#[verifier::ext_equal]
pub ghost struct LobbyV {
    pub host_id: i64,
    pub users: Seq<UserV>,
    pub lobby_id: i32,
}

impl View for Lobby {
    type V = LobbyV;

    open spec fn view(&self) -> LobbyV {
        LobbyV {
            host_id: self.host_id,
            users: self.users@.map_values(|u: User| u@),
            lobby_id: self.lobby_id.0,
        }
    }
}

/// Members carry pairwise distinct ids, none of them the reserved sentinel,
/// and the host is one of the members.
pub open spec fn lobby_wf(l: LobbyV) -> bool {
    &&& forall|i: int, j: int|
        0 <= i < j < l.users.len() ==> (#[trigger] l.users[i]).chat_id
            != (#[trigger] l.users[j]).chat_id
    &&& forall|i: int| 0 <= i < l.users.len() ==> (#[trigger] l.users[i]).chat_id != NOBODY_CHAT_ID
}

impl Lobby {
    pub open spec fn wf(&self) -> bool {
        lobby_wf(self@)
    }
}


pub open spec fn users_v(s: Seq<User>) -> Seq<UserV> {
    s.map_values(|u: User| u@)
}

/// Copies a member list.
pub fn clone_users(v: &Vec<User>) -> (r: Vec<User>)
    ensures
        users_v(r@) == users_v(v@),
{
    let mut r: Vec<User> = Vec::new();
    let mut i: usize = 0;
    while i < v.len()
        invariant
            0 <= i <= v@.len(),
            r@.len() == i,
            users_v(r@) =~= users_v(v@.subrange(0, i as int)),
        decreases v@.len() - i,
    {
        let ghost r0 = r@;
        let u = v[i].clone();
        r.push(u);
        proof {
            assert forall|k: int| 0 <= k < r@.len() implies users_v(r@)[k] == users_v(
                v@.subrange(0, i + 1 as int),
            )[k] by {
                if k < i {
                    assert(users_v(r0)[k] == users_v(v@.subrange(0, i as int))[k]);
                    assert(r@[k] == r0[k]);
                    assert(v@.subrange(0, i + 1 as int)[k] == v@.subrange(0, i as int)[k]);
                } else {
                    assert(r@[k]@ == v@[i as int]@);
                }
            }
            assert(users_v(r@) =~= users_v(v@.subrange(0, i + 1 as int)));
        }
        i += 1;
    }
    proof {
        assert(v@.subrange(0, v@.len() as int) =~= v@);
    }
    r
}

impl Clone for Lobby {
    fn clone(&self) -> (res: Lobby)
        ensures
            res@ == self@,
    {
        let res = Lobby {
            host_id: self.host_id,
            users: clone_users(&self.users),
            lobby_id: self.lobby_id,
        };
        proof {
            assert(res@ =~~= self@);
        }
        res
    }
}

/// The members with id `chat_id` taken out (there is at most one in a
/// well-formed lobby).
pub open spec fn users_without(us: Seq<UserV>, chat_id: i64) -> Seq<UserV>
    decreases us.len(),
{
    if us.len() == 0 {
        us
    } else {
        users_without(us.drop_last(), chat_id) + (if us.last().chat_id == chat_id {
            Seq::empty()
        } else {
            seq![us.last()]
        })
    }
}


/// Entries of `users_without` are entries of the original list, and remain
/// pairwise distinct by id.
pub proof fn lemma_users_without_props(us: Seq<UserV>, chat_id: i64)
    requires
        forall|i: int, j: int|
            0 <= i < j < us.len() ==> (#[trigger] us[i]).chat_id != (#[trigger] us[j]).chat_id,
    ensures
        forall|k: int|
            0 <= k < users_without(us, chat_id).len() ==> us.contains(
                #[trigger] users_without(us, chat_id)[k],
            ),
        forall|i: int, j: int|
            0 <= i < j < users_without(us, chat_id).len() ==> (#[trigger] users_without(
                us,
                chat_id,
            )[i]).chat_id != (#[trigger] users_without(us, chat_id)[j]).chat_id,
    decreases us.len(),
{
    if us.len() > 0 {
        assert(forall|i: int, j: int|
            0 <= i < j < us.drop_last().len() ==> (#[trigger] us.drop_last()[i]).chat_id
                != (#[trigger] us.drop_last()[j]).chat_id) by {
            assert(forall|i: int|
                0 <= i < us.drop_last().len() ==> #[trigger] us.drop_last()[i] == us[i]);
        }
        lemma_users_without_props(us.drop_last(), chat_id);
        let r = users_without(us, chat_id);
        let rd = users_without(us.drop_last(), chat_id);
        assert forall|k: int| 0 <= k < r.len() implies us.contains(#[trigger] r[k]) by {
            if k < rd.len() {
                assert(r[k] == rd[k]);
                assert(us.drop_last().contains(rd[k]));
                let w = choose|w: int|
                    0 <= w < us.drop_last().len() && us.drop_last()[w] == rd[k];
                assert(us[w] == rd[k]);
            } else {
                assert(r[k] == us[us.len() - 1]);
            }
        }
        assert forall|i: int, j: int| 0 <= i < j < r.len() implies (#[trigger] r[i]).chat_id
            != (#[trigger] r[j]).chat_id by {
            if j < rd.len() {
                assert(r[i] == rd[i] && r[j] == rd[j]);
            } else {
                assert(r[j] == us.last());
                assert(r[i] == rd[i]);
                assert(us.drop_last().contains(rd[i]));
                let w = choose|w: int|
                    0 <= w < us.drop_last().len() && us.drop_last()[w] == rd[i];
                assert(us[w] == rd[i]);
                assert(us[w].chat_id != us[us.len() - 1].chat_id);
            }
        }
    }
}

/// Copies the member list with the member `chat_id` taken out.
pub fn users_without_exec(users: &Vec<User>, chat_id: i64) -> (r: Vec<User>)
    ensures
        users_v(r@) == users_without(users_v(users@), chat_id),
{
    let ghost us = users_v(users@);
    let mut r: Vec<User> = Vec::new();
    let mut i: usize = 0;
    while i < users.len()
        invariant
            0 <= i <= users@.len(),
            us == users_v(users@),
            users_v(r@) =~= users_without(us.subrange(0, i as int), chat_id),
        decreases users@.len() - i,
    {
        proof {
            assert(us.subrange(0, i + 1 as int).drop_last() =~= us.subrange(0, i as int));
            assert(us.subrange(0, i + 1 as int).last() == us[i as int]);
        }
        if users[i].chat_id != chat_id {
            let u = users[i].clone();
            r.push(u);
        }
        proof {
            assert(users_v(r@) =~= users_without(us.subrange(0, i + 1 as int), chat_id));
        }
        i += 1;
    }
    proof {
        assert(us.subrange(0, us.len() as int) =~= us);
    }
    r
}

/// The ids of a member list, in order.
pub open spec fn user_ids(us: Seq<UserV>) -> Seq<i64> {
    us.map_values(|u: UserV| u.chat_id)
}

/// The reverse map with every id in `ids` unbound, in order.
pub open spec fn remove_all(m: Seq<(i64, i32)>, ids: Seq<i64>) -> Seq<(i64, i32)>
    decreases ids.len(),
{
    if ids.len() == 0 {
        m
    } else {
        crate::game::alist::alist_remove(remove_all(m, ids.drop_last()), ids.last())
    }
}

} // verus!
