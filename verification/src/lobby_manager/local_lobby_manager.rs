//! The in-process lobby store: rooms keyed by join code, plus a reverse map
//! from each member to the room they sit in.

use vstd::prelude::*;

use crate::game::alist::{
    alist_has, alist_keys_distinct, alist_lookup, alist_remove, alist_upsert, lemma_lookup_at,
    lemma_lookup_none, lemma_remove_found, lemma_remove_absent, lemma_remove_props,
    lemma_upsert_absent, lemma_upsert_found, lemma_upsert_props,
};
use crate::game::NOBODY_CHAT_ID;
use crate::lobby_manager::{
    clone_users, lobby_wf, users_v, users_without, Lobby, LobbyId, LobbyV, User, UserV,
};

verus! {

/// Lobbies keyed by join code, with a reverse member-to-lobby map.
pub struct LocalLobbyManager {
    lobbies: Vec<(i64, Lobby)>,
    user_map: Vec<(i64, i32)>,
}

/// Mathematical image of the store.
#[verifier::ext_equal]
pub ghost struct LobbyStoreV {
    pub lobbies: Seq<(i64, LobbyV)>,
    pub user_map: Seq<(i64, i32)>,
}

pub open spec fn lobbies_v(s: Seq<(i64, Lobby)>) -> Seq<(i64, LobbyV)> {
    s.map_values(|e: (i64, Lobby)| (e.0, e.1@))
}

impl View for LocalLobbyManager {
    type V = LobbyStoreV;

    closed spec fn view(&self) -> LobbyStoreV {
        LobbyStoreV { lobbies: lobbies_v(self.lobbies@), user_map: self.user_map@ }
    }
}

/// Both maps have distinct keys, each room is well formed, and each room is
/// filed under its own join code.
pub open spec fn store_wf(s: LobbyStoreV) -> bool {
    &&& alist_keys_distinct(s.lobbies)
    &&& alist_keys_distinct(s.user_map)
    &&& forall|k: int| 0 <= k < s.lobbies.len() ==> {
        &&& lobby_wf((#[trigger] s.lobbies[k]).1)
        &&& s.lobbies[k].0 == s.lobbies[k].1.lobby_id as i64
    }
}

/// Position of the first binding for `key` in the reverse map.
fn user_map_index(m: &Vec<(i64, i32)>, key: i64) -> (r: Option<usize>)
    ensures
        match r {
            Some(j) => {
                &&& j < m@.len()
                &&& m@[j as int].0 == key
                &&& forall|k: int| 0 <= k < j ==> (#[trigger] m@[k]).0 != key
            },
            None => forall|k: int| 0 <= k < m@.len() ==> (#[trigger] m@[k]).0 != key,
        },
{
    let mut j: usize = 0;
    while j < m.len()
        invariant
            0 <= j <= m@.len(),
            forall|k: int| 0 <= k < j ==> (#[trigger] m@[k]).0 != key,
        decreases m@.len() - j,
    {
        if m[j].0 == key {
            return Some(j);
        }
        j += 1;
    }
    None
}

/// Position of the first room filed under `key`.
fn lobby_index(ls: &Vec<(i64, Lobby)>, key: i64) -> (r: Option<usize>)
    ensures
        match r {
            Some(j) => {
                &&& j < ls@.len()
                &&& lobbies_v(ls@)[j as int].0 == key
                &&& forall|k: int| 0 <= k < j ==> (#[trigger] lobbies_v(ls@)[k]).0 != key
            },
            None => forall|k: int|
                0 <= k < ls@.len() ==> (#[trigger] lobbies_v(ls@)[k]).0 != key,
        },
{
    let mut j: usize = 0;
    while j < ls.len()
        invariant
            0 <= j <= ls@.len(),
            forall|k: int| 0 <= k < j ==> (#[trigger] lobbies_v(ls@)[k]).0 != key,
        decreases ls@.len() - j,
    {
        if ls[j].0 == key {
            return Some(j);
        }
        j += 1;
    }
    None
}

impl LocalLobbyManager {
    pub open spec fn wf(&self) -> bool {
        store_wf(self@)
    }

    /// An empty store.
    pub fn new() -> (r: LocalLobbyManager)
        ensures
            r.wf(),
            r@.lobbies == Seq::<(i64, LobbyV)>::empty(),
            r@.user_map == Seq::<(i64, i32)>::empty(),
    {
        let r = LocalLobbyManager { lobbies: Vec::new(), user_map: Vec::new() };
        proof {
            assert(lobbies_v(Seq::<(i64, Lobby)>::empty()) =~= Seq::<(i64, LobbyV)>::empty());
        }
        r
    }

    /// The room a chat user currently sits in, if any.
    pub fn get_chats_lobby(&self, chat_id: i64) -> (r: Option<&Lobby>)
        ensures
            match r {
                Some(l) => {
                    &&& alist_lookup(self@.user_map, chat_id) matches Some(lid)
                        && alist_lookup(self@.lobbies, lid as i64) == Some(l@)
                },
                None => match alist_lookup(self@.user_map, chat_id) {
                    Some(lid) => alist_lookup(self@.lobbies, lid as i64) is None,
                    None => true,
                },
            },
    {
        match user_map_index(&self.user_map, chat_id) {
            Some(j) => {
                proof {
                    lemma_lookup_at(self@.user_map, chat_id, j as int);
                }
                let lid = self.user_map[j].1;
                match lobby_index(&self.lobbies, lid as i64) {
                    Some(w) => {
                        proof {
                            lemma_lookup_at(self@.lobbies, lid as i64, w as int);
                        }
                        Some(&self.lobbies[w].1)
                    },
                    None => {
                        proof {
                            lemma_lookup_none(self@.lobbies, lid as i64);
                        }
                        None
                    },
                }
            },
            None => {
                proof {
                    lemma_lookup_none(self@.user_map, chat_id);
                }
                None
            },
        }
    }

    /// Opens a new room with `user` as host, under a join code that no
    /// existing room uses.  The code is drawn at random; after too many
    /// collisions in a row the attempt is given up.
    pub fn create_lobby(&mut self, user: User) -> (r: Result<Lobby, &'static str>)
        requires
            old(self).wf(),
            user.chat_id != NOBODY_CHAT_ID,
        ensures
            final(self).wf(),
            match r {
                Ok(l) => {
                    &&& !alist_has(old(self)@.user_map, user@.chat_id)
                    &&& !alist_has(old(self)@.lobbies, l@.lobby_id as i64)
                    &&& 1000 <= l@.lobby_id < 10000
                    &&& l@.host_id == user@.chat_id
                    &&& l@.users == seq![user@]
                    &&& final(self)@.lobbies == alist_upsert(
                        old(self)@.lobbies,
                        l@.lobby_id as i64,
                        l@,
                    )
                    &&& final(self)@.user_map == alist_upsert(
                        old(self)@.user_map,
                        user@.chat_id,
                        l@.lobby_id,
                    )
                },
                Err(m) => {
                    &&& final(self)@ == old(self)@
                    &&& (alist_has(old(self)@.user_map, user@.chat_id) <==> m@
                        == "User is already in a lobby"@)
                },
            },
    {
        match user_map_index(&self.user_map, user.chat_id) {
            Some(j) => {
                proof {
                    lemma_lookup_at(self@.user_map, user.chat_id, j as int);
                }
                return Err("User is already in a lobby");
            },
            None => {
                proof {
                    lemma_lookup_none(self@.user_map, user.chat_id);
                }
            },
        }

        let mut tries: usize = 0;
        while tries < 64
            invariant
                old(self).wf(),
                self@ == old(self)@,
                user.chat_id != NOBODY_CHAT_ID,
                user@.chat_id == user.chat_id,
                !alist_has(old(self)@.user_map, user@.chat_id),
            decreases 64 - tries,
        {
            let id = crate::rng::gen_range_i32(1_000, 10_000);
            match lobby_index(&self.lobbies, id as i64) {
                Some(_) => {},
                None => {
                    proof {
                        lemma_lookup_none(self@.lobbies, id as i64);
                    }
                    let chat_id = user.chat_id;
                    let mut users: Vec<User> = Vec::new();
                    users.push(user);
                    let lobby = Lobby { host_id: chat_id, users, lobby_id: LobbyId(id) };
                    let result = lobby.clone();
                    let ghost lobbies0 = self@.lobbies;
                    let ghost map0 = self@.user_map;
                    proof {
                        assert(lobby@.users =~= seq![user@]);
                    }
                    self.lobbies.push((id as i64, lobby));
                    self.user_map.push((chat_id, id));
                    proof {
                        assert(forall|k: int|
                            0 <= k < lobbies0.len() ==> (#[trigger] lobbies0[k]).0
                                != id as i64);
                        lemma_upsert_absent(lobbies0, id as i64, result@);
                        assert(lobbies_v(self.lobbies@) =~= lobbies0.push((id as i64, result@)));
                        crate::game::alist::lemma_lookup_some_key_present(map0, chat_id);
                        lemma_upsert_absent(map0, chat_id, id);
                        assert(self.user_map@ =~= map0.push((chat_id, id)));
                        lemma_upsert_props(lobbies0, id as i64, result@);
                        lemma_upsert_props(map0, chat_id, id);
                        assert forall|k: int|
                            0 <= k < final(self)@.lobbies.len() implies {
                            &&& lobby_wf((#[trigger] final(self)@.lobbies[k]).1)
                            &&& final(self)@.lobbies[k].0 == final(self)@.lobbies[k].1.lobby_id
                                as i64
                        } by {
                            if k < lobbies0.len() {
                                assert(final(self)@.lobbies[k] == lobbies0[k]);
                            }
                        }
                    }
                    return Ok(result);
                },
            }
            tries += 1;
        }
        proof {
            reveal_strlit("no unused lobby id was found");
            reveal_strlit("User is already in a lobby");
            assert(!alist_has(old(self)@.user_map, user@.chat_id));
            assert("no unused lobby id was found"@.len() == 28);
            assert("User is already in a lobby"@.len() == 26);
        }
        Err("no unused lobby id was found")
    }

    /// Adds `user` to the room with the given join code.
    pub fn join_lobby(&mut self, lobby_id: LobbyId, user: User) -> (r: Result<
        Lobby,
        &'static str,
    >)
        requires
            old(self).wf(),
            user.chat_id != NOBODY_CHAT_ID,
        ensures
            final(self).wf(),
            match r {
                Ok(l) => {
                    &&& !alist_has(old(self)@.user_map, user@.chat_id)
                    &&& alist_lookup(old(self)@.lobbies, lobby_id.0 as i64) matches Some(lv)
                        && l@ == (LobbyV {
                        users: lv.users.push(user@),
                        ..lv
                    }) && !lv.users.to_set().map(|u: UserV| u.chat_id).contains(user@.chat_id)
                    &&& final(self)@.lobbies == alist_upsert(
                        old(self)@.lobbies,
                        lobby_id.0 as i64,
                        l@,
                    )
                    &&& final(self)@.user_map == alist_upsert(
                        old(self)@.user_map,
                        user@.chat_id,
                        lobby_id.0,
                    )
                },
                Err(m) => {
                    &&& final(self)@ == old(self)@
                    &&& (m@ == "User is already in a lobby"@ || m@ == "Lobby does not exist"@)
                    &&& (m@ == "Lobby does not exist"@ ==> !alist_has(
                        old(self)@.lobbies,
                        lobby_id.0 as i64,
                    ))
                },
            },
    {
        proof {
            reveal_strlit("User is already in a lobby");
            reveal_strlit("Lobby does not exist");
        }
        match user_map_index(&self.user_map, user.chat_id) {
            Some(j) => {
                proof {
                    lemma_lookup_at(self@.user_map, user.chat_id, j as int);
                }
proof {
                    reveal_strlit("User is already in a lobby");
                    reveal_strlit("Lobby does not exist");
                    assert("User is already in a lobby"@.len() == 26);
                    assert("Lobby does not exist"@.len() == 20);
                }
                return Err("User is already in a lobby");
            },
            None => {
                proof {
                    lemma_lookup_none(self@.user_map, user.chat_id);
                }
            },
        }
        let w = match lobby_index(&self.lobbies, lobby_id.0 as i64) {
            Some(w) => w,
            None => {
                proof {
                    lemma_lookup_none(self@.lobbies, lobby_id.0 as i64);
                }
                return Err("Lobby does not exist");
            },
        };
        proof {
            lemma_lookup_at(self@.lobbies, lobby_id.0 as i64, w as int);
        }

        // a well-formed room never lists one member twice
        let mut k: usize = 0;
        let n = self.lobbies[w].1.users.len();
        while k < n
            invariant
                old(self).wf(),
                self@ == old(self)@,
                w < self.lobbies@.len(),
                n == self.lobbies@[w as int].1.users@.len(),
                user@.chat_id == user.chat_id,
                forall|j: int|
                    0 <= j < k ==> (#[trigger] users_v(self.lobbies@[w as int].1.users@)[j]).chat_id
                        != user@.chat_id,
            decreases n - k,
        {
            if self.lobbies[w].1.users[k].chat_id == user.chat_id {
                proof {
                    reveal_strlit("User is already in a lobby");
                    reveal_strlit("Lobby does not exist");
                    assert("User is already in a lobby"@.len() == 26);
                    assert("Lobby does not exist"@.len() == 20);
                }
                return Err("User is already in a lobby");
            }
            k += 1;
        }

        let chat_id = user.chat_id;
        let ghost lv = self@.lobbies[w as int].1;
        let mut new_users = clone_users(&self.lobbies[w].1.users);
        new_users.push(user);
        let new_lobby = Lobby {
            host_id: self.lobbies[w].1.host_id,
            users: new_users,
            lobby_id: self.lobbies[w].1.lobby_id,
        };
        let result = new_lobby.clone();
        let ghost lobbies0 = self@.lobbies;
        let ghost map0 = self@.user_map;
        proof {
            assert(new_lobby@.users =~= lv.users.push(user@));
            assert(new_lobby@ =~~= (LobbyV { users: lv.users.push(user@), ..lv }));
            assert(!lv.users.to_set().map(|u: UserV| u.chat_id).contains(user@.chat_id)) by {
                if lv.users.to_set().map(|u: UserV| u.chat_id).contains(user@.chat_id) {
                    let u = choose|u: UserV|
                        lv.users.to_set().contains(u) && u.chat_id == user@.chat_id;
                    let j = choose|j: int| 0 <= j < lv.users.len() && lv.users[j] == u;
                }
            }
        }
        self.lobbies.set(w, (lobby_id.0 as i64, new_lobby));
        self.user_map.push((chat_id, lobby_id.0));
        proof {
            lemma_upsert_found(lobbies0, lobby_id.0 as i64, result@, w as int);
            assert(lobbies_v(self.lobbies@) =~= lobbies0.update(
                w as int,
                (lobby_id.0 as i64, result@),
            ));
            lemma_upsert_absent(map0, chat_id, lobby_id.0);
            assert(self.user_map@ =~= map0.push((chat_id, lobby_id.0)));
            lemma_upsert_props(lobbies0, lobby_id.0 as i64, result@);
            lemma_upsert_props(map0, chat_id, lobby_id.0);
            assert(lobby_wf(result@)) by {
                assert forall|a: int, b: int|
                    0 <= a < b < result@.users.len() implies (#[trigger] result@.users[a]).chat_id
                    != (#[trigger] result@.users[b]).chat_id by {
                    if b < lv.users.len() {
                        assert(result@.users[a] == lv.users[a] && result@.users[b]
                            == lv.users[b]);
                    } else {
                        assert(result@.users[b] == user@);
                        assert(result@.users[a] == lv.users[a]);
                    }
                }
            }
            assert forall|k: int| 0 <= k < final(self)@.lobbies.len() implies {
                &&& lobby_wf((#[trigger] final(self)@.lobbies[k]).1)
                &&& final(self)@.lobbies[k].0 == final(self)@.lobbies[k].1.lobby_id as i64
            } by {
                if k != w {
                    assert(final(self)@.lobbies[k] == lobbies0[k]);
                }
            }
        }
        Ok(result)
    }
}


/// Unbinds `key` in the reverse map, if bound.
fn remove_user_map_key(m: &mut Vec<(i64, i32)>, key: i64)
    ensures
        final(m)@ == alist_remove(old(m)@, key),
{
    let ghost m0 = old(m)@;
    match user_map_index(m, key) {
        Some(j) => {
            let _ = m.remove(j);
            proof {
                lemma_remove_found(m0, key, j as int);
            }
        },
        None => {
            proof {
                lemma_remove_absent(m0, key);
            }
        },
    }
}

impl LocalLobbyManager {
    /// Takes `chat_id` out of their room.  A last member closes the room; a
    /// quitting host hands the room to the first remaining member.  Returns
    /// the join code of the room that was left.
    pub fn quit_lobby(&mut self, chat_id: i64) -> (r: Result<LobbyId, &'static str>)
        requires
            old(self).wf(),
        ensures
            final(self).wf(),
            match r {
                Ok(lid) => {
                    &&& alist_lookup(old(self)@.user_map, chat_id) == Some(lid.0)
                    &&& final(self)@.user_map == alist_remove(old(self)@.user_map, chat_id)
                    &&& alist_lookup(old(self)@.lobbies, lid.0 as i64) matches Some(lv) && {
                        let remaining = crate::lobby_manager::users_without(lv.users, chat_id);
                        &&& (lv.users.len() <= 1 || remaining.len() == 0 ==> final(self)@.lobbies
                            == alist_remove(old(self)@.lobbies, lid.0 as i64))
                        &&& (lv.users.len() > 1 && remaining.len() > 0 ==> final(self)@.lobbies
                            == alist_upsert(
                            old(self)@.lobbies,
                            lid.0 as i64,
                            LobbyV {
                                host_id: if lv.host_id == chat_id {
                                    remaining[0].chat_id
                                } else {
                                    lv.host_id
                                },
                                users: remaining,
                                lobby_id: lv.lobby_id,
                            },
                        ))
                    }
                },
                Err(m) => {
                    &&& final(self)@ == old(self)@
                    &&& (m@ == "Chat ID is not in any lobby"@ <==> !alist_has(
                        old(self)@.user_map,
                        chat_id,
                    ))
                },
            },
    {
        proof {
            reveal_strlit("Chat ID is not in any lobby");
            reveal_strlit("Internal error: user_map and lobbies not synced");
            assert("Chat ID is not in any lobby"@.len() == 27);
            assert("Internal error: user_map and lobbies not synced"@.len() == 47);
        }
        let j = match user_map_index(&self.user_map, chat_id) {
            Some(j) => j,
            None => {
                proof {
                    lemma_lookup_none(self@.user_map, chat_id);
                }
                return Err("Chat ID is not in any lobby");
            },
        };
        proof {
            lemma_lookup_at(self@.user_map, chat_id, j as int);
        }
        let lid = self.user_map[j].1;
        let w = match lobby_index(&self.lobbies, lid as i64) {
            Some(w) => w,
            None => {
                proof {
                    lemma_lookup_none(self@.lobbies, lid as i64);
                }
                return Err("Internal error: user_map and lobbies not synced");
            },
        };
        proof {
            lemma_lookup_at(self@.lobbies, lid as i64, w as int);
        }
        let ghost lv = self@.lobbies[w as int].1;
        let ghost lobbies0 = self@.lobbies;
        let ghost map0 = self@.user_map;

        let remaining = crate::lobby_manager::users_without_exec(
            &self.lobbies[w].1.users,
            chat_id,
        );
        let n_users = self.lobbies[w].1.users.len();
        if n_users <= 1 || remaining.len() == 0 {
            let _ = self.lobbies.remove(w);
            proof {
                lemma_remove_found(lobbies0, lid as i64, w as int);
                assert(lobbies_v(self.lobbies@) =~= lobbies0.remove(w as int));
                lemma_remove_props(lobbies0, lid as i64);
                assert forall|k: int| 0 <= k < lobbies_v(self.lobbies@).len() implies {
                    &&& lobby_wf((#[trigger] lobbies_v(self.lobbies@)[k]).1)
                    &&& lobbies_v(self.lobbies@)[k].0 == lobbies_v(self.lobbies@)[k].1.lobby_id
                        as i64
                } by {
                    if k < w {
                        assert(lobbies_v(self.lobbies@)[k] == lobbies0[k]);
                    } else {
                        assert(lobbies_v(self.lobbies@)[k] == lobbies0[k + 1]);
                    }
                }
                assert(alist_keys_distinct(lobbies_v(self.lobbies@))) by {
                    assert(lobbies_v(self.lobbies@) =~= alist_remove(lobbies0, lid as i64));
                }
            }
        } else {
            let new_host = if self.lobbies[w].1.host_id == chat_id {
                remaining[0].chat_id
            } else {
                self.lobbies[w].1.host_id
            };
            let new_lobby = Lobby {
                host_id: new_host,
                users: remaining,
                lobby_id: self.lobbies[w].1.lobby_id,
            };
            proof {
                crate::lobby_manager::lemma_users_without_props(lv.users, chat_id);
                assert(new_lobby@.users == crate::lobby_manager::users_without(
                    lv.users,
                    chat_id,
                ));
                assert(lobby_wf(new_lobby@)) by {
                    assert forall|k: int|
                        0 <= k < new_lobby@.users.len() implies (#[trigger] new_lobby@.users[k]).chat_id
                        != crate::game::NOBODY_CHAT_ID by {
                        assert(lv.users.contains(new_lobby@.users[k]));
                        let q = choose|q: int|
                            0 <= q < lv.users.len() && lv.users[q] == new_lobby@.users[k];
                    }
                }
            }
            self.lobbies.set(w, (lid as i64, new_lobby));
            proof {
                lemma_upsert_found(lobbies0, lid as i64, lobbies_v(self.lobbies@)[w as int].1, w as int);
                assert(lobbies_v(self.lobbies@) =~= lobbies0.update(
                    w as int,
                    (lid as i64, lobbies_v(self.lobbies@)[w as int].1),
                ));
                lemma_upsert_props(lobbies0, lid as i64, lobbies_v(self.lobbies@)[w as int].1);
                assert forall|k: int| 0 <= k < lobbies_v(self.lobbies@).len() implies {
                    &&& lobby_wf((#[trigger] lobbies_v(self.lobbies@)[k]).1)
                    &&& lobbies_v(self.lobbies@)[k].0 == lobbies_v(self.lobbies@)[k].1.lobby_id
                        as i64
                } by {
                    if k != w {
                        assert(lobbies_v(self.lobbies@)[k] == lobbies0[k]);
                    }
                }
            }
        }
        let _ = self.user_map.remove(j);
        proof {
            lemma_remove_found(map0, chat_id, j as int);
            assert(self.user_map@ =~= alist_remove(map0, chat_id));
            lemma_remove_props(map0, chat_id);
        }
        Ok(LobbyId(lid))
    }

    /// Closes a room outright, unbinding every member from it.
    pub fn close_lobby(&mut self, lobby_id: LobbyId) -> (r: Result<(), &'static str>)
        requires
            old(self).wf(),
        ensures
            final(self).wf(),
            match r {
                Ok(()) => {
                    &&& alist_lookup(old(self)@.lobbies, lobby_id.0 as i64) matches Some(lv) && {
                        &&& final(self)@.lobbies == alist_remove(
                            old(self)@.lobbies,
                            lobby_id.0 as i64,
                        )
                        &&& final(self)@.user_map == crate::lobby_manager::remove_all(
                            old(self)@.user_map,
                            crate::lobby_manager::user_ids(lv.users),
                        )
                    }
                },
                Err(m) => {
                    &&& final(self)@ == old(self)@
                    &&& m@ == "Lobby does not exist"@
                    &&& !alist_has(old(self)@.lobbies, lobby_id.0 as i64)
                },
            },
    {
        let w = match lobby_index(&self.lobbies, lobby_id.0 as i64) {
            Some(w) => w,
            None => {
                proof {
                    lemma_lookup_none(self@.lobbies, lobby_id.0 as i64);
                }
                return Err("Lobby does not exist");
            },
        };
        proof {
            lemma_lookup_at(self@.lobbies, lobby_id.0 as i64, w as int);
        }
        let ghost lv = self@.lobbies[w as int].1;
        let ghost lobbies0 = self@.lobbies;
        let ghost map0 = self@.user_map;
        let entry = self.lobbies.remove(w);
        proof {
            lemma_remove_found(lobbies0, lobby_id.0 as i64, w as int);
            assert(lobbies_v(self.lobbies@) =~= lobbies0.remove(w as int));
            assert(lobbies_v(self.lobbies@) =~= alist_remove(lobbies0, lobby_id.0 as i64));
            lemma_remove_props(lobbies0, lobby_id.0 as i64);
            assert forall|k: int| 0 <= k < lobbies_v(self.lobbies@).len() implies {
                &&& lobby_wf((#[trigger] lobbies_v(self.lobbies@)[k]).1)
                &&& lobbies_v(self.lobbies@)[k].0 == lobbies_v(self.lobbies@)[k].1.lobby_id
                    as i64
            } by {
                if k < w {
                    assert(lobbies_v(self.lobbies@)[k] == lobbies0[k]);
                } else {
                    assert(lobbies_v(self.lobbies@)[k] == lobbies0[k + 1]);
                }
            }
        }
        let users = entry.1.users;
        let ghost ids = crate::lobby_manager::user_ids(lv.users);
        let mut i: usize = 0;
        while i < users.len()
            invariant
                0 <= i <= users@.len(),
                crate::lobby_manager::users_v(users@) == lv.users,
                ids == crate::lobby_manager::user_ids(lv.users),
                map0 == old(self)@.user_map,
                lobbies0 == old(self)@.lobbies,
                alist_lookup(old(self)@.lobbies, lobby_id.0 as i64) == Some(lv),
                lobbies_v(self.lobbies@) == alist_remove(lobbies0, lobby_id.0 as i64),
                alist_keys_distinct(lobbies_v(self.lobbies@)),
                forall|k: int| 0 <= k < lobbies_v(self.lobbies@).len() ==> {
                    &&& lobby_wf((#[trigger] lobbies_v(self.lobbies@)[k]).1)
                    &&& lobbies_v(self.lobbies@)[k].0 == lobbies_v(self.lobbies@)[k].1.lobby_id
                        as i64
                },
                self.user_map@ == crate::lobby_manager::remove_all(
                    map0,
                    ids.subrange(0, i as int),
                ),
                alist_keys_distinct(self.user_map@),
            decreases users@.len() - i,
        {
            proof {
                assert(ids.subrange(0, i + 1 as int).drop_last() =~= ids.subrange(0, i as int));
                assert(ids.subrange(0, i + 1 as int).last() == ids[i as int]);
                assert(ids[i as int] == users@[i as int]@.chat_id);
            }
            let ghost before = self.user_map@;
            remove_user_map_key(&mut self.user_map, users[i].chat_id);
            proof {
                lemma_remove_props(before, users@[i as int]@.chat_id);
            }
            i += 1;
        }
        proof {
            assert(ids.subrange(0, ids.len() as int) =~= ids);
        }
        Ok(())
    }
}

} // verus!
