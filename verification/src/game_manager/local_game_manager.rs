//! The in-process game store: game_manager keeps track of games' progress
//! and player membership; the transport decides what to send whom.

use vstd::prelude::*;

use crate::game::alist::{
    alist_has, alist_keys_distinct, alist_lookup, alist_remove, alist_upsert, lemma_lookup_at,
    lemma_lookup_none, lemma_remove_found, lemma_remove_props, lemma_upsert_absent,
    lemma_upsert_found, lemma_upsert_props,
};
use crate::game::game_v1::{state_wf, GameStateV, GameV1};
use crate::game::players_v;

verus! {

/// Identifier of a running game.
#[derive(Copy, Clone, Debug, PartialEq, Eq, Structural, Hash)]
pub struct GameId(pub i32);

/// Games keyed by id, with a reverse player-to-game map.
pub struct LocalGameManager {
    games: Vec<(i64, GameV1)>,
    player_map: Vec<(i64, i32)>,
}

/// Mathematical image of the store.
#[verifier::ext_equal]
pub ghost struct GameStoreV {
    pub games: Seq<(i64, GameStateV)>,
    pub player_map: Seq<(i64, i32)>,
}

pub open spec fn games_v(s: Seq<(i64, GameV1)>) -> Seq<(i64, GameStateV)> {
    s.map_values(|e: (i64, GameV1)| (e.0, e.1@))
}

impl View for LocalGameManager {
    type V = GameStoreV;

    closed spec fn view(&self) -> GameStoreV {
        GameStoreV { games: games_v(self.games@), player_map: self.player_map@ }
    }
}

/// Both maps have distinct keys and every stored game satisfies the engine
/// invariant.
pub open spec fn game_store_wf(s: GameStoreV) -> bool {
    &&& alist_keys_distinct(s.games)
    &&& alist_keys_distinct(s.player_map)
    &&& forall|k: int| 0 <= k < s.games.len() ==> state_wf((#[trigger] s.games[k]).1)
}

/// The ids the reverse map binds for a fresh game: its whole roster.
pub open spec fn map_players(m: Seq<(i64, i32)>, ids: Seq<i64>, gid: i32) -> Seq<(i64, i32)>
    decreases ids.len(),
{
    if ids.len() == 0 {
        m
    } else {
        alist_upsert(map_players(m, ids.drop_last(), gid), ids.last(), gid)
    }
}

/// Position of the first binding for `key` in the reverse map.
fn player_map_index(m: &Vec<(i64, i32)>, key: i64) -> (r: Option<usize>)
    ensures
        match r {
            Some(j) => {
                &&& j < m@.len()
                &&& m@[j as int].0 == key
                &&& forall|k: int| 0 <= k < j ==> (#[trigger] m@[k]).0 != key
            },
            None => forall|k: int| 0 <= k < m@.len() ==> (#[trigger] m@[k]).0 != key,
        },
{
    let mut j: usize = 0;
    while j < m.len()
        invariant
            0 <= j <= m@.len(),
            forall|k: int| 0 <= k < j ==> (#[trigger] m@[k]).0 != key,
        decreases m@.len() - j,
    {
        if m[j].0 == key {
            return Some(j);
        }
        j += 1;
    }
    None
}

/// Position of the first game filed under `key`.
fn game_index(gs: &Vec<(i64, GameV1)>, key: i64) -> (r: Option<usize>)
    ensures
        match r {
            Some(j) => {
                &&& j < gs@.len()
                &&& games_v(gs@)[j as int].0 == key
                &&& forall|k: int| 0 <= k < j ==> (#[trigger] games_v(gs@)[k]).0 != key
            },
            None => forall|k: int| 0 <= k < gs@.len() ==> (#[trigger] games_v(gs@)[k]).0 != key,
        },
{
    let mut j: usize = 0;
    while j < gs.len()
        invariant
            0 <= j <= gs@.len(),
            forall|k: int| 0 <= k < j ==> (#[trigger] games_v(gs@)[k]).0 != key,
        decreases gs@.len() - j,
    {
        if gs[j].0 == key {
            return Some(j);
        }
        j += 1;
    }
    None
}

/// Binds or rebinds `key` in the reverse map.
fn upsert_map_entry(m: &mut Vec<(i64, i32)>, key: i64, val: i32)
    ensures
        final(m)@ == alist_upsert(old(m)@, key, val),
{
    let ghost m0 = old(m)@;
    match player_map_index(m, key) {
        Some(j) => {
            m.set(j, (key, val));
            proof {
                lemma_upsert_found(m0, key, val, j as int);
                assert(m@ =~= m0.update(j as int, (key, val)));
            }
        },
        None => {
            m.push((key, val));
            proof {
                lemma_upsert_absent(m0, key, val);
                assert(m@ =~= m0.push((key, val)));
            }
        },
    }
}

impl LocalGameManager {
    pub open spec fn wf(&self) -> bool {
        game_store_wf(self@)
    }

    /// An empty store.
    pub fn new() -> (r: LocalGameManager)
        ensures
            r.wf(),
            r@.games == Seq::<(i64, GameStateV)>::empty(),
            r@.player_map == Seq::<(i64, i32)>::empty(),
    {
        let r = LocalGameManager { games: Vec::new(), player_map: Vec::new() };
        proof {
            assert(games_v(Seq::<(i64, GameV1)>::empty()) =~= Seq::<(i64, GameStateV)>::empty());
        }
        r
    }

    /// The game a player currently belongs to, read-only.
    pub fn get_player_game(&self, chat_id: i64) -> (r: Option<&GameV1>)
        requires
            self.wf(),
        ensures
            match r {
                Some(g) => {
                    &&& (alist_lookup(self@.player_map, chat_id) matches Some(gid)
                        && alist_lookup(self@.games, gid as i64) == Some(g@))
                    &&& g.wf()
                },
                None => match alist_lookup(self@.player_map, chat_id) {
                    Some(gid) => alist_lookup(self@.games, gid as i64) is None,
                    None => true,
                },
            },
    {
        match player_map_index(&self.player_map, chat_id) {
            Some(j) => {
                proof {
                    lemma_lookup_at(self@.player_map, chat_id, j as int);
                }
                let gid = self.player_map[j].1;
                match game_index(&self.games, gid as i64) {
                    Some(w) => {
                        proof {
                            lemma_lookup_at(self@.games, gid as i64, w as int);
                        }
                        Some(&self.games[w].1)
                    },
                    None => {
                        proof {
                            lemma_lookup_none(self@.games, gid as i64);
                        }
                        None
                    },
                }
            },
            None => {
                proof {
                    lemma_lookup_none(self@.player_map, chat_id);
                }
                None
            },
        }
    }

    /// Files a new game under an unused random id and points every player of
    /// its roster at it.  After too many id collisions in a row the attempt
    /// is given up and the store is unchanged.
    pub fn add_game(&mut self, game: GameV1) -> (r: Result<GameId, &'static str>)
        requires
            old(self).wf(),
            game.wf(),
        ensures
            final(self).wf(),
            match r {
                Ok(gid) => {
                    &&& !alist_has(old(self)@.games, gid.0 as i64)
                    &&& 1000 <= gid.0 < 10000
                    &&& final(self)@.games == alist_upsert(old(self)@.games, gid.0 as i64, game@)
                    &&& final(self)@.player_map == map_players(
                        old(self)@.player_map,
                        game@.players.map_values(|p: crate::game::PlayerV| p.chat_id),
                        gid.0,
                    )
                },
                Err(m) => final(self)@ == old(self)@,
            },
    {
        let mut tries: usize = 0;
        while tries < 64
            invariant
                old(self).wf(),
                self@ == old(self)@,
                game.wf(),
            decreases 64 - tries,
        {
            let id = crate::rng::gen_range_i32(1_000, 10_000);
            match game_index(&self.games, id as i64) {
                Some(_) => {},
                None => {
                    proof {
                        lemma_lookup_none(self@.games, id as i64);
                    }
                    let ghost games0 = self@.games;
                    let ghost map0 = self@.player_map;
                    let ghost pids = game@.players.map_values(
                        |p: crate::game::PlayerV| p.chat_id,
                    );

                    // point every roster member at the new game
                    let roster = game.get_players();
                    let n = roster.len();
                    let mut i: usize = 0;
                    while i < n
                        invariant
                            0 <= i <= n,
                            n == game@.players.len(),
                            players_v(roster@) == game@.players,
                            game.wf(),
                            pids == game@.players.map_values(
                                |p: crate::game::PlayerV| p.chat_id,
                            ),
                            games_v(self.games@) == games0,
                            old(self).wf(),
                            games0 == old(self)@.games,
                            map0 == old(self)@.player_map,
                            self.player_map@ == map_players(
                                map0,
                                pids.subrange(0, i as int),
                                id,
                            ),
                            alist_keys_distinct(self.player_map@),
                        decreases n - i,
                    {
                        proof {
                            assert(pids.subrange(0, i + 1 as int).drop_last() =~= pids.subrange(
                                0,
                                i as int,
                            ));
                            assert(pids.subrange(0, i + 1 as int).last() == pids[i as int]);
                        }
                        let ghost before = self.player_map@;
                        let pid = roster[i].chat_id;
                        proof {
                            assert(players_v(roster@)[i as int].chat_id == pids[i as int]);
                        }
                        upsert_map_entry(&mut self.player_map, pid, id);
                        proof {
                            lemma_upsert_props(before, pid, id);
                        }
                        i += 1;
                    }
                    proof {
                        assert(pids.subrange(0, pids.len() as int) =~= pids);
                    }

                    self.games.push((id as i64, game));
                    proof {
                        lemma_upsert_absent(games0, id as i64, games_v(self.games@).last().1);
                        assert(games_v(self.games@) =~= games0.push(
                            (id as i64, games_v(self.games@).last().1),
                        ));
                        lemma_upsert_props(games0, id as i64, games_v(self.games@).last().1);
                        assert forall|k: int|
                            0 <= k < games_v(self.games@).len() implies state_wf(
                            (#[trigger] games_v(self.games@)[k]).1,
                        ) by {
                            if k < games0.len() {
                                assert(games_v(self.games@)[k] == games0[k]);
                            }
                        }
                    }
                    return Ok(GameId(id));
                },
            }
            tries += 1;
        }
        Err("no unused game id was found")
    }

    /// Removes and returns the game a player belongs to.  The reverse map
    /// keeps its entries; they dangle until the game is filed again.
    pub fn remove_game(&mut self, chat_id: i64) -> (r: Option<GameV1>)
        requires
            old(self).wf(),
        ensures
            final(self).wf(),
            match r {
                Some(g) => {
                    &&& (alist_lookup(old(self)@.player_map, chat_id) matches Some(gid)
                        && alist_lookup(old(self)@.games, gid as i64) == Some(g@)
                        && final(self)@.games == alist_remove(old(self)@.games, gid as i64))
                    &&& g.wf()
                    &&& final(self)@.player_map == old(self)@.player_map
                },
                None => {
                    &&& final(self)@ == old(self)@
                    &&& match alist_lookup(old(self)@.player_map, chat_id) {
                        Some(gid) => alist_lookup(old(self)@.games, gid as i64) is None,
                        None => true,
                    }
                },
            },
    {
        let j = match player_map_index(&self.player_map, chat_id) {
            Some(j) => j,
            None => {
                proof {
                    lemma_lookup_none(self@.player_map, chat_id);
                }
                return None;
            },
        };
        proof {
            lemma_lookup_at(self@.player_map, chat_id, j as int);
        }
        let gid = self.player_map[j].1;
        let w = match game_index(&self.games, gid as i64) {
            Some(w) => w,
            None => {
                proof {
                    lemma_lookup_none(self@.games, gid as i64);
                }
                return None;
            },
        };
        proof {
            lemma_lookup_at(self@.games, gid as i64, w as int);
        }
        let ghost games0 = self@.games;
        let entry = self.games.remove(w);
        proof {
            lemma_remove_found(games0, gid as i64, w as int);
            assert(games_v(self.games@) =~= games0.remove(w as int));
            assert(games_v(self.games@) =~= alist_remove(games0, gid as i64));
            lemma_remove_props(games0, gid as i64);
            assert forall|k: int| 0 <= k < games_v(self.games@).len() implies state_wf(
                (#[trigger] games_v(self.games@)[k]).1,
            ) by {
                if k < w {
                    assert(games_v(self.games@)[k] == games0[k]);
                } else {
                    assert(games_v(self.games@)[k] == games0[k + 1]);
                }
            }
        }
        Some(entry.1)
    }

    /// Removes and returns the game a player belongs to together with its
    /// id, so a caller can advance the game and file it back with
    /// `put_game`.  The reverse map keeps its entries meanwhile.
    pub fn take_player_game(&mut self, chat_id: i64) -> (r: Option<(GameId, GameV1)>)
        requires
            old(self).wf(),
        ensures
            final(self).wf(),
            match r {
                Some(pair) => {
                    &&& alist_lookup(old(self)@.player_map, chat_id) == Some(pair.0.0)
                    &&& alist_lookup(old(self)@.games, pair.0.0 as i64) == Some(pair.1@)
                    &&& final(self)@.games == alist_remove(old(self)@.games, pair.0.0 as i64)
                    &&& pair.1.wf()
                    &&& final(self)@.player_map == old(self)@.player_map
                },
                None => {
                    &&& final(self)@ == old(self)@
                    &&& match alist_lookup(old(self)@.player_map, chat_id) {
                        Some(gid) => alist_lookup(old(self)@.games, gid as i64) is None,
                        None => true,
                    }
                },
            },
    {
        let j = match player_map_index(&self.player_map, chat_id) {
            Some(j) => j,
            None => {
                proof {
                    lemma_lookup_none(self@.player_map, chat_id);
                }
                return None;
            },
        };
        proof {
            lemma_lookup_at(self@.player_map, chat_id, j as int);
        }
        let gid = self.player_map[j].1;
        let w = match game_index(&self.games, gid as i64) {
            Some(w) => w,
            None => {
                proof {
                    lemma_lookup_none(self@.games, gid as i64);
                }
                return None;
            },
        };
        proof {
            lemma_lookup_at(self@.games, gid as i64, w as int);
        }
        let ghost games0 = self@.games;
        let entry = self.games.remove(w);
        proof {
            lemma_remove_found(games0, gid as i64, w as int);
            assert(games_v(self.games@) =~= games0.remove(w as int));
            assert(games_v(self.games@) =~= alist_remove(games0, gid as i64));
            lemma_remove_props(games0, gid as i64);
            assert forall|k: int| 0 <= k < games_v(self.games@).len() implies state_wf(
                (#[trigger] games_v(self.games@)[k]).1,
            ) by {
                if k < w {
                    assert(games_v(self.games@)[k] == games0[k]);
                } else {
                    assert(games_v(self.games@)[k] == games0[k + 1]);
                }
            }
        }
        Some((GameId(gid), entry.1))
    }

    /// Files a game back under a given id, replacing any game stored there.
    /// Together with `remove_game` this lets a caller mutate a stored game.
    pub fn put_game(&mut self, id: GameId, game: GameV1)
        requires
            old(self).wf(),
            game.wf(),
        ensures
            final(self).wf(),
            final(self)@.games == alist_upsert(old(self)@.games, id.0 as i64, game@),
            final(self)@.player_map == old(self)@.player_map,
    {
        let ghost games0 = self@.games;
        let ghost gv = game@;
        match game_index(&self.games, id.0 as i64) {
            Some(w) => {
                self.games.set(w, (id.0 as i64, game));
                proof {
                    lemma_upsert_found(games0, id.0 as i64, gv, w as int);
                    assert(games_v(self.games@) =~= games0.update(w as int, (id.0 as i64, gv)));
                    lemma_upsert_props(games0, id.0 as i64, gv);
                    assert forall|k: int| 0 <= k < games_v(self.games@).len() implies state_wf(
                        (#[trigger] games_v(self.games@)[k]).1,
                    ) by {
                        if k != w {
                            assert(games_v(self.games@)[k] == games0[k]);
                        }
                    }
                }
            },
            None => {
                self.games.push((id.0 as i64, game));
                proof {
                    lemma_upsert_absent(games0, id.0 as i64, gv);
                    assert(games_v(self.games@) =~= games0.push((id.0 as i64, gv)));
                    lemma_upsert_props(games0, id.0 as i64, gv);
                    assert forall|k: int| 0 <= k < games_v(self.games@).len() implies state_wf(
                        (#[trigger] games_v(self.games@)[k]).1,
                    ) by {
                        if k < games0.len() {
                            assert(games_v(self.games@)[k] == games0[k]);
                        }
                    }
                }
            },
        }
    }

    /// Unbinds a player from their game, returning that game's id.
    pub fn quit_game(&mut self, chat_id: i64) -> (r: Result<GameId, &'static str>)
        requires
            old(self).wf(),
        ensures
            final(self).wf(),
            match r {
                Ok(gid) => {
                    &&& alist_lookup(old(self)@.player_map, chat_id) == Some(gid.0)
                    &&& alist_has(old(self)@.games, gid.0 as i64)
                    &&& final(self)@.player_map == alist_remove(old(self)@.player_map, chat_id)
                    &&& final(self)@.games == old(self)@.games
                },
                Err(m) => {
                    &&& final(self)@ == old(self)@
                    &&& (m@ == "Player not in a game"@ <==> !alist_has(
                        old(self)@.player_map,
                        chat_id,
                    ))
                },
            },
    {
        proof {
            reveal_strlit("Player not in a game");
            reveal_strlit("Internal error: player_map and games not synced");
            assert("Player not in a game"@.len() == 20);
            assert("Internal error: player_map and games not synced"@.len() == 47);
        }
        let j = match player_map_index(&self.player_map, chat_id) {
            Some(j) => j,
            None => {
                proof {
                    lemma_lookup_none(self@.player_map, chat_id);
                }
                return Err("Player not in a game");
            },
        };
        proof {
            lemma_lookup_at(self@.player_map, chat_id, j as int);
        }
        let gid = self.player_map[j].1;
        match game_index(&self.games, gid as i64) {
            Some(w) => {
                proof {
                    lemma_lookup_at(self@.games, gid as i64, w as int);
                }
            },
            None => {
                proof {
                    lemma_lookup_none(self@.games, gid as i64);
                }
                return Err("Internal error: player_map and games not synced");
            },
        }
        let ghost map0 = self@.player_map;
        let _ = self.player_map.remove(j);
        proof {
            lemma_remove_found(map0, chat_id, j as int);
            assert(self.player_map@ =~= alist_remove(map0, chat_id));
            lemma_remove_props(map0, chat_id);
        }
        Ok(GameId(gid))
    }
}

} // verus!
