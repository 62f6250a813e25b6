//! The game engine: one `GameV1` value per running game, advanced through
//! Night, Voting, Trial and Ending by `end_phase`, with every rule of the
//! progression stated over the mathematical view `GameStateV`.

use vstd::prelude::*;

use crate::game::alist::{alist_has, alist_keys_distinct, alist_lookup, alist_upsert};
use crate::game::roster::{
    apply_kills, find_player, kill_one, legal_kill_target, roster_wf, vote_options_of, winner_of,
};
use crate::game::tally::{count_verdicts, first_top, max_vote_count, nodup, tied_count, vote_count};
use crate::game::text::{dec_of, join_comma};
use crate::lobby_manager::Lobby;
use crate::game::{
    actions_v, players_v, GameError, GamePhase, PhaseV, Player, PlayerV, Role, Verdict,
    NOBODY_CHAT_ID, VOTE_OPTION_NOBODY,
};

verus! {

/// A running game: the fixed roster, the active phase, the most recent
/// pre-transition phase (the history needed for stalemate detection), the
/// narration of the last transition, and the transport's opaque poll
/// handles.
pub struct GameV1 {
    players: Vec<Player>,
    phase: GamePhase,
    previous_phase: Option<GamePhase>,
    transition_message: String,
    poll_msg_ids: Vec<(i64, i32)>,
}

/// Mathematical image of a `GameV1`.
#[verifier::ext_equal]
pub ghost struct GameStateV {
    pub players: Seq<PlayerV>,
    pub phase: PhaseV,
    pub previous_phase: Option<PhaseV>,
    pub transition_message: Seq<char>,
    pub poll_msg_ids: Seq<(i64, i32)>,
}

impl View for GameV1 {
    type V = GameStateV;

    closed spec fn view(&self) -> GameStateV {
        GameStateV {
            players: players_v(self.players@),
            phase: self.phase@,
            previous_phase: match self.previous_phase {
                Option::Some(p) => Option::Some(p@),
                Option::None => Option::None,
            },
            transition_message: self.transition_message@,
            poll_msg_ids: self.poll_msg_ids@,
        }
    }
}

/// Recorded actions come from distinct living Mafia members and aim at legal
/// targets.
pub open spec fn night_wf(actions: Seq<(i64, i64)>, ps: Seq<PlayerV>) -> bool {
    &&& alist_keys_distinct(actions)
    &&& forall|k: int| 0 <= k < actions.len() ==> {
        &&& (find_player(ps, (#[trigger] actions[k]).0) matches Some(a) && a.is_alive && a.role
            == Role::Mafia)
        &&& legal_kill_target(ps, actions[k].1)
    }
}

/// The ballot is exactly the one derived from the roster, and votes come
/// from distinct living voters with duplicate-free choice lists.
pub open spec fn voting_wf(
    options: Seq<(i64, Seq<char>)>,
    votes: Seq<(i64, Seq<i64>)>,
    ps: Seq<PlayerV>,
) -> bool {
    &&& options == vote_options_of(ps)
    &&& alist_keys_distinct(votes)
    &&& forall|k: int| 0 <= k < votes.len() ==> {
        &&& (find_player(ps, (#[trigger] votes[k]).0) matches Some(p) && p.is_alive)
        &&& nodup(votes[k].1)
    }
}

/// The defendant is a living player and verdicts come from distinct living
/// jurors other than the defendant.
pub open spec fn trial_wf(
    defendant_id: i64,
    verdicts: Seq<(i64, Verdict)>,
    ps: Seq<PlayerV>,
) -> bool {
    &&& (find_player(ps, defendant_id) matches Some(p) && p.is_alive)
    &&& alist_keys_distinct(verdicts)
    &&& forall|k: int| 0 <= k < verdicts.len() ==> {
        &&& (find_player(ps, (#[trigger] verdicts[k]).0) matches Some(p) && p.is_alive)
        &&& verdicts[k].0 != defendant_id
    }
}

pub open spec fn phase_wf(ph: PhaseV, ps: Seq<PlayerV>) -> bool {
    match ph {
        PhaseV::Night { actions } => night_wf(actions, ps),
        PhaseV::Voting { options, votes } => voting_wf(options, votes, ps),
        PhaseV::Trial { defendant_id, verdicts } => trial_wf(defendant_id, verdicts, ps),
        PhaseV::Ending => true,
    }
}

/// The engine's invariant: a well-formed roster and a phase whose maps only
/// speak of it.  Established at creation, preserved by every operation.
pub open spec fn state_wf(s: GameStateV) -> bool {
    &&& roster_wf(s.players)
    &&& phase_wf(s.phase, s.players)
}

/// Every living Mafia member has recorded an action; Civilians never block.
pub open spec fn night_complete(actions: Seq<(i64, i64)>, ps: Seq<PlayerV>) -> bool {
    forall|i: int|
        0 <= i < ps.len() && (#[trigger] ps[i]).is_alive && ps[i].role == Role::Mafia
            ==> alist_has(actions, ps[i].chat_id)
}

/// Every living player has voted.
pub open spec fn voting_complete(votes: Seq<(i64, Seq<i64>)>, ps: Seq<PlayerV>) -> bool {
    forall|i: int|
        0 <= i < ps.len() && (#[trigger] ps[i]).is_alive ==> alist_has(votes, ps[i].chat_id)
}

/// Every living player other than the defendant has submitted a verdict.
pub open spec fn trial_complete(
    verdicts: Seq<(i64, Verdict)>,
    defendant_id: i64,
    ps: Seq<PlayerV>,
) -> bool {
    forall|i: int|
        0 <= i < ps.len() && (#[trigger] ps[i]).is_alive && ps[i].chat_id != defendant_id
            ==> alist_has(verdicts, ps[i].chat_id)
}

pub open spec fn phase_complete(s: GameStateV) -> bool {
    match s.phase {
        PhaseV::Night { actions } => night_complete(actions, s.players),
        PhaseV::Voting { options: _, votes } => voting_complete(votes, s.players),
        PhaseV::Trial { defendant_id, verdicts } => trial_complete(
            verdicts,
            defendant_id,
            s.players,
        ),
        PhaseV::Ending => false,
    }
}

/// "<names> died last night", or the no-victim variant.
pub open spec fn night_message(killed: Seq<Seq<char>>) -> Seq<char> {
    if killed.len() > 0 {
        join_comma(killed) + " died last night"@
    } else {
        "Nobody died last night"@
    }
}

pub open spec fn winner_message(w: Seq<char>) -> Seq<char> {
    w + " won the game!"@
}

pub open spec fn trial_open_message(name: Seq<char>) -> Seq<char> {
    "Now begins the trial for "@ + name + ":"@
}

pub open spec fn lynch_message(g: nat, i: nat, name: Seq<char>) -> Seq<char> {
    "By a vote of "@ + dec_of(g) + " guilty to "@ + dec_of(i) + " innocent, "@ + name
        + " was lynched"@
}

pub open spec fn release_message(g: nat, i: nat, name: Seq<char>) -> Seq<char> {
    "By a vote of "@ + dec_of(i) + " innocent to "@ + dec_of(g) + " guilty, "@ + name
        + " was released"@
}

/// The two vote maps bind the same voters, and each voter chose the same set
/// of targets in both rounds (order and duplicates are irrelevant).
pub open spec fn votes_same(cur: Seq<(i64, Seq<i64>)>, prev: Seq<(i64, Seq<i64>)>) -> bool {
    &&& cur.len() == prev.len()
    &&& forall|k: int| 0 <= k < cur.len() ==> (alist_lookup(prev, (#[trigger] cur[k]).0)
        matches Some(pc) && cur[k].1.to_set() == pc.to_set())
}

/// Two consecutive Voting rounds with identical per-voter chosen sets.
pub open spec fn voting_stalemate(s: GameStateV) -> bool {
    s.phase matches PhaseV::Voting { votes, .. } && s.previous_phase matches Some(
        PhaseV::Voting { votes: pv, .. },
    ) && votes_same(votes, pv)
}

/// Night resolution: apply the kills in order, snapshot the old phase, then
/// either end the game or open a voting round over the survivors.
pub open spec fn resolve_night(s: GameStateV) -> GameStateV {
    let actions = s.phase->Night_actions;
    let kr = apply_kills(s.players, actions);
    match winner_of(kr.0) {
        Some(w) => GameStateV {
            players: kr.0,
            phase: PhaseV::Ending,
            previous_phase: Some(s.phase),
            transition_message: winner_message(w),
            poll_msg_ids: Seq::empty(),
        },
        None => GameStateV {
            players: kr.0,
            phase: PhaseV::Voting { options: vote_options_of(kr.0), votes: Seq::empty() },
            previous_phase: Some(s.phase),
            transition_message: night_message(kr.1),
            poll_msg_ids: Seq::empty(),
        },
    }
}

/// Voting resolution, in priority order: stalemate to Night, a lone "Nobody"
/// plurality to Night, a lone player plurality to Trial, any wider tie to a
/// fresh re-vote.
pub open spec fn resolve_voting(s: GameStateV) -> GameStateV {
    let options = s.phase->Voting_options;
    let votes = s.phase->Voting_votes;
    let m = max_vote_count(options, votes);
    let t = tied_count(options, votes, m);
    let top = first_top(options, votes, m);
    if voting_stalemate(s) {
        GameStateV {
            players: s.players,
            phase: PhaseV::Night { actions: Seq::empty() },
            previous_phase: Some(s.phase),
            transition_message: "No change in votes 2 rounds in a row. Moving to night time..."@,
            poll_msg_ids: Seq::empty(),
        }
    } else if t == 1 && top.0 == VOTE_OPTION_NOBODY {
        GameStateV {
            players: s.players,
            phase: PhaseV::Night { actions: Seq::empty() },
            previous_phase: Some(s.phase),
            transition_message: "Most popular vote was not to lynch. Moving to night time..."@,
            poll_msg_ids: Seq::empty(),
        }
    } else if t == 1 {
        GameStateV {
            players: s.players,
            phase: PhaseV::Trial { defendant_id: top.0, verdicts: Seq::empty() },
            previous_phase: Some(s.phase),
            transition_message: trial_open_message(top.1),
            poll_msg_ids: Seq::empty(),
        }
    } else {
        GameStateV {
            players: s.players,
            phase: PhaseV::Voting { options: vote_options_of(s.players), votes: Seq::empty() },
            previous_phase: Some(s.phase),
            transition_message: "Multiple options were tied for first place. Moving to re-vote"@,
            poll_msg_ids: Seq::empty(),
        }
    }
}

/// Trial resolution: a guilty-or-tied count lynches the defendant, an
/// innocent majority releases them; then either end the game or return to
/// Night.
pub open spec fn resolve_trial(s: GameStateV) -> GameStateV {
    let d = s.phase->Trial_defendant_id;
    let vs = s.phase->Trial_verdicts;
    let g = count_verdicts(vs, Verdict::Guilty);
    let inn = count_verdicts(vs, Verdict::Innocent);
    let name = match find_player(s.players, d) {
        Some(p) => p.username,
        None => Seq::empty(),
    };
    let ps2 = if g >= inn {
        kill_one(s.players, d).0
    } else {
        s.players
    };
    let msg = if g >= inn {
        lynch_message(g, inn, name)
    } else {
        release_message(g, inn, name)
    };
    match winner_of(ps2) {
        Some(w) => GameStateV {
            players: ps2,
            phase: PhaseV::Ending,
            previous_phase: Some(s.phase),
            transition_message: winner_message(w),
            poll_msg_ids: Seq::empty(),
        },
        None => GameStateV {
            players: ps2,
            phase: PhaseV::Night { actions: Seq::empty() },
            previous_phase: Some(s.phase),
            transition_message: msg,
            poll_msg_ids: Seq::empty(),
        },
    }
}

/// The actor exists and is alive, and the target is on the night menu.
pub open spec fn night_action_legal(s: GameStateV, actor: i64, target: i64) -> bool {
    &&& (find_player(s.players, actor) matches Some(a) && a.is_alive)
    &&& legal_kill_target(s.players, target)
}

/// Effect of a legal `add_night_action`: a Mafia actor's action is recorded
/// or replaced; a Civilian actor changes nothing.
pub open spec fn night_record(s: GameStateV, actor: i64, target: i64) -> GameStateV {
    if find_player(s.players, actor) matches Some(a) && a.role == Role::Mafia {
        GameStateV {
            phase: PhaseV::Night {
                actions: alist_upsert(s.phase->Night_actions, actor, target),
            },
            ..s
        }
    } else {
        s
    }
}

/// Every chosen index points into the ballot.
pub open spec fn vote_choices_valid(options: Seq<(i64, Seq<char>)>, choices: Seq<i32>) -> bool {
    forall|k: int| 0 <= k < choices.len() ==> 0 <= #[trigger] choices[k] < options.len()
}

/// The target ids behind a list of ballot indexes.
pub open spec fn resolve_choices(options: Seq<(i64, Seq<char>)>, choices: Seq<i32>) -> Seq<i64> {
    choices.map_values(|c: i32| options[c as int].0)
}

/// Keeps the first occurrence of every element, in order.
pub open spec fn dedup(s: Seq<i64>) -> Seq<i64>
    decreases s.len(),
{
    if s.len() == 0 {
        Seq::empty()
    } else if s.drop_last().contains(s.last()) {
        dedup(s.drop_last())
    } else {
        dedup(s.drop_last()).push(s.last())
    }
}

pub proof fn lemma_dedup_contains(s: Seq<i64>)
    ensures
        forall|x: i64| dedup(s).contains(x) <==> s.contains(x),
    decreases s.len(),
{
    if s.len() > 0 {
        lemma_dedup_contains(s.drop_last());
        assert forall|x: i64| dedup(s).contains(x) <==> s.contains(x) by {
            let d = dedup(s.drop_last());
            assert(s.contains(x) <==> (s.drop_last().contains(x) || x == s.last())) by {
                if s.contains(x) {
                    let w = choose|w: int| 0 <= w < s.len() && s[w] == x;
                    if w < s.len() - 1 {
                        assert(s.drop_last()[w] == x);
                    }
                }
                if s.drop_last().contains(x) {
                    let w = choose|w: int| 0 <= w < s.drop_last().len() && s.drop_last()[w] == x;
                    assert(s[w] == x);
                }
                if x == s.last() {
                    assert(s[s.len() - 1] == x);
                }
            }
            if s.drop_last().contains(s.last()) {
                assert(dedup(s) == d);
            } else {
                assert(dedup(s) == d.push(s.last()));
                assert(d.push(s.last()).contains(x) <==> (d.contains(x) || x == s.last())) by {
                    if d.push(s.last()).contains(x) {
                        let w = choose|w: int|
                            0 <= w < d.push(s.last()).len() && d.push(s.last())[w] == x;
                        if w < d.len() {
                            assert(d[w] == x);
                        }
                    }
                    if d.contains(x) {
                        let w = choose|w: int| 0 <= w < d.len() && d[w] == x;
                        assert(d.push(s.last())[w] == x);
                    }
                    if x == s.last() {
                        assert(d.push(s.last())[d.len() as int] == x);
                    }
                }
            }
        }
    }
}

pub proof fn lemma_dedup_nodup(s: Seq<i64>)
    ensures
        nodup(dedup(s)),
    decreases s.len(),
{
    if s.len() > 0 {
        lemma_dedup_nodup(s.drop_last());
        lemma_dedup_contains(s.drop_last());
        if !s.drop_last().contains(s.last()) {
            let d = dedup(s.drop_last());
            assert forall|i: int, j: int| 0 <= i < j < dedup(s).len() implies dedup(s)[i]
                != dedup(s)[j] by {
                if j < d.len() {
                    assert(dedup(s)[i] == d[i] && dedup(s)[j] == d[j]);
                } else {
                    assert(dedup(s)[j] == s.last());
                    assert(dedup(s)[i] == d[i]);
                    assert(d.contains(d[i]));
                }
            }
        }
    }
}

/// The voter exists and is alive.
pub open spec fn vote_legal(s: GameStateV, voter: i64) -> bool {
    find_player(s.players, voter) matches Some(p) && p.is_alive
}

/// Effect of a legal `add_vote`: the voter's resolved, deduplicated choice
/// list is stored, replacing any earlier one.
pub open spec fn vote_record(s: GameStateV, voter: i64, chosen: Seq<i64>) -> GameStateV {
    GameStateV {
        phase: PhaseV::Voting {
            options: s.phase->Voting_options,
            votes: alist_upsert(s.phase->Voting_votes, voter, chosen),
        },
        ..s
    }
}

/// The juror exists, is alive, and is not the defendant.
pub open spec fn verdict_legal(s: GameStateV, juror: i64) -> bool {
    &&& (find_player(s.players, juror) matches Some(p) && p.is_alive)
    &&& juror != s.phase->Trial_defendant_id
}

/// The verdict menu, in ballot order.
pub open spec fn verdict_of_index(c: i32) -> Verdict {
    if c == 0 {
        Verdict::Guilty
    } else if c == 1 {
        Verdict::Innocent
    } else {
        Verdict::Abstain
    }
}

/// Effect of a legal `add_verdict`: the juror's verdict is stored, replacing
/// any earlier one.
pub open spec fn verdict_record(s: GameStateV, juror: i64, v: Verdict) -> GameStateV {
    GameStateV {
        phase: PhaseV::Trial {
            defendant_id: s.phase->Trial_defendant_id,
            verdicts: alist_upsert(s.phase->Trial_verdicts, juror, v),
        },
        ..s
    }
}


impl GameV1 {
    /// The engine's invariant over the abstract state.
    pub open spec fn wf(&self) -> bool {
        state_wf(self@)
    }

    /// Creates a game from a finalized lobby: the members become the roster
    /// in join order, all alive and connected, with exactly one uniformly
    /// chosen Mafia member; play starts in an empty Night.
    pub fn from_lobby(lobby: &Lobby) -> (r: Result<GameV1, GameError>)
        requires
            lobby.wf(),
        ensures
            match r {
                Ok(g) => {
                    &&& lobby@.users.len() >= 3
                    &&& g.wf()
                    &&& g@.players.len() == lobby@.users.len()
                    &&& forall|i: int|
                        0 <= i < g@.players.len() ==> {
                            let p = #[trigger] g@.players[i];
                            &&& p.chat_id == lobby@.users[i].chat_id
                            &&& p.username == lobby@.users[i].username
                            &&& p.is_alive
                            &&& p.is_connected
                        }
                    &&& crate::game::roster::count_role(g@.players, Role::Mafia) == 1
                    &&& crate::game::roster::count_role(g@.players, Role::Civilian)
                        == g@.players.len() - 1
                    &&& g@.phase == (PhaseV::Night { actions: Seq::<(i64, i64)>::empty() })
                    &&& g@.previous_phase is None
                    &&& g@.transition_message == "Welcome to the Mafia Game"@
                    &&& g@.poll_msg_ids == Seq::<(i64, i32)>::empty()
                },
                Err(e) => e == GameError::InsufficientPlayers && lobby@.users.len() < 3,
            },
    {
        if lobby.users.len() < 3 {
            return Err(GameError::InsufficientPlayers);
        }
        let n = lobby.users.len();

        // one Mafia role, the rest Civilian
        let mut roles: Vec<Role> = Vec::new();
        roles.push(Role::Mafia);
        proof {
            assert(roles@.drop_last() =~= Seq::<Role>::empty());
            assert(crate::game::roster::count_role_in(roles@.drop_last(), Role::Mafia) == 0);
            assert(crate::game::roster::count_role_in(roles@.drop_last(), Role::Civilian) == 0);
        }
        let mut i: usize = 1;
        while i < n
            invariant
                1 <= i <= n,
                roles@.len() == i,
                crate::game::roster::count_role_in(roles@, Role::Mafia) == 1,
                crate::game::roster::count_role_in(roles@, Role::Civilian) == i - 1,
            decreases n - i,
        {
            let ghost r0 = roles@;
            roles.push(Role::Civilian);
            proof {
                assert(roles@.drop_last() =~= r0);
                assert(roles@.last() == Role::Civilian);
            }
            i += 1;
        }

        // uniformly permute the role vector; member order stays fixed
        let ghost before = roles@;
        crate::rng::shuffle_roles(&mut roles);
        proof {
            crate::game::roster::lemma_count_role_in_multiset(before, Role::Mafia);
            crate::game::roster::lemma_count_role_in_multiset(roles@, Role::Mafia);
            crate::game::roster::lemma_count_role_in_multiset(before, Role::Civilian);
            crate::game::roster::lemma_count_role_in_multiset(roles@, Role::Civilian);
            before.to_multiset_ensures();
            roles@.to_multiset_ensures();
        }
        assert(crate::game::roster::count_role_in(roles@, Role::Mafia) == 1);
        assert(crate::game::roster::count_role_in(roles@, Role::Civilian) == n - 1);
        assert(roles@.len() == n) by {
            before.to_multiset_ensures();
            roles@.to_multiset_ensures();
        }

        // zip members with roles, in join order
        let mut players: Vec<Player> = Vec::new();
        let mut i: usize = 0;
        while i < n
            invariant
                0 <= i <= n,
                n == lobby.users@.len(),
                roles@.len() == n,
                players@.len() == i,
                forall|k: int|
                    0 <= k < i ==> {
                        let p = #[trigger] players_v(players@)[k];
                        &&& p.chat_id == lobby@.users[k].chat_id
                        &&& p.username == lobby@.users[k].username
                        &&& p.is_alive
                        &&& p.is_connected
                        &&& p.role == roles@[k]
                    },
                crate::game::roster::count_role(players_v(players@), Role::Mafia)
                    == crate::game::roster::count_role_in(roles@.subrange(0, i as int), Role::Mafia),
                crate::game::roster::count_role(players_v(players@), Role::Civilian)
                    == crate::game::roster::count_role_in(
                    roles@.subrange(0, i as int),
                    Role::Civilian,
                ),
            decreases n - i,
        {
            let ghost pv0 = players_v(players@);
            let name = lobby.users[i].username.clone();
            players.push(
                Player {
                    chat_id: lobby.users[i].chat_id,
                    username: name,
                    role: roles[i],
                    is_alive: true,
                    is_connected: true,
                },
            );
            proof {
                assert(players_v(players@) =~= pv0.push(players@[i as int]@));
                assert(players_v(players@).drop_last() =~= pv0);
                assert(roles@.subrange(0, i + 1 as int).drop_last() =~= roles@.subrange(
                    0,
                    i as int,
                ));
                assert(roles@.subrange(0, i + 1 as int).last() == roles@[i as int]);
            }
            i += 1;
        }
        proof {
            assert(roles@.subrange(0, n as int) =~= roles@);
        }

        let game = GameV1 {
            players,
            phase: GamePhase::Night { actions: Vec::new() },
            previous_phase: None,
            transition_message: String::from_str("Welcome to the Mafia Game"),
            poll_msg_ids: Vec::new(),
        };
        proof {
            let ps = game@.players;
            assert(crate::game::roster::ids_distinct(ps)) by {
                assert(forall|i: int, j: int|
                    0 <= i < j < ps.len() ==> (#[trigger] ps[i]).chat_id
                        != (#[trigger] ps[j]).chat_id) by {
                    assert(forall|i: int|
                        0 <= i < ps.len() ==> (#[trigger] ps[i]).chat_id
                            == lobby@.users[i].chat_id);
                }
            }
            assert(crate::game::roster::no_sentinel(ps)) by {
                assert(forall|i: int|
                    0 <= i < ps.len() ==> (#[trigger] ps[i]).chat_id == lobby@.users[i].chat_id);
            }
            assert(game@.phase == (PhaseV::Night { actions: actions_v(Seq::<
                crate::game::Action,
            >::empty()) }));
            assert(actions_v(Seq::<crate::game::Action>::empty()) =~= Seq::<(i64, i64)>::empty());
            assert(night_wf(Seq::<(i64, i64)>::empty(), ps));
        }
        Ok(game)
    }

    /// An independent copy of the whole game state.
    pub fn snapshot(&self) -> (r: GameV1)
        ensures
            r@ == self@,
    {
        let r = GameV1 {
            players: clone_players(&self.players),
            phase: self.phase.clone(),
            previous_phase: match &self.previous_phase {
                Some(p) => Some(p.clone()),
                None => None,
            },
            transition_message: self.transition_message.clone(),
            poll_msg_ids: crate::game::copy_vec(&self.poll_msg_ids),
        };
        proof {
            assert(r@ =~~= self@);
        }
        r
    }

    /// The roster, in join order.
    pub fn get_players(&self) -> (r: &Vec<Player>)
        ensures
            players_v(r@) == self@.players,
    {
        &self.players
    }

    /// The active phase.
    pub fn get_phase(&self) -> (r: &GamePhase)
        ensures
            r@ == self@.phase,
    {
        &self.phase
    }

    /// The snapshot taken just before the most recent transition, if any.
    pub fn get_previous_phase(&self) -> (r: &Option<GamePhase>)
        ensures
            match r {
                Some(p) => self@.previous_phase == Some(p@),
                None => self@.previous_phase is None,
            },
    {
        &self.previous_phase
    }

    /// The narration of the most recent `end_phase` result.
    pub fn get_transition_message(&self) -> (r: String)
        ensures
            r@ == self@.transition_message,
    {
        self.transition_message.clone()
    }

    /// The winning faction of the current roster, if the game is decided.
    pub fn get_winner(&self) -> (r: Option<String>)
        ensures
            match r {
                Some(w) => winner_of(self@.players) == Some(w@),
                None => winner_of(self@.players) is None,
            },
    {
        let mafia = crate::game::roster::living_mafia(&self.players);
        let civilians = crate::game::roster::living_civilians(&self.players);
        if mafia == 0 {
            Some(String::from_str("Civilians"))
        } else if mafia >= civilians {
            Some(String::from_str("Mafia"))
        } else {
            None
        }
    }

    /// Stores the transport's poll handles for the current round, replacing
    /// any earlier ones; only Voting and Trial rounds carry polls.
    pub fn add_poll_msg_ids(&mut self, poll_msg_ids: Vec<(i64, i32)>) -> (r: Result<
        (),
        GameError,
    >)
        requires
            old(self).wf(),
        ensures
            final(self).wf(),
            match r {
                Ok(()) => {
                    &&& (old(self)@.phase is Voting || old(self)@.phase is Trial)
                    &&& final(self)@ == (GameStateV { poll_msg_ids: poll_msg_ids@, ..old(self)@ })
                },
                Err(e) => {
                    &&& e == GameError::InvalidPhase
                    &&& !(old(self)@.phase is Voting) && !(old(self)@.phase is Trial)
                    &&& final(self)@ == old(self)@
                },
            },
    {
        match &self.phase {
            GamePhase::Voting { .. } | GamePhase::Trial { .. } => {
                self.poll_msg_ids = poll_msg_ids;
                Ok(())
            },
            _ => Err(GameError::InvalidPhase),
        }
    }

    /// Returns the stored poll handles, unchanged.
    pub fn get_poll_msg_ids(&self) -> (r: Result<Vec<(i64, i32)>, GameError>)
        ensures
            match r {
                Ok(v) => {
                    &&& (self@.phase is Voting || self@.phase is Trial)
                    &&& v@ == self@.poll_msg_ids
                },
                Err(e) => {
                    &&& e == GameError::InvalidPhase
                    &&& !(self@.phase is Voting) && !(self@.phase is Trial)
                },
            },
    {
        match &self.phase {
            GamePhase::Voting { .. } | GamePhase::Trial { .. } => Ok(
                crate::game::copy_vec(&self.poll_msg_ids),
            ),
            _ => Err(GameError::InvalidPhase),
        }
    }
}


/// Copies a roster.
fn clone_players(v: &Vec<Player>) -> (r: Vec<Player>)
    ensures
        players_v(r@) == players_v(v@),
{
    let mut r: Vec<Player> = Vec::new();
    let mut i: usize = 0;
    while i < v.len()
        invariant
            0 <= i <= v@.len(),
            r@.len() == i,
            players_v(r@) =~= players_v(v@.subrange(0, i as int)),
        decreases v@.len() - i,
    {
        let ghost r0 = r@;
        let p = v[i].clone();
        r.push(p);
        proof {
            assert forall|k: int| 0 <= k < r@.len() implies players_v(r@)[k] == players_v(
                v@.subrange(0, i + 1 as int),
            )[k] by {
                if k < i {
                    assert(players_v(r0)[k] == players_v(v@.subrange(0, i as int))[k]);
                    assert(r@[k] == r0[k]);
                    assert(v@.subrange(0, i + 1 as int)[k] == v@.subrange(0, i as int)[k]);
                } else {
                    assert(r@[k]@ == v@[i as int]@);
                }
            }
            assert(players_v(r@) =~= players_v(v@.subrange(0, i + 1 as int)));
        }
        i += 1;
    }
    proof {
        assert(v@.subrange(0, v@.len() as int) =~= v@);
    }
    r
}

/// Position of the first binding for `key` in the night action list.
fn action_index(actions: &Vec<crate::game::Action>, key: i64) -> (r: Option<usize>)
    ensures
        match r {
            Some(j) => {
                &&& j < actions@.len()
                &&& actions_v(actions@)[j as int].0 == key
                &&& forall|k: int| 0 <= k < j ==> (#[trigger] actions_v(actions@)[k]).0 != key
            },
            None => forall|k: int|
                0 <= k < actions@.len() ==> (#[trigger] actions_v(actions@)[k]).0 != key,
        },
{
    let mut j: usize = 0;
    while j < actions.len()
        invariant
            0 <= j <= actions@.len(),
            forall|k: int| 0 <= k < j ==> (#[trigger] actions_v(actions@)[k]).0 != key,
        decreases actions@.len() - j,
    {
        let src = match actions[j] {
            crate::game::Action::Kill { source, .. } => source,
        };
        if src == key {
            return Some(j);
        }
        j += 1;
    }
    None
}

/// Position of the first binding for `key` in a vote map.
fn vote_index(votes: &Vec<(i64, Vec<i64>)>, key: i64) -> (r: Option<usize>)
    ensures
        match r {
            Some(j) => {
                &&& j < votes@.len()
                &&& votes@[j as int].0 == key
                &&& forall|k: int| 0 <= k < j ==> (#[trigger] votes@[k]).0 != key
            },
            None => forall|k: int| 0 <= k < votes@.len() ==> (#[trigger] votes@[k]).0 != key,
        },
{
    let mut j: usize = 0;
    while j < votes.len()
        invariant
            0 <= j <= votes@.len(),
            forall|k: int| 0 <= k < j ==> (#[trigger] votes@[k]).0 != key,
        decreases votes@.len() - j,
    {
        if votes[j].0 == key {
            return Some(j);
        }
        j += 1;
    }
    None
}

/// Position of the first binding for `key` in a verdict map.
fn verdict_index(verdicts: &Vec<(i64, Verdict)>, key: i64) -> (r: Option<usize>)
    ensures
        match r {
            Some(j) => {
                &&& j < verdicts@.len()
                &&& verdicts@[j as int].0 == key
                &&& forall|k: int| 0 <= k < j ==> (#[trigger] verdicts@[k]).0 != key
            },
            None => forall|k: int| 0 <= k < verdicts@.len() ==> (#[trigger] verdicts@[k]).0 != key,
        },
{
    let mut j: usize = 0;
    while j < verdicts.len()
        invariant
            0 <= j <= verdicts@.len(),
            forall|k: int| 0 <= k < j ==> (#[trigger] verdicts@[k]).0 != key,
        decreases verdicts@.len() - j,
    {
        if verdicts[j].0 == key {
            return Some(j);
        }
        j += 1;
    }
    None
}

/// Records or replaces the binding for `key` in the night action list.
fn upsert_action(actions: &mut Vec<crate::game::Action>, key: i64, target: i64)
    ensures
        actions_v(final(actions)@) == alist_upsert(actions_v(old(actions)@), key, target),
{
    let ghost av = actions_v(old(actions)@);
    let idx = action_index(actions, key);
    match idx {
        Some(j) => {
            actions.set(j, crate::game::Action::Kill { source: key, target });
            proof {
                crate::game::alist::lemma_upsert_found(av, key, target, j as int);
                assert(actions_v(actions@) =~= av.update(j as int, (key, target)));
            }
        },
        None => {
            actions.push(crate::game::Action::Kill { source: key, target });
            proof {
                crate::game::alist::lemma_upsert_absent(av, key, target);
                assert(actions_v(actions@) =~= av.push((key, target)));
            }
        },
    }
}

/// Records or replaces the binding for `key` in the vote map.
fn upsert_vote(votes: &mut Vec<(i64, Vec<i64>)>, key: i64, chosen: Vec<i64>)
    ensures
        crate::game::votes_v(final(votes)@) == alist_upsert(
            crate::game::votes_v(old(votes)@),
            key,
            chosen@,
        ),
{
    let ghost vv = crate::game::votes_v(old(votes)@);
    let ghost cv = chosen@;
    let idx = vote_index(votes, key);
    match idx {
        Some(j) => {
            votes.set(j, (key, chosen));
            proof {
                assert(forall|k: int|
                    0 <= k < j ==> (#[trigger] vv[k]).0 == old(votes)@[k].0);
                crate::game::alist::lemma_upsert_found(vv, key, cv, j as int);
                assert forall|k: int|
                    0 <= k < votes@.len() implies crate::game::votes_v(votes@)[k] == vv.update(
                    j as int,
                    (key, cv),
                )[k] by {
                    if k != j {
                        assert(votes@[k] == old(votes)@[k]);
                    }
                }
                assert(crate::game::votes_v(votes@) =~= vv.update(j as int, (key, cv)));
            }
        },
        None => {
            votes.push((key, chosen));
            proof {
                assert(forall|k: int|
                    0 <= k < vv.len() ==> (#[trigger] vv[k]).0 == old(votes)@[k].0);
                crate::game::alist::lemma_upsert_absent(vv, key, cv);
                assert forall|k: int|
                    0 <= k < votes@.len() implies crate::game::votes_v(votes@)[k] == vv.push(
                    (key, cv),
                )[k] by {
                    if k < votes@.len() - 1 {
                        assert(votes@[k] == old(votes)@[k]);
                    }
                }
                assert(crate::game::votes_v(votes@) =~= vv.push((key, cv)));
            }
        },
    }
}

/// Records or replaces the binding for `key` in the verdict map.
fn upsert_verdict(verdicts: &mut Vec<(i64, Verdict)>, key: i64, v: Verdict)
    ensures
        final(verdicts)@ == alist_upsert(old(verdicts)@, key, v),
{
    let ghost vv = old(verdicts)@;
    let idx = verdict_index(verdicts, key);
    match idx {
        Some(j) => {
            verdicts.set(j, (key, v));
            proof {
                crate::game::alist::lemma_upsert_found(vv, key, v, j as int);
                assert(verdicts@ =~= vv.update(j as int, (key, v)));
            }
        },
        None => {
            verdicts.push((key, v));
            proof {
                crate::game::alist::lemma_upsert_absent(vv, key, v);
                assert(verdicts@ =~= vv.push((key, v)));
            }
        },
    }
}


/// A legal night action lands in a state that still satisfies the invariant.
proof fn lemma_night_record_wf(s: GameStateV, actor: i64, target: i64)
    requires
        state_wf(s),
        s.phase is Night,
        night_action_legal(s, actor, target),
    ensures
        state_wf(night_record(s, actor, target)),
{
    let actions = s.phase->Night_actions;
    match find_player(s.players, actor) {
        Some(a) => {
            if a.role == Role::Mafia {
                let up = alist_upsert(actions, actor, target);
                crate::game::alist::lemma_upsert_props(actions, actor, target);
                crate::game::alist::lemma_upsert_entries(actions, actor, target);
                assert forall|k: int| 0 <= k < up.len() implies {
                    &&& (find_player(s.players, (#[trigger] up[k]).0) matches Some(p)
                        && p.is_alive && p.role == Role::Mafia)
                    &&& legal_kill_target(s.players, up[k].1)
                } by {
                    if up[k] != (actor, target) {
                        assert(actions.contains(up[k]));
                        let w = choose|w: int| 0 <= w < actions.len() && actions[w] == up[k];
                        assert((find_player(s.players, actions[w].0) matches Some(p)
                            && p.is_alive && p.role == Role::Mafia));
                        assert(legal_kill_target(s.players, actions[w].1));
                    }
                }
            }
        },
        None => {},
    }
}

/// A legal vote lands in a state that still satisfies the invariant.
proof fn lemma_vote_record_wf(s: GameStateV, voter: i64, chosen: Seq<i64>)
    requires
        state_wf(s),
        s.phase is Voting,
        vote_legal(s, voter),
        nodup(chosen),
    ensures
        state_wf(vote_record(s, voter, chosen)),
{
    let votes = s.phase->Voting_votes;
    let up = alist_upsert(votes, voter, chosen);
    crate::game::alist::lemma_upsert_props(votes, voter, chosen);
    crate::game::alist::lemma_upsert_entries(votes, voter, chosen);
    assert forall|k: int| 0 <= k < up.len() implies {
        &&& (find_player(s.players, (#[trigger] up[k]).0) matches Some(p) && p.is_alive)
        &&& nodup(up[k].1)
    } by {
        if up[k] != (voter, chosen) {
            assert(votes.contains(up[k]));
            let w = choose|w: int| 0 <= w < votes.len() && votes[w] == up[k];
            assert((find_player(s.players, votes[w].0) matches Some(p) && p.is_alive));
            assert(nodup(votes[w].1));
        }
    }
}

/// A legal verdict lands in a state that still satisfies the invariant.
proof fn lemma_verdict_record_wf(s: GameStateV, juror: i64, v: Verdict)
    requires
        state_wf(s),
        s.phase is Trial,
        verdict_legal(s, juror),
    ensures
        state_wf(verdict_record(s, juror, v)),
{
    let verdicts = s.phase->Trial_verdicts;
    let d = s.phase->Trial_defendant_id;
    let up = alist_upsert(verdicts, juror, v);
    crate::game::alist::lemma_upsert_props(verdicts, juror, v);
    crate::game::alist::lemma_upsert_entries(verdicts, juror, v);
    assert forall|k: int| 0 <= k < up.len() implies {
        &&& (find_player(s.players, (#[trigger] up[k]).0) matches Some(p) && p.is_alive)
        &&& up[k].0 != d
    } by {
        if up[k] != (juror, v) {
            assert(verdicts.contains(up[k]));
            let w = choose|w: int| 0 <= w < verdicts.len() && verdicts[w] == up[k];
            assert((find_player(s.players, verdicts[w].0) matches Some(p) && p.is_alive));
            assert(verdicts[w].0 != d);
        }
    }
}

impl GameV1 {
    /// Records one player's night choice.  A Mafia actor's kill is stored or
    /// replaced (idempotent per actor); a living Civilian's choice is a
    /// no-op that still counts as acting.  Rejected with `InvalidPhase`
    /// outside Night and with `InvalidTarget` for a dead or unknown actor or
    /// an illegal target.
    pub fn add_night_action(&mut self, actor_id: i64, target_id: i64) -> (r: Result<
        (),
        GameError,
    >)
        requires
            old(self).wf(),
        ensures
            final(self).wf(),
            match r {
                Ok(()) => {
                    &&& old(self)@.phase is Night
                    &&& night_action_legal(old(self)@, actor_id, target_id)
                    &&& final(self)@ == night_record(old(self)@, actor_id, target_id)
                },
                Err(e) => {
                    &&& final(self)@ == old(self)@
                    &&& (e == GameError::InvalidPhase || e == GameError::InvalidTarget)
                    &&& (e == GameError::InvalidPhase <==> !(old(self)@.phase is Night))
                    &&& (e == GameError::InvalidTarget ==> !night_action_legal(
                        old(self)@,
                        actor_id,
                        target_id,
                    ))
                },
            },
    {
        if !(matches!(&self.phase, GamePhase::Night { .. })) {
            return Err(GameError::InvalidPhase);
        }

        // the actor must be a living player
        let actor_idx = match crate::game::roster::find_index(&self.players, actor_id) {
            Some(i) => i,
            None => {
                return Err(GameError::InvalidTarget);
            },
        };
        if !self.players[actor_idx].is_alive {
            return Err(GameError::InvalidTarget);
        }

        // the target must be the sentinel or a living non-Mafia player
        if target_id != NOBODY_CHAT_ID {
            match crate::game::roster::find_index(&self.players, target_id) {
                Some(t) => {
                    if !(self.players[t].is_alive && matches!(
                        self.players[t].role,
                        Role::Civilian,
                    )) {
                        return Err(GameError::InvalidTarget);
                    }
                },
                None => {
                    return Err(GameError::InvalidTarget);
                },
            }
        }
        proof {
            lemma_night_record_wf(self@, actor_id, target_id);
        }

        if matches!(self.players[actor_idx].role, Role::Mafia) {
            match &mut self.phase {
                GamePhase::Night { actions } => {
                    upsert_action(actions, actor_id, target_id);
                },
                _ => {
                    proof {
                        assert(false);
                    }
                },
            }
            proof {
                assert(final(self)@ =~~= night_record(old(self)@, actor_id, target_id));
            }
        } else {
            proof {
                assert(final(self)@ =~~= night_record(old(self)@, actor_id, target_id));
            }
        }
        Ok(())
    }

    /// Stores or replaces one living voter's ballot choices, given as indexes
    /// into the current option list; the stored value is the resolved target
    /// ids with duplicates removed.  Rejected with `InvalidPhase` outside
    /// Voting and with `InvalidTarget` for a dead or unknown voter or an
    /// out-of-range index.
    pub fn add_vote(&mut self, voter_id: i64, choices: Vec<i32>) -> (r: Result<(), GameError>)
        requires
            old(self).wf(),
        ensures
            final(self).wf(),
            match r {
                Ok(()) => {
                    &&& old(self)@.phase is Voting
                    &&& vote_legal(old(self)@, voter_id)
                    &&& vote_choices_valid(old(self)@.phase->Voting_options, choices@)
                    &&& final(self)@ == vote_record(
                        old(self)@,
                        voter_id,
                        dedup(
                            resolve_choices(old(self)@.phase->Voting_options, choices@),
                        ),
                    )
                },
                Err(e) => {
                    &&& final(self)@ == old(self)@
                    &&& (e == GameError::InvalidPhase || e == GameError::InvalidTarget)
                    &&& (e == GameError::InvalidPhase <==> !(old(self)@.phase is Voting))
                    &&& (e == GameError::InvalidTarget ==> !(vote_legal(old(self)@, voter_id)
                        && vote_choices_valid(old(self)@.phase->Voting_options, choices@)))
                },
            },
    {
        if !(matches!(&self.phase, GamePhase::Voting { .. })) {
            return Err(GameError::InvalidPhase);
        }

        // the voter must be a living player
        let voter_idx = match crate::game::roster::find_index(&self.players, voter_id) {
            Some(i) => i,
            None => {
                return Err(GameError::InvalidTarget);
            },
        };
        if !self.players[voter_idx].is_alive {
            return Err(GameError::InvalidTarget);
        }

        let ghost opts = self@.phase->Voting_options;
        let opts_len = match &self.phase {
            GamePhase::Voting { options, .. } => options.len(),
            _ => {
                proof {
                    assert(false);
                }
                0
            },
        };

        // every chosen index must point into the ballot
        let mut k: usize = 0;
        while k < choices.len()
            invariant
                0 <= k <= choices@.len(),
                self@ == old(self)@,
                self.wf(),
                old(self)@.phase is Voting,
                vote_legal(old(self)@, voter_id),
                opts == old(self)@.phase->Voting_options,
                opts.len() == opts_len,
                forall|j: int| 0 <= j < k ==> 0 <= #[trigger] choices@[j] < opts_len,
            decreases choices@.len() - k,
        {
            if choices[k] < 0 || choices[k] as usize >= opts_len {
                return Err(GameError::InvalidTarget);
            }
            k += 1;
        }

        // resolve the indexes and drop duplicate targets, keeping first
        // occurrences in order
        let ghost rc = resolve_choices(opts, choices@);
        let mut resolved: Vec<i64> = Vec::new();
        let mut k: usize = 0;
        while k < choices.len()
            invariant
                0 <= k <= choices@.len(),
                opts == self@.phase->Voting_options,
                self@ == old(self)@,
                self.wf(),
                old(self)@.phase is Voting,
                vote_legal(old(self)@, voter_id),
                rc == resolve_choices(opts, choices@),
                forall|j: int| 0 <= j < choices@.len() ==> 0 <= #[trigger] choices@[j] < opts.len(),
                resolved@ == dedup(rc.subrange(0, k as int)),
            decreases choices@.len() - k,
        {
            let id = match &self.phase {
                GamePhase::Voting { options, .. } => options[choices[k] as usize].0,
                _ => {
                    proof {
                        assert(false);
                    }
                    0
                },
            };
            proof {
                assert(id == rc[k as int]);
                assert(rc.subrange(0, k + 1 as int).drop_last() =~= rc.subrange(0, k as int));
                assert(rc.subrange(0, k + 1 as int).last() == rc[k as int]);
                lemma_dedup_contains(rc.subrange(0, k as int));
            }
            if !crate::game::tally::vec_contains(&resolved, id) {
                resolved.push(id);
            }
            k += 1;
        }
        proof {
            assert(rc.subrange(0, rc.len() as int) =~= rc);
            lemma_dedup_nodup(rc);
            lemma_vote_record_wf(self@, voter_id, dedup(rc));
        }

        match &mut self.phase {
            GamePhase::Voting { votes, .. } => {
                upsert_vote(votes, voter_id, resolved);
            },
            _ => {
                proof {
                    assert(false);
                }
            },
        }
        proof {
            assert(final(self)@ =~~= vote_record(old(self)@, voter_id, dedup(rc)));
        }
        Ok(())
    }

    /// Stores or replaces one juror's verdict, given as an index into the
    /// Guilty / Innocent / Abstain menu.  Rejected with `InvalidPhase`
    /// outside Trial and with `InvalidTarget` for a dead or unknown juror,
    /// the defendant, or an out-of-range index.
    pub fn add_verdict(&mut self, juror_id: i64, chosen: i32) -> (r: Result<(), GameError>)
        requires
            old(self).wf(),
        ensures
            final(self).wf(),
            match r {
                Ok(()) => {
                    &&& old(self)@.phase is Trial
                    &&& verdict_legal(old(self)@, juror_id)
                    &&& 0 <= chosen < 3
                    &&& final(self)@ == verdict_record(
                        old(self)@,
                        juror_id,
                        verdict_of_index(chosen),
                    )
                },
                Err(e) => {
                    &&& final(self)@ == old(self)@
                    &&& (e == GameError::InvalidPhase || e == GameError::InvalidTarget)
                    &&& (e == GameError::InvalidPhase <==> !(old(self)@.phase is Trial))
                    &&& (e == GameError::InvalidTarget ==> !(verdict_legal(old(self)@, juror_id)
                        && 0 <= chosen < 3))
                },
            },
    {
        let defendant_id = match &self.phase {
            GamePhase::Trial { defendant_id, .. } => *defendant_id,
            _ => {
                return Err(GameError::InvalidPhase);
            },
        };

        // the juror must be a living player other than the defendant
        let juror_idx = match crate::game::roster::find_index(&self.players, juror_id) {
            Some(i) => i,
            None => {
                return Err(GameError::InvalidTarget);
            },
        };
        if !self.players[juror_idx].is_alive || juror_id == defendant_id {
            return Err(GameError::InvalidTarget);
        }
        if chosen < 0 || chosen >= 3 {
            return Err(GameError::InvalidTarget);
        }

        let verdict = if chosen == 0 {
            Verdict::Guilty
        } else if chosen == 1 {
            Verdict::Innocent
        } else {
            Verdict::Abstain
        };
        proof {
            lemma_verdict_record_wf(self@, juror_id, verdict);
        }

        match &mut self.phase {
            GamePhase::Trial { verdicts, .. } => {
                upsert_verdict(verdicts, juror_id, verdict);
            },
            _ => {
                proof {
                    assert(false);
                }
            },
        }
        proof {
            assert(final(self)@ =~~= verdict_record(old(self)@, juror_id, verdict));
        }
        Ok(())
    }
}


impl GameV1 {
    /// Whether the night can end: every living Mafia member has acted.
    fn should_end_night(&self) -> (b: bool)
        requires
            self.wf(),
            self@.phase is Night,
        ensures
            b == night_complete(self@.phase->Night_actions, self@.players),
    {
        match &self.phase {
            GamePhase::Night { actions } => {
                let ghost av = actions_v(actions@);
                let ghost ps = self@.players;
                let mut i: usize = 0;
                while i < self.players.len()
                    invariant
                        0 <= i <= self.players@.len(),
                        self@.phase is Night,
                        av == self@.phase->Night_actions,
                        ps == self@.players,
                        actions_v(actions@) == av,
                        ps == players_v(self.players@),
                        forall|j: int|
                            0 <= j < i && (#[trigger] ps[j]).is_alive && ps[j].role == Role::Mafia
                                ==> alist_has(av, ps[j].chat_id),
                    decreases self.players@.len() - i,
                {
                    if self.players[i].is_alive && matches!(self.players[i].role, Role::Mafia) {
                        match action_index(actions, self.players[i].chat_id) {
                            Some(j) => {
                                proof {
                                    crate::game::alist::lemma_lookup_at(
                                        av,
                                        ps[i as int].chat_id,
                                        j as int,
                                    );
                                }
                            },
                            None => {
                                proof {
                                    crate::game::alist::lemma_lookup_none(av, ps[i as int].chat_id);
                                }
                                return false;
                            },
                        }
                    }
                    i += 1;
                }
                true
            },
            _ => {
                proof {
                    assert(false);
                }
                false
            },
        }
    }

    /// Ends the night if every living Mafia member has acted: kills are
    /// resolved in order, the pre-transition phase is snapshotted, and the
    /// game moves to Ending (when a faction has won) or to a fresh Voting
    /// round over the survivors.
    fn end_night(&mut self) -> (r: Option<GamePhase>)
        requires
            old(self).wf(),
            old(self)@.phase is Night,
        ensures
            final(self).wf(),
            match r {
                Some(p) => {
                    &&& night_complete(old(self)@.phase->Night_actions, old(self)@.players)
                    &&& final(self)@ == resolve_night(old(self)@)
                    &&& p@ == final(self)@.phase
                },
                None => {
                    &&& !night_complete(old(self)@.phase->Night_actions, old(self)@.players)
                    &&& final(self)@ == old(self)@
                },
            },
    {
        if !self.should_end_night() {
            return None;
        }

        let actions = match &self.phase {
            GamePhase::Night { actions } => crate::game::copy_vec(actions),
            _ => {
                proof {
                    assert(false);
                }
                Vec::new()
            },
        };
        let prev = self.phase.clone();

        let killed = crate::game::roster::run_kills(&mut self.players, &actions);
        proof {
            crate::game::roster::lemma_apply_kills_frame(
                old(self)@.players,
                actions_v(actions@),
            );
        }

        self.previous_phase = Some(prev);
        self.poll_msg_ids = Vec::new();

        let mafia = crate::game::roster::living_mafia(&self.players);
        let civilians = crate::game::roster::living_civilians(&self.players);
        if mafia == 0 || mafia >= civilians {
            let mut msg = if mafia == 0 {
                String::from_str("Civilians")
            } else {
                String::from_str("Mafia")
            };
            msg.append(" won the game!");
            self.transition_message = msg;
            self.phase = GamePhase::Ending;
        } else {
            let msg = if killed.len() > 0 {
                let mut m = crate::game::text::join_names(&killed);
                m.append(" died last night");
                m
            } else {
                String::from_str("Nobody died last night")
            };
            self.transition_message = msg;
            let options = crate::game::roster::build_vote_options(&self.players);
            self.phase = GamePhase::Voting { options, votes: Vec::new() };
            proof {
                assert(crate::game::votes_v(Seq::<(i64, Vec<i64>)>::empty()) =~= Seq::<
                    (i64, Seq<i64>),
                >::empty());
            }
        }
        proof {
            assert(final(self)@ =~~= resolve_night(old(self)@));
        }
        Some(self.phase.clone())
    }
}


/// Whether two exec vote maps record identical per-voter chosen sets.
fn votes_same_exec(cur: &Vec<(i64, Vec<i64>)>, prev: &Vec<(i64, Vec<i64>)>) -> (b: bool)
    ensures
        b == votes_same(crate::game::votes_v(cur@), crate::game::votes_v(prev@)),
{
    let ghost cv = crate::game::votes_v(cur@);
    let ghost pv = crate::game::votes_v(prev@);
    if cur.len() != prev.len() {
        return false;
    }
    let mut k: usize = 0;
    while k < cur.len()
        invariant
            0 <= k <= cur@.len(),
            cv == crate::game::votes_v(cur@),
            pv == crate::game::votes_v(prev@),
            cv.len() == pv.len(),
            forall|j: int|
                0 <= j < k ==> (alist_lookup(pv, (#[trigger] cv[j]).0) matches Some(pc)
                    && cv[j].1.to_set() == pc.to_set()),
        decreases cur@.len() - k,
    {
        match vote_index(prev, cur[k].0) {
            None => {
                proof {
                    assert(forall|i: int|
                        0 <= i < pv.len() ==> (#[trigger] pv[i]).0 == prev@[i].0);
                    crate::game::alist::lemma_lookup_none(pv, cv[k as int].0);
                }
                return false;
            },
            Some(j) => {
                proof {
                    assert(forall|i: int|
                        0 <= i < pv.len() ==> (#[trigger] pv[i]).0 == prev@[i].0);
                    crate::game::alist::lemma_lookup_at(pv, cv[k as int].0, j as int);
                }
                if !crate::game::tally::set_equal(&cur[k].1, &prev[j].1) {
                    return false;
                }
            },
        }
        k += 1;
    }
    true
}

impl GameV1 {
    /// Whether the voting round can end: every living player has voted.
    fn should_end_voting(&self) -> (b: bool)
        requires
            self.wf(),
            self@.phase is Voting,
        ensures
            b == voting_complete(self@.phase->Voting_votes, self@.players),
    {
        match &self.phase {
            GamePhase::Voting { votes, .. } => {
                let ghost vv = self@.phase->Voting_votes;
                let ghost ps = self@.players;
                let mut i: usize = 0;
                while i < self.players.len()
                    invariant
                        0 <= i <= self.players@.len(),
                        self@.phase is Voting,
                        vv == self@.phase->Voting_votes,
                        vv == crate::game::votes_v(votes@),
                        ps == self@.players,
                        ps == players_v(self.players@),
                        forall|j: int|
                            0 <= j < i && (#[trigger] ps[j]).is_alive ==> alist_has(
                                vv,
                                ps[j].chat_id,
                            ),
                    decreases self.players@.len() - i,
                {
                    if self.players[i].is_alive {
                        match vote_index(votes, self.players[i].chat_id) {
                            Some(j) => {
                                proof {
                                    assert(forall|w: int|
                                        0 <= w < vv.len() ==> (#[trigger] vv[w]).0
                                            == votes@[w].0);
                                    crate::game::alist::lemma_lookup_at(
                                        vv,
                                        ps[i as int].chat_id,
                                        j as int,
                                    );
                                }
                            },
                            None => {
                                proof {
                                    assert(forall|w: int|
                                        0 <= w < vv.len() ==> (#[trigger] vv[w]).0
                                            == votes@[w].0);
                                    crate::game::alist::lemma_lookup_none(
                                        vv,
                                        ps[i as int].chat_id,
                                    );
                                }
                                return false;
                            },
                        }
                    }
                    i += 1;
                }
                true
            },
            _ => {
                proof {
                    assert(false);
                }
                false
            },
        }
    }

    /// Whether this round repeats the previous voting round's choices.
    fn is_voting_stalemate(&self) -> (b: bool)
        requires
            self@.phase is Voting,
        ensures
            b == voting_stalemate(self@),
    {
        match (&self.phase, &self.previous_phase) {
            (GamePhase::Voting { votes, .. }, Some(GamePhase::Voting { votes: pv, .. })) => {
                votes_same_exec(votes, pv)
            },
            _ => false,
        }
    }

    /// Ends the voting round if everyone has voted, in priority order: a
    /// stalemate or a lone "Nobody" plurality escalates to Night, a lone
    /// player plurality opens that player's trial, and any wider tie starts
    /// a fresh re-vote.
    fn end_voting(&mut self) -> (r: Option<GamePhase>)
        requires
            old(self).wf(),
            old(self)@.phase is Voting,
        ensures
            final(self).wf(),
            match r {
                Some(p) => {
                    &&& voting_complete(old(self)@.phase->Voting_votes, old(self)@.players)
                    &&& final(self)@ == resolve_voting(old(self)@)
                    &&& p@ == final(self)@.phase
                },
                None => {
                    &&& !voting_complete(old(self)@.phase->Voting_votes, old(self)@.players)
                    &&& final(self)@ == old(self)@
                },
            },
    {
        if !self.should_end_voting() {
            return None;
        }
        let stale = self.is_voting_stalemate();
        let ghost ov = old(self)@.phase->Voting_options;
        let ghost vv = old(self)@.phase->Voting_votes;
        let ghost mm = max_vote_count(ov, vv);

        let (m, t, found, top_id, top_label) = match &self.phase {
            GamePhase::Voting { options, votes } => {
                proof {
                    assert forall|k: int| 0 <= k < crate::game::votes_v(votes@).len()
                        implies nodup(
                        (#[trigger] crate::game::votes_v(votes@)[k]).1,
                    ) by {
                        assert(nodup(vv[k].1));
                    }
                }
                // highest support over the ballot
                let mut m: usize = 0;
                let mut i: usize = 0;
                while i < options.len()
                    invariant
                        0 <= i <= options@.len(),
                        ov == crate::game::opts_v(options@),
                        vv == crate::game::votes_v(votes@),
                        forall|k: int|
                            0 <= k < crate::game::votes_v(votes@).len() ==> nodup(
                                (#[trigger] crate::game::votes_v(votes@)[k]).1,
                            ),
                        m == max_vote_count(ov.subrange(0, i as int), vv),
                        m <= votes@.len(),
                    decreases options@.len() - i,
                {
                    proof {
                        assert(ov.subrange(0, i + 1 as int).drop_last() =~= ov.subrange(
                            0,
                            i as int,
                        ));
                        assert(ov.subrange(0, i + 1 as int).last() == ov[i as int]);
                    }
                    let c = crate::game::tally::count_votes_for(votes, options[i].0);
                    proof {
                        assert(options@[i as int].0 == ov[i as int].0);
                    }
                    if c > m {
                        m = c;
                    }
                    i += 1;
                }
                proof {
                    assert(ov.subrange(0, ov.len() as int) =~= ov);
                    assert(m == mm);
                }

                // how many options are tied at the top, and the first of them
                let mut t: usize = 0;
                let mut top: usize = 0;
                let mut found = false;
                let mut i: usize = 0;
                while i < options.len()
                    invariant
                        0 <= i <= options@.len(),
                        ov == crate::game::opts_v(options@),
                        vv == crate::game::votes_v(votes@),
                        forall|k: int|
                            0 <= k < crate::game::votes_v(votes@).len() ==> nodup(
                                (#[trigger] crate::game::votes_v(votes@)[k]).1,
                            ),
                        t == tied_count(ov.subrange(0, i as int), vv, m as nat),
                        t <= i,
                        found <==> t > 0,
                        found ==> top < i && vote_count(vv, ov[top as int].0) == m as nat
                            && (forall|j: int|
                            0 <= j < top ==> vote_count(vv, (#[trigger] ov[j]).0) != m as nat),
                        !found ==> forall|j: int|
                            0 <= j < i ==> vote_count(vv, (#[trigger] ov[j]).0) != m as nat,
                    decreases options@.len() - i,
                {
                    proof {
                        assert(ov.subrange(0, i + 1 as int).drop_last() =~= ov.subrange(
                            0,
                            i as int,
                        ));
                        assert(ov.subrange(0, i + 1 as int).last() == ov[i as int]);
                    }
                    let c = crate::game::tally::count_votes_for(votes, options[i].0);
                    proof {
                        assert(options@[i as int].0 == ov[i as int].0);
                    }
                    if c == m {
                        t += 1;
                        if !found {
                            found = true;
                            top = i;
                        }
                    }
                    i += 1;
                }
                proof {
                    assert(ov.subrange(0, ov.len() as int) =~= ov);
                }

                let top_id = if found {
                    options[top].0
                } else {
                    0
                };
                let top_label = if found {
                    options[top].1.clone()
                } else {
                    String::new()
                };
                proof {
                    if found {
                        crate::game::tally::lemma_first_top_char(ov, vv, m as nat, top as int);
                        assert(top_id == first_top(ov, vv, m as nat).0);
                        assert(top_label@ == first_top(ov, vv, m as nat).1);
                        assert(exists|j: int|
                            0 <= j < ov.len() && #[trigger] ov[j] == first_top(ov, vv, m as nat));
                    }
                }
                (m, t, found, top_id, top_label)
            },
            _ => {
                proof {
                    assert(false);
                }
                (0, 0, false, 0, String::new())
            },
        };

        let prev = self.phase.clone();
        self.previous_phase = Some(prev);
        self.poll_msg_ids = Vec::new();

        if stale {
            self.transition_message = String::from_str(
                "No change in votes 2 rounds in a row. Moving to night time...",
            );
            self.phase = GamePhase::Night { actions: Vec::new() };
        } else if t == 1 && top_id == VOTE_OPTION_NOBODY {
            self.transition_message = String::from_str(
                "Most popular vote was not to lynch. Moving to night time...",
            );
            self.phase = GamePhase::Night { actions: Vec::new() };
        } else if t == 1 {
            let mut msg = String::from_str("Now begins the trial for ");
            msg.append(top_label.as_str());
            msg.append(":");
            self.transition_message = msg;
            self.phase = GamePhase::Trial { defendant_id: top_id, verdicts: Vec::new() };
            proof {
                // the lone top option names a living player, so the trial
                // invariant holds
                let ps = old(self)@.players;
                crate::game::roster::lemma_roster_options_membership(ps);
                crate::game::roster::lemma_find_player_props(ps, top_id);
                let ro = crate::game::roster::roster_options(ps);
                assert(ov == vote_options_of(ps));
                let ft = first_top(ov, vv, m as nat);
                let topi = choose|topi: int| 0 <= topi < ov.len() && #[trigger] ov[topi] == ft;
                // the top entry is not the sentinel, so it is a roster entry
                assert(topi < ro.len()) by {
                    if topi == ro.len() {
                        assert(ov[topi].0 == VOTE_OPTION_NOBODY);
                    }
                }
                assert(ov[topi] == ro[topi]);
                assert(crate::game::roster::entry_of_living(ps, ro[topi]));
                let w = choose|w: int|
                    0 <= w < ps.len() && (#[trigger] ps[w]).is_alive && ps[w].chat_id
                        == ro[topi].0 && ps[w].username == ro[topi].1;
                // the roster has one player per id, so the lookup finds that
                // living player
                assert(find_player(ps, top_id) is Some);
                let idx = crate::game::roster::player_index(ps, top_id);
                assert(ps[idx].chat_id == top_id && ps[w].chat_id == top_id);
                assert(idx == w) by {
                    assert(crate::game::roster::ids_distinct(ps));
                }
                assert(find_player(ps, top_id) == Some(ps[w]));
                assert(trial_wf(top_id, Seq::<(i64, Verdict)>::empty(), ps));
            }
        } else {
            self.transition_message = String::from_str(
                "Multiple options were tied for first place. Moving to re-vote",
            );
            let options = crate::game::roster::build_vote_options(&self.players);
            self.phase = GamePhase::Voting { options, votes: Vec::new() };
        }
        proof {
            assert(crate::game::votes_v(Seq::<(i64, Vec<i64>)>::empty()) =~= Seq::<
                (i64, Seq<i64>),
            >::empty());
            assert(actions_v(Seq::<crate::game::Action>::empty()) =~= Seq::<(i64, i64)>::empty());
            assert(final(self)@ =~~= resolve_voting(old(self)@));
        }
        Some(self.phase.clone())
    }
}


/// Dispatch of `resolve_night` / `resolve_voting` / `resolve_trial` by the
/// active phase; Ending resolves to itself.
pub open spec fn resolve_phase(s: GameStateV) -> GameStateV {
    match s.phase {
        PhaseV::Night { .. } => resolve_night(s),
        PhaseV::Voting { .. } => resolve_voting(s),
        PhaseV::Trial { .. } => resolve_trial(s),
        PhaseV::Ending => s,
    }
}

impl GameV1 {
    /// Whether the trial can end: every living non-defendant has a verdict.
    fn should_end_trial(&self) -> (b: bool)
        requires
            self.wf(),
            self@.phase is Trial,
        ensures
            b == trial_complete(
                self@.phase->Trial_verdicts,
                self@.phase->Trial_defendant_id,
                self@.players,
            ),
    {
        match &self.phase {
            GamePhase::Trial { defendant_id, verdicts } => {
                let d = *defendant_id;
                let ghost vv = self@.phase->Trial_verdicts;
                let ghost ps = self@.players;
                let mut i: usize = 0;
                while i < self.players.len()
                    invariant
                        0 <= i <= self.players@.len(),
                        self@.phase is Trial,
                        d == self@.phase->Trial_defendant_id,
                        vv == self@.phase->Trial_verdicts,
                        vv == verdicts@,
                        ps == self@.players,
                        ps == players_v(self.players@),
                        forall|j: int|
                            0 <= j < i && (#[trigger] ps[j]).is_alive && ps[j].chat_id != d
                                ==> alist_has(vv, ps[j].chat_id),
                    decreases self.players@.len() - i,
                {
                    if self.players[i].is_alive && self.players[i].chat_id != d {
                        match verdict_index(verdicts, self.players[i].chat_id) {
                            Some(j) => {
                                proof {
                                    crate::game::alist::lemma_lookup_at(
                                        vv,
                                        ps[i as int].chat_id,
                                        j as int,
                                    );
                                }
                            },
                            None => {
                                proof {
                                    crate::game::alist::lemma_lookup_none(
                                        vv,
                                        ps[i as int].chat_id,
                                    );
                                }
                                return false;
                            },
                        }
                    }
                    i += 1;
                }
                true
            },
            _ => {
                proof {
                    assert(false);
                }
                false
            },
        }
    }

    /// Ends the trial if every juror has spoken: a guilty count at least the
    /// innocent count lynches the defendant, otherwise they walk free; then
    /// the game ends if a faction has won, else a fresh Night begins.
    fn end_trial(&mut self) -> (r: Option<GamePhase>)
        requires
            old(self).wf(),
            old(self)@.phase is Trial,
        ensures
            final(self).wf(),
            match r {
                Some(p) => {
                    &&& trial_complete(
                        old(self)@.phase->Trial_verdicts,
                        old(self)@.phase->Trial_defendant_id,
                        old(self)@.players,
                    )
                    &&& final(self)@ == resolve_trial(old(self)@)
                    &&& p@ == final(self)@.phase
                },
                None => {
                    &&& !trial_complete(
                        old(self)@.phase->Trial_verdicts,
                        old(self)@.phase->Trial_defendant_id,
                        old(self)@.players,
                    )
                    &&& final(self)@ == old(self)@
                },
            },
    {
        if !self.should_end_trial() {
            return None;
        }

        let (defendant_id, g, inn) = match &self.phase {
            GamePhase::Trial { defendant_id, verdicts } => {
                let g = crate::game::tally::count_verdicts_vec(verdicts, Verdict::Guilty);
                let inn = crate::game::tally::count_verdicts_vec(verdicts, Verdict::Innocent);
                (*defendant_id, g, inn)
            },
            _ => {
                proof {
                    assert(false);
                }
                (0, 0, 0)
            },
        };

        let didx = match crate::game::roster::find_index(&self.players, defendant_id) {
            Some(i) => i,
            None => {
                proof {
                    assert(false);
                }
                0
            },
        };
        let name = self.players[didx].username.clone();

        let prev = self.phase.clone();
        self.previous_phase = Some(prev);
        self.poll_msg_ids = Vec::new();

        if g >= inn {
            let dead = Player {
                chat_id: self.players[didx].chat_id,
                username: self.players[didx].username.clone(),
                role: self.players[didx].role,
                is_alive: false,
                is_connected: self.players[didx].is_connected,
            };
            self.players.set(didx, dead);
            proof {
                assert(players_v(self.players@) =~= kill_one(
                    old(self)@.players,
                    defendant_id,
                ).0);
                crate::game::roster::lemma_kill_one_frame(old(self)@.players, defendant_id);
            }
            let mut msg = String::from_str("By a vote of ");
            let gs = crate::game::text::usize_to_string(g);
            msg.append(gs.as_str());
            msg.append(" guilty to ");
            let is = crate::game::text::usize_to_string(inn);
            msg.append(is.as_str());
            msg.append(" innocent, ");
            msg.append(name.as_str());
            msg.append(" was lynched");
            self.transition_message = msg;
        } else {
            let mut msg = String::from_str("By a vote of ");
            let is = crate::game::text::usize_to_string(inn);
            msg.append(is.as_str());
            msg.append(" innocent to ");
            let gs = crate::game::text::usize_to_string(g);
            msg.append(gs.as_str());
            msg.append(" guilty, ");
            msg.append(name.as_str());
            msg.append(" was released");
            self.transition_message = msg;
        }

        let mafia = crate::game::roster::living_mafia(&self.players);
        let civilians = crate::game::roster::living_civilians(&self.players);
        if mafia == 0 || mafia >= civilians {
            let mut w = if mafia == 0 {
                String::from_str("Civilians")
            } else {
                String::from_str("Mafia")
            };
            w.append(" won the game!");
            self.transition_message = w;
            self.phase = GamePhase::Ending;
        } else {
            self.phase = GamePhase::Night { actions: Vec::new() };
            proof {
                assert(actions_v(Seq::<crate::game::Action>::empty()) =~= Seq::<
                    (i64, i64),
                >::empty());
            }
        }
        proof {
            assert(final(self)@ =~~= resolve_trial(old(self)@));
        }
        Some(self.phase.clone())
    }

    /// Attempts to end the active phase.  Returns the new phase when the
    /// completion condition held and the transition ran, and `None` when the
    /// phase is not yet complete or the game has ended.
    pub fn end_phase(&mut self) -> (r: Option<GamePhase>)
        requires
            old(self).wf(),
        ensures
            final(self).wf(),
            match r {
                Some(p) => {
                    &&& phase_complete(old(self)@)
                    &&& final(self)@ == resolve_phase(old(self)@)
                    &&& p@ == final(self)@.phase
                },
                None => {
                    &&& !phase_complete(old(self)@)
                    &&& final(self)@ == old(self)@
                },
            },
    {
        if matches!(&self.phase, GamePhase::Night { .. }) {
            self.end_night()
        } else if matches!(&self.phase, GamePhase::Voting { .. }) {
            self.end_voting()
        } else if matches!(&self.phase, GamePhase::Trial { .. }) {
            self.end_trial()
        } else {
            None
        }
    }
}


impl GameV1 {
    /// What to ask each living player at night: Mafia members get the
    /// kill-target menu (living non-Mafia plus "Nobody"), Civilians get an
    /// empty option list.
    pub fn get_night_actions(&self) -> (r: Vec<(i64, (String, Vec<(i64, String)>))>)
        ensures
            crate::game::prompts_v(r@) == crate::game::roster::night_prompts_of(self@.players),
    {
        let ghost ps = self@.players;
        let menu = crate::game::roster::build_kill_options(&self.players);
        let ghost menuv = crate::game::roster::kill_options_of(ps);
        let mut r: Vec<(i64, (String, Vec<(i64, String)>))> = Vec::new();
        let mut i: usize = 0;
        while i < self.players.len()
            invariant
                0 <= i <= self.players@.len(),
                ps == self@.players,
                ps == players_v(self.players@),
                crate::game::opts_v(menu@) == menuv,
                crate::game::prompts_v(r@) =~= crate::game::roster::night_prompts_from(
                    ps.subrange(0, i as int),
                    menuv,
                ),
            decreases self.players@.len() - i,
        {
            proof {
                assert(ps.subrange(0, i + 1 as int).drop_last() =~= ps.subrange(0, i as int));
                assert(ps.subrange(0, i + 1 as int).last() == ps[i as int]);
            }
            let ghost r0 = r@;
            if self.players[i].is_alive {
                if matches!(self.players[i].role, Role::Mafia) {
                    let own_menu = crate::game::clone_options(&menu);
                    r.push(
                        (
                            self.players[i].chat_id,
                            (String::from_str("You are a Mafia. Pick a victim to kil:"), own_menu),
                        ),
                    );
                } else {
                    r.push(
                        (
                            self.players[i].chat_id,
                            (String::from_str("You are a Civilian"), Vec::new()),
                        ),
                    );
                }
                proof {
                    assert(r@.drop_last() == r0);
                    assert forall|k: int|
                        0 <= k < r@.len() implies crate::game::prompts_v(r@)[k]
                        == (crate::game::roster::night_prompts_from(
                        ps.subrange(0, i as int),
                        menuv,
                    ) + seq![
                        (
                            ps[i as int].chat_id,
                            crate::game::roster::night_prompt_of(ps[i as int], menuv),
                        ),
                    ])[k] by {
                        if k < r0.len() {
                            assert(r@[k] == r0[k]);
                            assert(crate::game::prompts_v(r0)[k]
                                == crate::game::roster::night_prompts_from(
                                ps.subrange(0, i as int),
                                menuv,
                            )[k]);
                        } else {
                            assert(crate::game::opts_v(r@[k].1.1@) == (if ps[i as int].role
                                == Role::Mafia {
                                menuv
                            } else {
                                Seq::<(i64, Seq<char>)>::empty()
                            }));
                        }
                    }
                }
            }
            proof {
                assert(crate::game::prompts_v(r@) =~= crate::game::roster::night_prompts_from(
                    ps.subrange(0, i + 1 as int),
                    menuv,
                ));
            }
            i += 1;
        }
        proof {
            assert(ps.subrange(0, ps.len() as int) =~= ps);
        }
        r
    }

    /// The ballot of the current voting round.
    pub fn get_vote_options(&self) -> (r: Result<Vec<(i64, String)>, GameError>)
        ensures
            match r {
                Ok(v) => {
                    &&& self@.phase is Voting
                    &&& crate::game::opts_v(v@) == self@.phase->Voting_options
                },
                Err(e) => {
                    &&& e == GameError::InvalidPhase
                    &&& !(self@.phase is Voting)
                },
            },
    {
        match &self.phase {
            GamePhase::Voting { options, .. } => Ok(crate::game::clone_options(options)),
            _ => Err(GameError::InvalidPhase),
        }
    }

    /// The players eligible to vote in the current round: everyone alive.
    pub fn get_voters(&self) -> (r: Result<Vec<Player>, GameError>)
        ensures
            match r {
                Ok(v) => {
                    &&& self@.phase is Voting
                    &&& players_v(v@) == crate::game::roster::living_of(self@.players)
                },
                Err(e) => {
                    &&& e == GameError::InvalidPhase
                    &&& !(self@.phase is Voting)
                },
            },
    {
        match &self.phase {
            GamePhase::Voting { .. } => Ok(crate::game::roster::living_players(&self.players)),
            _ => Err(GameError::InvalidPhase),
        }
    }

    /// The verdict menu of a trial, in ballot order.
    pub fn get_verdict_options(&self) -> (r: Result<Vec<Verdict>, GameError>)
        ensures
            match r {
                Ok(v) => {
                    &&& self@.phase is Trial
                    &&& v@ == seq![Verdict::Guilty, Verdict::Innocent, Verdict::Abstain]
                },
                Err(e) => {
                    &&& e == GameError::InvalidPhase
                    &&& !(self@.phase is Trial)
                },
            },
    {
        match &self.phase {
            GamePhase::Trial { .. } => {
                let mut v: Vec<Verdict> = Vec::new();
                v.push(Verdict::Guilty);
                v.push(Verdict::Innocent);
                v.push(Verdict::Abstain);
                proof {
                    assert(v@ =~= seq![Verdict::Guilty, Verdict::Innocent, Verdict::Abstain]);
                }
                Ok(v)
            },
            _ => Err(GameError::InvalidPhase),
        }
    }

    /// The jury of the current trial: everyone alive except the defendant.
    pub fn get_jury(&self) -> (r: Result<Vec<Player>, GameError>)
        ensures
            match r {
                Ok(v) => {
                    &&& self@.phase is Trial
                    &&& players_v(v@) == crate::game::roster::jury_of(
                        self@.players,
                        self@.phase->Trial_defendant_id,
                    )
                },
                Err(e) => {
                    &&& e == GameError::InvalidPhase
                    &&& !(self@.phase is Trial)
                },
            },
    {
        match &self.phase {
            GamePhase::Trial { defendant_id, .. } => Ok(
                crate::game::roster::jury_players(&self.players, *defendant_id),
            ),
            _ => Err(GameError::InvalidPhase),
        }
    }
}


/// Whether the roster has pairwise distinct, non-sentinel ids.
fn check_roster(players: &Vec<Player>) -> (b: bool)
    ensures
        b == roster_wf(players_v(players@)),
{
    let ghost ps = players_v(players@);
    let mut i: usize = 0;
    while i < players.len()
        invariant
            0 <= i <= players@.len(),
            ps == players_v(players@),
            forall|a: int| 0 <= a < i ==> (#[trigger] ps[a]).chat_id != NOBODY_CHAT_ID,
            forall|a: int, b: int|
                0 <= a < b < ps.len() && a < i ==> (#[trigger] ps[a]).chat_id
                    != (#[trigger] ps[b]).chat_id,
        decreases players@.len() - i,
    {
        if players[i].chat_id == NOBODY_CHAT_ID {
            proof {
                assert(ps[i as int].chat_id == NOBODY_CHAT_ID);
            }
            return false;
        }
        let mut j: usize = i + 1;
        while j < players.len()
            invariant
                0 <= i < j <= players@.len(),
                ps == players_v(players@),
                forall|b: int| i < b < j ==> (#[trigger] ps[b]).chat_id != ps[i as int].chat_id,
            decreases players@.len() - j,
        {
            if players[j].chat_id == players[i].chat_id {
                proof {
                    assert(ps[j as int].chat_id == ps[i as int].chat_id);
                    assert(!crate::game::roster::ids_distinct(ps));
                }
                return false;
            }
            j += 1;
        }
        i += 1;
    }
    true
}

/// Whether a night action list satisfies the phase invariant.
fn check_night(actions: &Vec<crate::game::Action>, players: &Vec<Player>) -> (b: bool)
    ensures
        b == night_wf(actions_v(actions@), players_v(players@)),
{
    let ghost av = actions_v(actions@);
    let ghost ps = players_v(players@);
    let mut i: usize = 0;
    while i < actions.len()
        invariant
            0 <= i <= actions@.len(),
            av == actions_v(actions@),
            ps == players_v(players@),
            forall|a: int, b: int|
                0 <= a < b < av.len() && a < i ==> (#[trigger] av[a]).0 != (#[trigger] av[b]).0,
            forall|k: int|
                0 <= k < i ==> {
                    &&& (find_player(ps, (#[trigger] av[k]).0) matches Some(p) && p.is_alive
                        && p.role == Role::Mafia)
                    &&& legal_kill_target(ps, av[k].1)
                },
        decreases actions@.len() - i,
    {
        let (source, target) = match actions[i] {
            crate::game::Action::Kill { source, target } => (source, target),
        };
        let mut j: usize = i + 1;
        while j < actions.len()
            invariant
                0 <= i < j <= actions@.len(),
                av == actions_v(actions@),
                source == av[i as int].0,
                forall|b: int| i < b < j ==> (#[trigger] av[b]).0 != av[i as int].0,
            decreases actions@.len() - j,
        {
            let other = match actions[j] {
                crate::game::Action::Kill { source, .. } => source,
            };
            if other == source {
                proof {
                    assert(av[j as int].0 == av[i as int].0);
                    assert(!alist_keys_distinct(av));
                }
                return false;
            }
            j += 1;
        }
        proof {
            assert(av[i as int].0 == source && av[i as int].1 == target);
        }
        match crate::game::roster::find_index(players, source) {
            Some(a) => {
                if !(players[a].is_alive && matches!(players[a].role, Role::Mafia)) {
                    proof {
                        assert(!(find_player(ps, av[i as int].0) matches Some(p) && p.is_alive
                            && p.role == Role::Mafia));
                    }
                    return false;
                }
            },
            None => {
                proof {
                    assert(!(find_player(ps, av[i as int].0) matches Some(p) && p.is_alive
                        && p.role == Role::Mafia));
                }
                return false;
            },
        }
        if target != NOBODY_CHAT_ID {
            match crate::game::roster::find_index(players, target) {
                Some(t) => {
                    if !(players[t].is_alive && matches!(players[t].role, Role::Civilian)) {
                        proof {
                            assert(!legal_kill_target(ps, av[i as int].1));
                        }
                        return false;
                    }
                },
                None => {
                    proof {
                        assert(!legal_kill_target(ps, av[i as int].1));
                    }
                    return false;
                },
            }
        }
        i += 1;
    }
    true
}

/// Whether a ballot and vote map satisfy the phase invariant.
fn check_voting(
    options: &Vec<(i64, String)>,
    votes: &Vec<(i64, Vec<i64>)>,
    players: &Vec<Player>,
) -> (b: bool)
    ensures
        b == voting_wf(
            crate::game::opts_v(options@),
            crate::game::votes_v(votes@),
            players_v(players@),
        ),
{
    let ghost ov = crate::game::opts_v(options@);
    let ghost vv = crate::game::votes_v(votes@);
    let ghost ps = players_v(players@);

    // the ballot must be exactly the one derived from the roster
    let expected = crate::game::roster::build_vote_options(players);
    if options.len() != expected.len() {
        proof {
            assert(ov.len() == options@.len());
        }
        return false;
    }
    let mut i: usize = 0;
    while i < options.len()
        invariant
            0 <= i <= options@.len(),
            ov == crate::game::opts_v(options@),
            ps == players_v(players@),
            crate::game::opts_v(expected@) == vote_options_of(ps),
            options@.len() == expected@.len(),
            forall|k: int| 0 <= k < i ==> #[trigger] ov[k] == vote_options_of(ps)[k],
        decreases options@.len() - i,
    {
        if options[i].0 != expected[i].0 {
            proof {
                assert(ov[i as int].0 != vote_options_of(ps)[i as int].0);
            }
            return false;
        }
        if !options[i].1.eq(&expected[i].1) {
            proof {
                assert(ov[i as int].1 != vote_options_of(ps)[i as int].1);
            }
            return false;
        }
        i += 1;
    }
    proof {
        assert(ov =~= vote_options_of(ps));
    }

    // votes: distinct living voters, duplicate-free choices
    let mut i: usize = 0;
    while i < votes.len()
        invariant
            0 <= i <= votes@.len(),
            vv == crate::game::votes_v(votes@),
            ps == players_v(players@),
            forall|a: int, b: int|
                0 <= a < b < vv.len() && a < i ==> (#[trigger] vv[a]).0 != (#[trigger] vv[b]).0,
            forall|k: int|
                0 <= k < i ==> {
                    &&& (find_player(ps, (#[trigger] vv[k]).0) matches Some(p) && p.is_alive)
                    &&& nodup(vv[k].1)
                },
        decreases votes@.len() - i,
    {
        let mut j: usize = i + 1;
        while j < votes.len()
            invariant
                0 <= i < j <= votes@.len(),
                vv == crate::game::votes_v(votes@),
                forall|b: int| i < b < j ==> (#[trigger] vv[b]).0 != vv[i as int].0,
            decreases votes@.len() - j,
        {
            if votes[j].0 == votes[i].0 {
                proof {
                    assert(vv[j as int].0 == vv[i as int].0);
                    assert(!alist_keys_distinct(vv));
                }
                return false;
            }
            j += 1;
        }
        match crate::game::roster::find_index(players, votes[i].0) {
            Some(a) => {
                if !players[a].is_alive {
                    proof {
                        assert(vv[i as int].0 == votes@[i as int].0);
                        assert(!(find_player(ps, vv[i as int].0) matches Some(p) && p.is_alive));
                    }
                    return false;
                }
            },
            None => {
                proof {
                    assert(vv[i as int].0 == votes@[i as int].0);
                    assert(!(find_player(ps, vv[i as int].0) matches Some(p) && p.is_alive));
                }
                return false;
            },
        }
        // the chosen targets must be pairwise distinct
        let chosen = &votes[i].1;
        let mut a: usize = 0;
        while a < chosen.len()
            invariant
                0 <= a <= chosen@.len(),
                chosen@ == vv[i as int].1,
                0 <= i < votes@.len(),
                vv == crate::game::votes_v(votes@),
                forall|x: int, y: int|
                    0 <= x < y < chosen@.len() && x < a ==> chosen@[x] != chosen@[y],
            decreases chosen@.len() - a,
        {
            let mut b: usize = a + 1;
            while b < chosen.len()
                invariant
                    0 <= a < b <= chosen@.len(),
                    0 <= i < votes@.len(),
                    vv == crate::game::votes_v(votes@),
                    chosen@ == vv[i as int].1,
                    forall|y: int| a < y < b ==> chosen@[y] != chosen@[a as int],
                decreases chosen@.len() - b,
            {
                if chosen[b] == chosen[a] {
                    proof {
                        assert(chosen@[b as int] == chosen@[a as int]);
                        assert(!nodup(vv[i as int].1));
                        assert(!voting_wf(ov, vv, ps));
                    }
                    return false;
                }
                b += 1;
            }
            a += 1;
        }
        proof {
            assert(nodup(vv[i as int].1));
        }
        i += 1;
    }
    true
}

/// Whether a trial satisfies the phase invariant.
fn check_trial(defendant_id: i64, verdicts: &Vec<(i64, Verdict)>, players: &Vec<Player>) -> (b:
    bool)
    ensures
        b == trial_wf(defendant_id, verdicts@, players_v(players@)),
{
    let ghost vv = verdicts@;
    let ghost ps = players_v(players@);
    match crate::game::roster::find_index(players, defendant_id) {
        Some(d) => {
            if !players[d].is_alive {
                proof {
                    assert(!(find_player(ps, defendant_id) matches Some(p) && p.is_alive));
                }
                return false;
            }
        },
        None => {
            proof {
                assert(!(find_player(ps, defendant_id) matches Some(p) && p.is_alive));
            }
            return false;
        },
    }
    let mut i: usize = 0;
    while i < verdicts.len()
        invariant
            0 <= i <= verdicts@.len(),
            vv == verdicts@,
            ps == players_v(players@),
            (find_player(ps, defendant_id) matches Some(p) && p.is_alive),
            forall|a: int, b: int|
                0 <= a < b < vv.len() && a < i ==> (#[trigger] vv[a]).0 != (#[trigger] vv[b]).0,
            forall|k: int|
                0 <= k < i ==> {
                    &&& (find_player(ps, (#[trigger] vv[k]).0) matches Some(p) && p.is_alive)
                    &&& vv[k].0 != defendant_id
                },
        decreases verdicts@.len() - i,
    {
        let mut j: usize = i + 1;
        while j < verdicts.len()
            invariant
                0 <= i < j <= verdicts@.len(),
                vv == verdicts@,
                forall|b: int| i < b < j ==> (#[trigger] vv[b]).0 != vv[i as int].0,
            decreases verdicts@.len() - j,
        {
            if verdicts[j].0 == verdicts[i].0 {
                proof {
                    assert(!alist_keys_distinct(vv));
                }
                return false;
            }
            j += 1;
        }
        if verdicts[i].0 == defendant_id {
            proof {
                assert(vv[i as int].0 == defendant_id);
            }
            return false;
        }
        match crate::game::roster::find_index(players, verdicts[i].0) {
            Some(a) => {
                if !players[a].is_alive {
                    proof {
                        assert(!(find_player(ps, (vv[i as int]).0) matches Some(p)
                            && p.is_alive));
                    }
                    return false;
                }
            },
            None => {
                proof {
                    assert(!(find_player(ps, (vv[i as int]).0) matches Some(p) && p.is_alive));
                }
                return false;
            },
        }
        i += 1;
    }
    true
}

impl GameV1 {
    /// Reassembles a game from previously extracted parts, validating the
    /// engine invariant; a restored game replays exactly like the one the
    /// parts came from.  Returns `None` when the parts do not form a
    /// well-formed state.
    pub fn from_parts(
        players: Vec<Player>,
        phase: GamePhase,
        previous_phase: Option<GamePhase>,
        transition_message: String,
        poll_msg_ids: Vec<(i64, i32)>,
    ) -> (r: Option<GameV1>)
        ensures
            ({
                let s = GameStateV {
                    players: players_v(players@),
                    phase: phase@,
                    previous_phase: match previous_phase {
                        Option::Some(p) => Option::Some(p@),
                        Option::None => Option::None,
                    },
                    transition_message: transition_message@,
                    poll_msg_ids: poll_msg_ids@,
                };
                match r {
                    Some(g) => state_wf(s) && g@ == s && g.wf(),
                    None => !state_wf(s),
                }
            }),
    {
        if !check_roster(&players) {
            return None;
        }
        let phase_ok = match &phase {
            GamePhase::Night { actions } => check_night(actions, &players),
            GamePhase::Voting { options, votes } => check_voting(options, votes, &players),
            GamePhase::Trial { defendant_id, verdicts } => check_trial(
                *defendant_id,
                verdicts,
                &players,
            ),
            GamePhase::Ending => true,
        };
        if !phase_ok {
            return None;
        }
        Some(
            GameV1 {
                players,
                phase,
                previous_phase,
                transition_message,
                poll_msg_ids,
            },
        )
    }
}

} // verus!
