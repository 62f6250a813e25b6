//! Data model of a running game: players, roles, phases, verdicts, and the
//! errors the engine reports.

use vstd::prelude::*;

pub mod alist;
pub mod game_v1;
pub mod laws;
pub mod roster;
pub mod tally;
pub mod text;

verus! {

/// Faction of a player.  Exactly one player per game is Mafia.
#[derive(Copy, Clone, Debug, PartialEq, Eq, Structural)]
pub enum Role {
    Mafia,
    Civilian,
}

/// A juror's decision during a trial.
#[derive(Copy, Clone, Debug, PartialEq, Eq, Structural)]
pub enum Verdict {
    Guilty,
    Innocent,
    Abstain,
}

impl Verdict {
    /// Display label of the verdict option.
    pub fn label(&self) -> (r: String)
        ensures
            r@ == match self {
                Verdict::Guilty => "Guilty"@,
                Verdict::Innocent => "Innocent"@,
                Verdict::Abstain => "Abstain"@,
            },
    {
        match self {
            Verdict::Guilty => String::from_str("Guilty"),
            Verdict::Innocent => String::from_str("Innocent"),
            Verdict::Abstain => String::from_str("Abstain"),
        }
    }
}

/// A night action: one Mafia member (`source`) chooses a kill `target`,
/// which is either a player id or `NOBODY_CHAT_ID`.
#[derive(Copy, Clone, Debug, PartialEq, Eq, Structural)]
pub enum Action {
    Kill { source: i64, target: i64 },
}

/// Everything the engine can fail with.  Every mutating operation either
/// fully succeeds or returns one of these without touching the state.
#[derive(Copy, Clone, Debug, PartialEq, Eq, Structural)]
pub enum GameError {
    /// The operation does not belong to the current phase.
    InvalidPhase,
    /// The referenced actor, target, option index or juror is not part of
    /// the current legal menu.
    InvalidTarget,
    /// A game needs at least three members.
    InsufficientPlayers,
}

/// Sentinel id for the "Nobody" pseudo-target.  Never a real player id.
pub const NOBODY_CHAT_ID: i64 = -1;

/// Sentinel vote option meaning "lynch nobody".  Same id as `NOBODY_CHAT_ID`.
pub const VOTE_OPTION_NOBODY: i64 = -1;

/// A participant of one game.  The roster is fixed at game start; only
/// `is_alive` and `is_connected` change afterwards.
pub struct Player {
    pub chat_id: i64,
    pub username: String,
    pub role: Role,
    pub is_alive: bool,
    pub is_connected: bool,
}

/// Mathematical image of a `Player`.
pub ghost struct PlayerV {
    pub chat_id: i64,
    pub username: Seq<char>,
    pub role: Role,
    pub is_alive: bool,
    pub is_connected: bool,
}

impl View for Player {
    type V = PlayerV;

    open spec fn view(&self) -> PlayerV {
        PlayerV {
            chat_id: self.chat_id,
            username: self.username@,
            role: self.role,
            is_alive: self.is_alive,
            is_connected: self.is_connected,
        }
    }
}

impl Clone for Player {
    fn clone(&self) -> (res: Player)
        ensures
            res@ == self@,
    {
        Player {
            chat_id: self.chat_id,
            username: self.username.clone(),
            role: self.role,
            is_alive: self.is_alive,
            is_connected: self.is_connected,
        }
    }
}

/// The active phase of a game.  Exactly one is active at a time; `end_phase`
/// on the owning game is the only way the active variant changes.
///
/// All per-phase maps are stored as association lists with pairwise distinct
/// keys, in insertion order.
pub enum GamePhase {
    /// Mafia members secretly choose kill targets.
    Night { actions: Vec<Action> },
    /// Everyone alive votes on whom to put on trial.  `options` pairs a
    /// target id with its display label; `votes` maps a voter to the
    /// distinct target ids they chose.
    Voting { options: Vec<(i64, String)>, votes: Vec<(i64, Vec<i64>)> },
    /// The jury casts verdicts over the defendant.
    Trial { defendant_id: i64, verdicts: Vec<(i64, Verdict)> },
    /// Terminal phase; no further operation is legal.
    Ending,
}

/// Mathematical image of a `GamePhase`.  Maps become sequences of key/value
/// pairs; strings become character sequences.
#[verifier::ext_equal]
pub ghost enum PhaseV {
    Night { actions: Seq<(i64, i64)> },
    Voting { options: Seq<(i64, Seq<char>)>, votes: Seq<(i64, Seq<i64>)> },
    Trial { defendant_id: i64, verdicts: Seq<(i64, Verdict)> },
    Ending,
}

/// One night action as a (source, target) pair.
pub open spec fn action_v(a: Action) -> (i64, i64) {
    match a {
        Action::Kill { source, target } => (source, target),
    }
}

pub open spec fn actions_v(s: Seq<Action>) -> Seq<(i64, i64)> {
    s.map_values(|a: Action| action_v(a))
}

pub open spec fn opts_v(s: Seq<(i64, String)>) -> Seq<(i64, Seq<char>)> {
    s.map_values(|p: (i64, String)| (p.0, p.1@))
}

pub open spec fn votes_v(s: Seq<(i64, Vec<i64>)>) -> Seq<(i64, Seq<i64>)> {
    s.map_values(|p: (i64, Vec<i64>)| (p.0, p.1@))
}

pub open spec fn players_v(s: Seq<Player>) -> Seq<PlayerV> {
    s.map_values(|p: Player| p@)
}

/// Copies a vector of plain values.
pub fn copy_vec<T: Copy>(v: &Vec<T>) -> (r: Vec<T>)
    ensures
        r@ == v@,
{
    let mut r: Vec<T> = Vec::new();
    let mut i: usize = 0;
    while i < v.len()
        invariant
            0 <= i <= v@.len(),
            r@ =~= v@.subrange(0, i as int),
        decreases v@.len() - i,
    {
        r.push(v[i]);
        i += 1;
    }
    proof {
        assert(v@.subrange(0, v@.len() as int) =~= v@);
    }
    r
}

/// Copies a ballot, labels included.
pub fn clone_options(v: &Vec<(i64, String)>) -> (r: Vec<(i64, String)>)
    ensures
        opts_v(r@) == opts_v(v@),
        r@.len() == v@.len(),
{
    let mut r: Vec<(i64, String)> = Vec::new();
    let mut i: usize = 0;
    while i < v.len()
        invariant
            0 <= i <= v@.len(),
            r@.len() == i,
            opts_v(r@) =~= opts_v(v@.subrange(0, i as int)),
        decreases v@.len() - i,
    {
        let ghost r0 = r@;
        let label = v[i].1.clone();
        r.push((v[i].0, label));
        proof {
            assert(r@ == r0.push((v@[i as int].0, label)));
            assert forall|k: int| 0 <= k < r@.len() implies opts_v(r@)[k] == opts_v(
                v@.subrange(0, i + 1 as int),
            )[k] by {
                if k < i {
                    assert(opts_v(r0)[k] == opts_v(v@.subrange(0, i as int))[k]);
                    assert(r@[k] == r0[k]);
                    assert(v@.subrange(0, i + 1 as int)[k] == v@.subrange(0, i as int)[k]);
                } else {
                    assert(r@[k] == (v@[i as int].0, label));
                    assert(label@ == v@[i as int].1@);
                }
            }
            assert(opts_v(r@) =~= opts_v(v@.subrange(0, i + 1 as int)));
        }
        i += 1;
    }
    proof {
        assert(v@.subrange(0, v@.len() as int) =~= v@);
    }
    r
}

/// Copies a vote map, choice lists included.
pub fn clone_votes(v: &Vec<(i64, Vec<i64>)>) -> (r: Vec<(i64, Vec<i64>)>)
    ensures
        votes_v(r@) == votes_v(v@),
        r@.len() == v@.len(),
{
    let mut r: Vec<(i64, Vec<i64>)> = Vec::new();
    let mut i: usize = 0;
    while i < v.len()
        invariant
            0 <= i <= v@.len(),
            r@.len() == i,
            votes_v(r@) =~= votes_v(v@.subrange(0, i as int)),
        decreases v@.len() - i,
    {
        let ghost r0 = r@;
        let chosen = copy_vec(&v[i].1);
        r.push((v[i].0, chosen));
        proof {
            assert(r@ == r0.push((v@[i as int].0, chosen)));
            assert forall|k: int| 0 <= k < r@.len() implies votes_v(r@)[k] == votes_v(
                v@.subrange(0, i + 1 as int),
            )[k] by {
                if k < i {
                    assert(votes_v(r0)[k] == votes_v(v@.subrange(0, i as int))[k]);
                    assert(r@[k] == r0[k]);
                    assert(v@.subrange(0, i + 1 as int)[k] == v@.subrange(0, i as int)[k]);
                } else {
                    assert(r@[k] == (v@[i as int].0, chosen));
                    assert(chosen@ == v@[i as int].1@);
                }
            }
            assert(votes_v(r@) =~= votes_v(v@.subrange(0, i + 1 as int)));
        }
        i += 1;
    }
    proof {
        assert(v@.subrange(0, v@.len() as int) =~= v@);
    }
    r
}

impl Clone for GamePhase {
    fn clone(&self) -> (res: GamePhase)
        ensures
            res@ == self@,
    {
        match self {
            GamePhase::Night { actions } => GamePhase::Night { actions: copy_vec(actions) },
            GamePhase::Voting { options, votes } => GamePhase::Voting {
                options: clone_options(options),
                votes: clone_votes(votes),
            },
            GamePhase::Trial { defendant_id, verdicts } => GamePhase::Trial {
                defendant_id: *defendant_id,
                verdicts: copy_vec(verdicts),
            },
            GamePhase::Ending => GamePhase::Ending,
        }
    }
}

pub open spec fn prompts_v(s: Seq<(i64, (String, Vec<(i64, String)>))>) -> Seq<
    (i64, (Seq<char>, Seq<(i64, Seq<char>)>)),
> {
    s.map_values(|e: (i64, (String, Vec<(i64, String)>))| (e.0, (e.1.0@, opts_v(e.1.1@))))
}

impl View for GamePhase {
    type V = PhaseV;

    open spec fn view(&self) -> PhaseV {
        match self {
            GamePhase::Night { actions } => PhaseV::Night { actions: actions_v(actions@) },
            GamePhase::Voting { options, votes } => PhaseV::Voting {
                options: opts_v(options@),
                votes: votes_v(votes@),
            },
            GamePhase::Trial { defendant_id, verdicts } => PhaseV::Trial {
                defendant_id: *defendant_id,
                verdicts: verdicts@,
            },
            GamePhase::Ending => PhaseV::Ending,
        }
    }
}

} // verus!
