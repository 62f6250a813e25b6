//! The engine's cross-cutting guarantees, each stated over the mathematical
//! state and proved from the definitions the operations' contracts use.

use vstd::prelude::*;

use crate::game::alist::lemma_upsert_absorbs;
use crate::game::game_v1::{
    dedup, night_action_legal, night_record, phase_complete, resolve_choices, resolve_phase,
    resolve_trial, resolve_voting, state_wf, verdict_legal, verdict_of_index, verdict_record,
    vote_choices_valid, vote_legal, vote_record, voting_stalemate, GameStateV,
};
use crate::game::roster::{
    count_living_civilians, count_living_mafia, find_player, kill_one, player_index,
    vote_options_of, winner_of,
};
use crate::game::tally::{count_verdicts, max_vote_count, vote_count};
use crate::game::{PhaseV, PlayerV, Role, Verdict, VOTE_OPTION_NOBODY};

verus! {

/// Recording a night action twice for the same actor keeps only the second
/// target: the first recording is fully absorbed, and no duplicate kill
/// actions accumulate.
pub proof fn lemma_night_action_idempotent(s: GameStateV, actor: i64, t1: i64, t2: i64)
    requires
        s.phase is Night,
    ensures
        night_record(night_record(s, actor, t1), actor, t2) == night_record(s, actor, t2),
{
    let actions = s.phase->Night_actions;
    match find_player(s.players, actor) {
        Some(a) => {
            if a.role == Role::Mafia {
                lemma_upsert_absorbs(actions, actor, t1, t2);
                assert(night_record(night_record(s, actor, t1), actor, t2) =~~= night_record(
                    s,
                    actor,
                    t2,
                ));
            }
        },
        None => {},
    }
}

/// With no living Mafia member left, the Civilians have won.
pub proof fn lemma_civilians_win(ps: Seq<PlayerV>)
    requires
        count_living_mafia(ps) == 0,
    ensures
        winner_of(ps) == Some("Civilians"@),
{
}

/// While at least one Mafia member lives and the living non-Mafia strictly
/// outnumber the living Mafia, the game is undecided.  (At exact numeric
/// parity the Mafia win instead.)
pub proof fn lemma_no_win_while_outnumbered(ps: Seq<PlayerV>)
    requires
        count_living_mafia(ps) >= 1,
        count_living_civilians(ps) > count_living_mafia(ps),
    ensures
        winner_of(ps) is None,
{
}

/// A stalemate - two consecutive voting rounds with identical per-voter
/// chosen sets - escalates to Night, pre-empting the plurality and tie
/// rules whatever the tally says.
pub proof fn lemma_stalemate_preempts(s: GameStateV)
    requires
        s.phase is Voting,
        voting_stalemate(s),
    ensures
        resolve_voting(s).phase == (PhaseV::Night { actions: Seq::<(i64, i64)>::empty() }),
        resolve_voting(s).players == s.players,
        resolve_voting(s).transition_message
            == "No change in votes 2 rounds in a row. Moving to night time..."@,
{
}

/// Two real options tied at the top force a fresh re-vote over the same
/// living players, never a trial.
pub proof fn lemma_tie_revotes(s: GameStateV, k1: int, k2: int)
    requires
        s.phase is Voting,
        !voting_stalemate(s),
        0 <= k1 < k2 < s.phase->Voting_options.len(),
        vote_count(s.phase->Voting_votes, s.phase->Voting_options[k1].0) == max_vote_count(
            s.phase->Voting_options,
            s.phase->Voting_votes,
        ),
        vote_count(s.phase->Voting_votes, s.phase->Voting_options[k2].0) == max_vote_count(
            s.phase->Voting_options,
            s.phase->Voting_votes,
        ),
    ensures
        resolve_voting(s).phase == (PhaseV::Voting {
            options: vote_options_of(s.players),
            votes: Seq::<(i64, Seq<i64>)>::empty(),
        }),
        resolve_voting(s).players == s.players,
        resolve_voting(s).transition_message
            == "Multiple options were tied for first place. Moving to re-vote"@,
{
    crate::game::tally::lemma_two_way_tie(
        s.phase->Voting_options,
        s.phase->Voting_votes,
        k1,
        k2,
    );
}

/// A unique top option that names a player (not "Nobody") opens that
/// player's trial, with an empty verdict map.
pub proof fn lemma_plurality_goes_to_trial(s: GameStateV, k: int)
    requires
        s.phase is Voting,
        !voting_stalemate(s),
        0 <= k < s.phase->Voting_options.len(),
        s.phase->Voting_options[k].0 != VOTE_OPTION_NOBODY,
        forall|j: int|
            0 <= j < s.phase->Voting_options.len() && j != k ==> vote_count(
                s.phase->Voting_votes,
                (#[trigger] s.phase->Voting_options[j]).0,
            ) < vote_count(s.phase->Voting_votes, s.phase->Voting_options[k].0),
    ensures
        resolve_voting(s).phase == (PhaseV::Trial {
            defendant_id: s.phase->Voting_options[k].0,
            verdicts: Seq::<(i64, Verdict)>::empty(),
        }),
        resolve_voting(s).players == s.players,
{
    crate::game::tally::lemma_unique_max(s.phase->Voting_options, s.phase->Voting_votes, k);
}

/// A unique top option that is the "Nobody" sentinel escalates to Night:
/// the group chose not to lynch.
pub proof fn lemma_nobody_plurality_goes_to_night(s: GameStateV, k: int)
    requires
        s.phase is Voting,
        !voting_stalemate(s),
        0 <= k < s.phase->Voting_options.len(),
        s.phase->Voting_options[k].0 == VOTE_OPTION_NOBODY,
        forall|j: int|
            0 <= j < s.phase->Voting_options.len() && j != k ==> vote_count(
                s.phase->Voting_votes,
                (#[trigger] s.phase->Voting_options[j]).0,
            ) < vote_count(s.phase->Voting_votes, s.phase->Voting_options[k].0),
    ensures
        resolve_voting(s).phase == (PhaseV::Night { actions: Seq::<(i64, i64)>::empty() }),
        resolve_voting(s).players == s.players,
        resolve_voting(s).transition_message
            == "Most popular vote was not to lynch. Moving to night time..."@,
{
    crate::game::tally::lemma_unique_max(s.phase->Voting_options, s.phase->Voting_votes, k);
}

/// A trial that ends with as many guilty as innocent verdicts (abstentions
/// aside) lynches the defendant: ties resolve to the guilty branch.
pub proof fn lemma_trial_tie_lynches(s: GameStateV)
    requires
        state_wf(s),
        s.phase is Trial,
        count_verdicts(s.phase->Trial_verdicts, Verdict::Guilty) == count_verdicts(
            s.phase->Trial_verdicts,
            Verdict::Innocent,
        ),
    ensures
        find_player(resolve_trial(s).players, s.phase->Trial_defendant_id) matches Some(p)
            && !p.is_alive,
{
    let d = s.phase->Trial_defendant_id;
    let ps = s.players;
    crate::game::roster::lemma_find_player_props(ps, d);
    let idx = player_index(ps, d);
    let ps2 = kill_one(ps, d).0;
    assert(ps2 == ps.update(
        idx,
        PlayerV {
            chat_id: ps[idx].chat_id,
            username: ps[idx].username,
            role: ps[idx].role,
            is_alive: false,
            is_connected: ps[idx].is_connected,
        },
    ));
    crate::game::roster::lemma_find_player_props(ps2, d);
    let idx2 = player_index(ps2, d);
    assert(find_player(ps2, d) is Some) by {
        assert(ps2[idx].chat_id == d);
    }
    // the first index holding id d is the same in both rosters
    assert(idx2 == idx) by {
        assert(forall|j: int| 0 <= j < ps.len() ==> (#[trigger] ps2[j]).chat_id == ps[j].chat_id);
    }
}

/// One recorded engine operation, as the replay law speaks of it.
pub ghost enum EngineOp {
    RecordNightAction { actor: i64, target: i64 },
    RecordVote { voter: i64, choices: Seq<i32> },
    RecordVerdict { juror: i64, chosen: i32 },
    EndPhase,
}

/// The state after one operation: exactly the successful effect of the
/// corresponding engine call, and the unchanged state where that call would
/// return an error or report an incomplete phase.
pub open spec fn apply_op(s: GameStateV, op: EngineOp) -> GameStateV {
    match op {
        EngineOp::RecordNightAction { actor, target } => if s.phase is Night
            && night_action_legal(s, actor, target) {
            night_record(s, actor, target)
        } else {
            s
        },
        EngineOp::RecordVote { voter, choices } => if s.phase is Voting && vote_legal(s, voter)
            && vote_choices_valid(s.phase->Voting_options, choices) {
            vote_record(s, voter, dedup(resolve_choices(s.phase->Voting_options, choices)))
        } else {
            s
        },
        EngineOp::RecordVerdict { juror, chosen } => if s.phase is Trial && verdict_legal(
            s,
            juror,
        ) && 0 <= chosen < 3 {
            verdict_record(s, juror, verdict_of_index(chosen))
        } else {
            s
        },
        EngineOp::EndPhase => if phase_complete(s) {
            resolve_phase(s)
        } else {
            s
        },
    }
}

/// The state after a sequence of operations, applied in order.
pub open spec fn replay(s: GameStateV, ops: Seq<EngineOp>) -> GameStateV
    decreases ops.len(),
{
    if ops.len() == 0 {
        s
    } else {
        apply_op(replay(s, ops.drop_last()), ops.last())
    }
}

/// Round trip: every engine operation is a pure function of the abstract
/// state, so a game whose extracted parts were stored and reassembled -
/// which `GameV1::from_parts` guarantees leaves the abstract state equal -
/// replays any sequence of recorded operations to the same transition
/// messages and the same phases as the original.
pub proof fn lemma_replay_round_trip(s1: GameStateV, s2: GameStateV, ops: Seq<EngineOp>)
    requires
        s1 == s2,
    ensures
        replay(s1, ops) == replay(s2, ops),
        replay(s1, ops).transition_message == replay(s2, ops).transition_message,
        replay(s1, ops).phase == replay(s2, ops).phase,
{
}

} // verus!
