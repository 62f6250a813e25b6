//! The player roster: lookup, faction counting, the win condition, option
//! menus derived from the living players, and night kill resolution.

use vstd::prelude::*;

use crate::game::{Player, PlayerV, Role, players_v, NOBODY_CHAT_ID, VOTE_OPTION_NOBODY};

verus! {

/// Pairwise distinct player ids.
pub open spec fn ids_distinct(ps: Seq<PlayerV>) -> bool {
    forall|i: int, j: int|
        0 <= i < j < ps.len() ==> (#[trigger] ps[i]).chat_id != (#[trigger] ps[j]).chat_id
}

/// No player carries the reserved "Nobody" id.
pub open spec fn no_sentinel(ps: Seq<PlayerV>) -> bool {
    forall|i: int| 0 <= i < ps.len() ==> (#[trigger] ps[i]).chat_id != NOBODY_CHAT_ID
}

pub open spec fn roster_wf(ps: Seq<PlayerV>) -> bool {
    ids_distinct(ps) && no_sentinel(ps)
}

/// First player with id `id`, if any.
pub open spec fn find_player(ps: Seq<PlayerV>, id: i64) -> Option<PlayerV>
    decreases ps.len(),
{
    if ps.len() == 0 {
        None
    } else if ps[0].chat_id == id {
        Some(ps[0])
    } else {
        find_player(ps.drop_first(), id)
    }
}

/// Index of the first player with id `id` (meaningful when one exists).
pub open spec fn player_index(ps: Seq<PlayerV>, id: i64) -> int
    decreases ps.len(),
{
    if ps.len() == 0 {
        0
    } else if ps[0].chat_id == id {
        0
    } else {
        1 + player_index(ps.drop_first(), id)
    }
}

pub proof fn lemma_find_player_props(ps: Seq<PlayerV>, id: i64)
    ensures
        (find_player(ps, id) is Some) <==> exists|i: int|
            0 <= i < ps.len() && (#[trigger] ps[i]).chat_id == id,
        find_player(ps, id) is Some ==> {
            let idx = player_index(ps, id);
            &&& 0 <= idx < ps.len()
            &&& ps[idx].chat_id == id
            &&& find_player(ps, id) == Some(ps[idx])
            &&& forall|j: int| 0 <= j < idx ==> (#[trigger] ps[j]).chat_id != id
        },
    decreases ps.len(),
{
    if ps.len() > 0 && ps[0].chat_id != id {
        lemma_find_player_props(ps.drop_first(), id);
        assert(forall|i: int| 0 < i < ps.len() ==> ps.drop_first()[i - 1] == #[trigger] ps[i]);
        if find_player(ps, id) is Some {
            let idx = player_index(ps.drop_first(), id);
            assert(ps[idx + 1] == ps.drop_first()[idx]);
        }
    }
}

/// Number of occurrences of `role` in a role vector.
pub open spec fn count_role_in(s: Seq<Role>, role: Role) -> nat
    decreases s.len(),
{
    if s.len() == 0 {
        0
    } else {
        count_role_in(s.drop_last(), role) + (if s.last() == role {
            1nat
        } else {
            0nat
        })
    }
}

/// Counting a role is a function of the multiset of roles alone, so a
/// shuffle never changes it.
pub proof fn lemma_count_role_in_multiset(s: Seq<Role>, role: Role)
    ensures
        count_role_in(s, role) == s.to_multiset().count(role),
    decreases s.len(),
{
    broadcast use vstd::seq_lib::group_to_multiset_ensures;

    if s.len() == 0 {
        assert(s.to_multiset() =~= vstd::multiset::Multiset::empty());
        assert(s.to_multiset().count(role) == 0);
    } else {
        lemma_count_role_in_multiset(s.drop_last(), role);
        assert(s =~= s.drop_last().push(s.last()));
        assert(s.to_multiset() =~= s.drop_last().to_multiset().insert(s.last()));
    }
}

/// Number of players of role `role`, dead or alive.
pub open spec fn count_role(ps: Seq<PlayerV>, role: Role) -> nat
    decreases ps.len(),
{
    if ps.len() == 0 {
        0
    } else {
        count_role(ps.drop_last(), role) + (if ps.last().role == role {
            1nat
        } else {
            0nat
        })
    }
}

/// Number of living Mafia members.
pub open spec fn count_living_mafia(ps: Seq<PlayerV>) -> nat
    decreases ps.len(),
{
    if ps.len() == 0 {
        0
    } else {
        count_living_mafia(ps.drop_last()) + (if ps.last().is_alive && ps.last().role
            == Role::Mafia {
            1nat
        } else {
            0nat
        })
    }
}

/// Number of living non-Mafia players.
pub open spec fn count_living_civilians(ps: Seq<PlayerV>) -> nat
    decreases ps.len(),
{
    if ps.len() == 0 {
        0
    } else {
        count_living_civilians(ps.drop_last()) + (if ps.last().is_alive && ps.last().role
            == Role::Civilian {
            1nat
        } else {
            0nat
        })
    }
}

/// The win condition, evaluated over the living roster: no Mafia left means
/// the Civilians won; Mafia at numeric parity with or majority over the
/// living non-Mafia means the Mafia won; anything else continues the game.
pub open spec fn winner_of(ps: Seq<PlayerV>) -> Option<Seq<char>> {
    if count_living_mafia(ps) == 0 {
        Some("Civilians"@)
    } else if count_living_mafia(ps) >= count_living_civilians(ps) {
        Some("Mafia"@)
    } else {
        None
    }
}

/// `(id, name)` menu entries of the living players, in roster order.
pub open spec fn roster_options(ps: Seq<PlayerV>) -> Seq<(i64, Seq<char>)>
    decreases ps.len(),
{
    if ps.len() == 0 {
        Seq::empty()
    } else {
        roster_options(ps.drop_last()) + (if ps.last().is_alive {
            seq![(ps.last().chat_id, ps.last().username)]
        } else {
            Seq::empty()
        })
    }
}

/// The ballot for a voting round: every living player plus "Nobody".
pub open spec fn vote_options_of(ps: Seq<PlayerV>) -> Seq<(i64, Seq<char>)> {
    roster_options(ps) + seq![(VOTE_OPTION_NOBODY, "Nobody"@)]
}

/// `(id, name)` menu entries of the living non-Mafia players, in order.
pub open spec fn kill_targets(ps: Seq<PlayerV>) -> Seq<(i64, Seq<char>)>
    decreases ps.len(),
{
    if ps.len() == 0 {
        Seq::empty()
    } else {
        kill_targets(ps.drop_last()) + (if ps.last().is_alive && ps.last().role == Role::Civilian {
            seq![(ps.last().chat_id, ps.last().username)]
        } else {
            Seq::empty()
        })
    }
}

/// A Mafia member's kill menu: every living non-Mafia player plus "Nobody".
pub open spec fn kill_options_of(ps: Seq<PlayerV>) -> Seq<(i64, Seq<char>)> {
    kill_targets(ps) + seq![(NOBODY_CHAT_ID, "Nobody"@)]
}

/// A night target is legal when it is the sentinel or a living non-Mafia
/// player.
pub open spec fn legal_kill_target(ps: Seq<PlayerV>, target: i64) -> bool {
    ||| target == NOBODY_CHAT_ID
    ||| (find_player(ps, target) matches Some(p) && p.is_alive && p.role == Role::Civilian)
}

/// Resolves a single kill: a living target is marked dead and its name
/// recorded; the sentinel, unknown ids and already dead targets change
/// nothing.
pub open spec fn kill_one(ps: Seq<PlayerV>, target: i64) -> (Seq<PlayerV>, Seq<Seq<char>>) {
    match find_player(ps, target) {
        Some(p) => if p.is_alive {
            let idx = player_index(ps, target);
            (
                ps.update(
                    idx,
                    PlayerV {
                        chat_id: p.chat_id,
                        username: p.username,
                        role: p.role,
                        is_alive: false,
                        is_connected: p.is_connected,
                    },
                ),
                seq![p.username],
            )
        } else {
            (ps, Seq::empty())
        },
        None => (ps, Seq::empty()),
    }
}

/// Resolves every recorded kill in order, collecting the names of those who
/// died.  Double kills on one target count once: the second kill finds the
/// target already dead.
pub open spec fn apply_kills(ps: Seq<PlayerV>, actions: Seq<(i64, i64)>) -> (
    Seq<PlayerV>,
    Seq<Seq<char>>,
)
    decreases actions.len(),
{
    if actions.len() == 0 {
        (ps, Seq::empty())
    } else {
        let r = apply_kills(ps, actions.drop_last());
        let k = kill_one(r.0, actions.last().1);
        (k.0, r.1 + k.1)
    }
}

/// Killing never changes ids, names, roles, connectedness or the roster
/// length, and never revives anyone.
pub proof fn lemma_kill_one_frame(ps: Seq<PlayerV>, target: i64)
    ensures
        kill_one(ps, target).0.len() == ps.len(),
        forall|i: int| 0 <= i < ps.len() ==> {
            let q = #[trigger] kill_one(ps, target).0[i];
            &&& q.chat_id == ps[i].chat_id
            &&& q.username == ps[i].username
            &&& q.role == ps[i].role
            &&& q.is_connected == ps[i].is_connected
            &&& (q.is_alive ==> ps[i].is_alive)
        },
{
    lemma_find_player_props(ps, target);
}

pub proof fn lemma_apply_kills_frame(ps: Seq<PlayerV>, actions: Seq<(i64, i64)>)
    ensures
        apply_kills(ps, actions).0.len() == ps.len(),
        forall|i: int| 0 <= i < ps.len() ==> {
            let q = #[trigger] apply_kills(ps, actions).0[i];
            &&& q.chat_id == ps[i].chat_id
            &&& q.username == ps[i].username
            &&& q.role == ps[i].role
            &&& q.is_connected == ps[i].is_connected
            &&& (q.is_alive ==> ps[i].is_alive)
        },
    decreases actions.len(),
{
    if actions.len() > 0 {
        lemma_apply_kills_frame(ps, actions.drop_last());
        lemma_kill_one_frame(apply_kills(ps, actions.drop_last()).0, actions.last().1);
    }
}

/// `e` names a living player of `ps` by id, labelled with that player's
/// name.
pub open spec fn entry_of_living(ps: Seq<PlayerV>, e: (i64, Seq<char>)) -> bool {
    exists|i: int|
        0 <= i < ps.len() && (#[trigger] ps[i]).is_alive && ps[i].chat_id == e.0
            && ps[i].username == e.1
}

/// Every ballot entry before the sentinel is a living player with its own
/// name as the label.
pub proof fn lemma_roster_options_membership(ps: Seq<PlayerV>)
    ensures
        forall|k: int|
            0 <= k < roster_options(ps).len() ==> entry_of_living(
                ps,
                #[trigger] roster_options(ps)[k],
            ),
    decreases ps.len(),
{
    if ps.len() > 0 {
        lemma_roster_options_membership(ps.drop_last());
        let ro = roster_options(ps);
        let rd = roster_options(ps.drop_last());
        assert forall|k: int| 0 <= k < ro.len() implies entry_of_living(
            ps,
            #[trigger] ro[k],
        ) by {
            if k < rd.len() {
                assert(ro[k] == rd[k]);
                assert(entry_of_living(ps.drop_last(), rd[k]));
                let i = choose|i: int|
                    0 <= i < ps.drop_last().len() && (#[trigger] ps.drop_last()[i]).is_alive
                        && ps.drop_last()[i].chat_id == rd[k].0 && ps.drop_last()[i].username
                        == rd[k].1;
                assert(ps[i] == ps.drop_last()[i]);
            } else {
                let i = ps.len() - 1;
                assert(ps[i].is_alive && ps[i].chat_id == ro[k].0 && ps[i].username == ro[k].1);
            }
        }
    }
}


/// Distinct roster ids give distinct ballot ids among the living entries.
pub proof fn lemma_roster_options_ids_distinct(ps: Seq<PlayerV>)
    requires
        ids_distinct(ps),
    ensures
        forall|i: int, j: int|
            0 <= i < j < roster_options(ps).len() ==> (#[trigger] roster_options(ps)[i]).0
                != (#[trigger] roster_options(ps)[j]).0,
    decreases ps.len(),
{
    if ps.len() > 0 {
        assert(ids_distinct(ps.drop_last())) by {
            assert(forall|i: int|
                0 <= i < ps.drop_last().len() ==> #[trigger] ps.drop_last()[i] == ps[i]);
        }
        lemma_roster_options_ids_distinct(ps.drop_last());
        lemma_roster_options_membership(ps.drop_last());
        let ro = roster_options(ps);
        let rd = roster_options(ps.drop_last());
        assert forall|i: int, j: int| 0 <= i < j < ro.len() implies (#[trigger] ro[i]).0
            != (#[trigger] ro[j]).0 by {
            if j < rd.len() {
                assert(ro[i] == rd[i] && ro[j] == rd[j]);
            } else {
                // j indexes the freshly appended last living player, whose id
                // differs from every id already in the menu
                assert(ro[i] == rd[i]);
                assert(ps.last().is_alive && ro[j] == (ps.last().chat_id, ps.last().username));
                assert(entry_of_living(ps.drop_last(), rd[i]));
                let w = choose|w: int|
                    0 <= w < ps.drop_last().len() && (#[trigger] ps.drop_last()[w]).is_alive
                        && ps.drop_last()[w].chat_id == rd[i].0 && ps.drop_last()[w].username
                        == rd[i].1;
                assert(ps[w] == ps.drop_last()[w]);
                assert(ps[w].chat_id != ps[ps.len() - 1].chat_id);
            }
        }
    }
}


/// If `id` does not occur before position `i`, searching the whole roster is
/// the same as searching from `i` on.
pub proof fn lemma_find_skip(ps: Seq<PlayerV>, id: i64, i: int)
    requires
        0 <= i <= ps.len(),
        forall|j: int| 0 <= j < i ==> (#[trigger] ps[j]).chat_id != id,
    ensures
        find_player(ps, id) == find_player(ps.subrange(i, ps.len() as int), id),
        find_player(ps, id) is Some ==> player_index(ps, id) == i + player_index(
            ps.subrange(i, ps.len() as int),
            id,
        ),
    decreases i,
{
    if i > 0 {
        assert(ps[0].chat_id != id);
        assert(forall|j: int|
            0 <= j < ps.drop_first().len() ==> #[trigger] ps.drop_first()[j] == ps[j + 1]);
        lemma_find_skip(ps.drop_first(), id, i - 1);
        assert(ps.drop_first().subrange(i - 1, ps.drop_first().len() as int) =~= ps.subrange(
            i,
            ps.len() as int,
        ));
    } else {
        assert(ps.subrange(0, ps.len() as int) =~= ps);
    }
}

/// Position of the player with id `id`, if the roster has one.
pub fn find_index(players: &Vec<Player>, id: i64) -> (r: Option<usize>)
    ensures
        match r {
            Some(i) => {
                &&& i < players@.len()
                &&& find_player(players_v(players@), id) == Some(players@[i as int]@)
                &&& player_index(players_v(players@), id) == i as int
                &&& players@[i as int]@.chat_id == id
            },
            None => find_player(players_v(players@), id) is None,
        },
{
    let ghost ps = players_v(players@);
    let mut i: usize = 0;
    while i < players.len()
        invariant
            0 <= i <= players@.len(),
            ps == players_v(players@),
            forall|j: int| 0 <= j < i ==> (#[trigger] ps[j]).chat_id != id,
        decreases players@.len() - i,
    {
        if players[i].chat_id == id {
            proof {
                lemma_find_skip(ps, id, i as int);
                let sub = ps.subrange(i as int, ps.len() as int);
                assert(sub[0] == ps[i as int]);
                assert(find_player(sub, id) == Some(sub[0]));
                assert(player_index(sub, id) == 0);
            }
            return Some(i);
        }
        i += 1;
    }
    proof {
        lemma_find_skip(ps, id, ps.len() as int);
        assert(ps.subrange(ps.len() as int, ps.len() as int).len() == 0);
    }
    None
}

/// Counts the living Mafia members.
pub fn living_mafia(players: &Vec<Player>) -> (c: usize)
    ensures
        c == count_living_mafia(players_v(players@)),
{
    let ghost ps = players_v(players@);
    let mut c: usize = 0;
    let mut i: usize = 0;
    while i < players.len()
        invariant
            0 <= i <= players@.len(),
            ps == players_v(players@),
            c == count_living_mafia(ps.subrange(0, i as int)),
            c <= i,
        decreases players@.len() - i,
    {
        proof {
            assert(ps.subrange(0, i + 1 as int).drop_last() =~= ps.subrange(0, i as int));
            assert(ps.subrange(0, i + 1 as int).last() == ps[i as int]);
        }
        if players[i].is_alive && matches!(players[i].role, Role::Mafia) {
            c += 1;
        }
        i += 1;
    }
    proof {
        assert(ps.subrange(0, ps.len() as int) =~= ps);
    }
    c
}

/// Counts the living non-Mafia players.
pub fn living_civilians(players: &Vec<Player>) -> (c: usize)
    ensures
        c == count_living_civilians(players_v(players@)),
{
    let ghost ps = players_v(players@);
    let mut c: usize = 0;
    let mut i: usize = 0;
    while i < players.len()
        invariant
            0 <= i <= players@.len(),
            ps == players_v(players@),
            c == count_living_civilians(ps.subrange(0, i as int)),
            c <= i,
        decreases players@.len() - i,
    {
        proof {
            assert(ps.subrange(0, i + 1 as int).drop_last() =~= ps.subrange(0, i as int));
            assert(ps.subrange(0, i + 1 as int).last() == ps[i as int]);
        }
        if players[i].is_alive && matches!(players[i].role, Role::Civilian) {
            c += 1;
        }
        i += 1;
    }
    proof {
        assert(ps.subrange(0, ps.len() as int) =~= ps);
    }
    c
}

/// Builds the voting ballot: every living player plus the "Nobody" entry.
pub fn build_vote_options(players: &Vec<Player>) -> (r: Vec<(i64, String)>)
    ensures
        crate::game::opts_v(r@) == vote_options_of(players_v(players@)),
{
    let ghost ps = players_v(players@);
    let mut r: Vec<(i64, String)> = Vec::new();
    let mut i: usize = 0;
    while i < players.len()
        invariant
            0 <= i <= players@.len(),
            ps == players_v(players@),
            crate::game::opts_v(r@) =~= roster_options(ps.subrange(0, i as int)),
        decreases players@.len() - i,
    {
        proof {
            assert(ps.subrange(0, i + 1 as int).drop_last() =~= ps.subrange(0, i as int));
            assert(ps.subrange(0, i + 1 as int).last() == ps[i as int]);
        }
        if players[i].is_alive {
            let name = players[i].username.clone();
            r.push((players[i].chat_id, name));
        }
        proof {
            assert(crate::game::opts_v(r@) =~= roster_options(ps.subrange(0, i + 1 as int)));
        }
        i += 1;
    }
    proof {
        assert(ps.subrange(0, ps.len() as int) =~= ps);
    }
    r.push((VOTE_OPTION_NOBODY, String::from_str("Nobody")));
    proof {
        assert(crate::game::opts_v(r@) =~= vote_options_of(ps));
    }
    r
}

/// Builds a Mafia member's kill menu: the living non-Mafia players plus the
/// "Nobody" entry.
pub fn build_kill_options(players: &Vec<Player>) -> (r: Vec<(i64, String)>)
    ensures
        crate::game::opts_v(r@) == kill_options_of(players_v(players@)),
{
    let ghost ps = players_v(players@);
    let mut r: Vec<(i64, String)> = Vec::new();
    let mut i: usize = 0;
    while i < players.len()
        invariant
            0 <= i <= players@.len(),
            ps == players_v(players@),
            crate::game::opts_v(r@) =~= kill_targets(ps.subrange(0, i as int)),
        decreases players@.len() - i,
    {
        proof {
            assert(ps.subrange(0, i + 1 as int).drop_last() =~= ps.subrange(0, i as int));
            assert(ps.subrange(0, i + 1 as int).last() == ps[i as int]);
        }
        if players[i].is_alive && matches!(players[i].role, Role::Civilian) {
            let name = players[i].username.clone();
            r.push((players[i].chat_id, name));
        }
        proof {
            assert(crate::game::opts_v(r@) =~= kill_targets(ps.subrange(0, i + 1 as int)));
        }
        i += 1;
    }
    proof {
        assert(ps.subrange(0, ps.len() as int) =~= ps);
    }
    r.push((NOBODY_CHAT_ID, String::from_str("Nobody")));
    proof {
        assert(crate::game::opts_v(r@) =~= kill_options_of(ps));
    }
    r
}

/// Resolves the recorded kills against the roster, in order, returning the
/// names of those who died.
pub fn run_kills(players: &mut Vec<Player>, actions: &Vec<crate::game::Action>) -> (killed: Vec<
    String,
>)
    ensures
        players_v(final(players)@) == apply_kills(
            players_v(old(players)@),
            crate::game::actions_v(actions@),
        ).0,
        killed@.map_values(|s: String| s@) == apply_kills(
            players_v(old(players)@),
            crate::game::actions_v(actions@),
        ).1,
{
    let ghost ps0 = players_v(old(players)@);
    let ghost av = crate::game::actions_v(actions@);
    let mut killed: Vec<String> = Vec::new();
    let mut k: usize = 0;
    while k < actions.len()
        invariant
            0 <= k <= actions@.len(),
            av == crate::game::actions_v(actions@),
            players_v(players@) == apply_kills(ps0, av.subrange(0, k as int)).0,
            killed@.map_values(|s: String| s@) == apply_kills(ps0, av.subrange(0, k as int)).1,
        decreases actions@.len() - k,
    {
        proof {
            assert(av.subrange(0, k + 1 as int).drop_last() =~= av.subrange(0, k as int));
            assert(av.subrange(0, k + 1 as int).last() == av[k as int]);
        }
        let ghost before = players_v(players@);
        let ghost killed_before = killed@.map_values(|s: String| s@);
        let target = match actions[k] {
            crate::game::Action::Kill { target, .. } => target,
        };
        let idx_opt = find_index(players, target);
        match idx_opt {
            Some(i) => {
                if players[i].is_alive {
                    let name = players[i].username.clone();
                    let dead = Player {
                        chat_id: players[i].chat_id,
                        username: players[i].username.clone(),
                        role: players[i].role,
                        is_alive: false,
                        is_connected: players[i].is_connected,
                    };
                    players.set(i, dead);
                    killed.push(name);
                    proof {
                        assert(players_v(players@) =~= kill_one(before, target).0);
                        assert(killed@.map_values(|s: String| s@) =~= killed_before + kill_one(
                            before,
                            target,
                        ).1);
                    }
                } else {
                    proof {
                        assert(kill_one(before, target).0 == before);
                        assert(killed@.map_values(|s: String| s@) =~= killed_before + kill_one(
                            before,
                            target,
                        ).1);
                    }
                }
            },
            None => {
                proof {
                    assert(kill_one(before, target).0 == before);
                    assert(killed@.map_values(|s: String| s@) =~= killed_before + kill_one(
                        before,
                        target,
                    ).1);
                }
            },
        }
        k += 1;
    }
    proof {
        assert(av.subrange(0, av.len() as int) =~= av);
    }
    killed
}


/// The living players, in roster order.
pub open spec fn living_of(ps: Seq<PlayerV>) -> Seq<PlayerV>
    decreases ps.len(),
{
    if ps.len() == 0 {
        Seq::empty()
    } else {
        living_of(ps.drop_last()) + (if ps.last().is_alive {
            seq![ps.last()]
        } else {
            Seq::empty()
        })
    }
}

/// The living players other than `defendant_id`, in roster order.
pub open spec fn jury_of(ps: Seq<PlayerV>, defendant_id: i64) -> Seq<PlayerV>
    decreases ps.len(),
{
    if ps.len() == 0 {
        Seq::empty()
    } else {
        jury_of(ps.drop_last(), defendant_id) + (if ps.last().is_alive && ps.last().chat_id
            != defendant_id {
            seq![ps.last()]
        } else {
            Seq::empty()
        })
    }
}

/// Copies the living players out of the roster.
pub fn living_players(players: &Vec<Player>) -> (r: Vec<Player>)
    ensures
        players_v(r@) == living_of(players_v(players@)),
{
    let ghost ps = players_v(players@);
    let mut r: Vec<Player> = Vec::new();
    let mut i: usize = 0;
    while i < players.len()
        invariant
            0 <= i <= players@.len(),
            ps == players_v(players@),
            players_v(r@) =~= living_of(ps.subrange(0, i as int)),
        decreases players@.len() - i,
    {
        proof {
            assert(ps.subrange(0, i + 1 as int).drop_last() =~= ps.subrange(0, i as int));
            assert(ps.subrange(0, i + 1 as int).last() == ps[i as int]);
        }
        if players[i].is_alive {
            let p = players[i].clone();
            r.push(p);
        }
        proof {
            assert(players_v(r@) =~= living_of(ps.subrange(0, i + 1 as int)));
        }
        i += 1;
    }
    proof {
        assert(ps.subrange(0, ps.len() as int) =~= ps);
    }
    r
}

/// Copies the living players other than the defendant out of the roster.
pub fn jury_players(players: &Vec<Player>, defendant_id: i64) -> (r: Vec<Player>)
    ensures
        players_v(r@) == jury_of(players_v(players@), defendant_id),
{
    let ghost ps = players_v(players@);
    let mut r: Vec<Player> = Vec::new();
    let mut i: usize = 0;
    while i < players.len()
        invariant
            0 <= i <= players@.len(),
            ps == players_v(players@),
            players_v(r@) =~= jury_of(ps.subrange(0, i as int), defendant_id),
        decreases players@.len() - i,
    {
        proof {
            assert(ps.subrange(0, i + 1 as int).drop_last() =~= ps.subrange(0, i as int));
            assert(ps.subrange(0, i + 1 as int).last() == ps[i as int]);
        }
        if players[i].is_alive && players[i].chat_id != defendant_id {
            let p = players[i].clone();
            r.push(p);
        }
        proof {
            assert(players_v(r@) =~= jury_of(ps.subrange(0, i + 1 as int), defendant_id));
        }
        i += 1;
    }
    proof {
        assert(ps.subrange(0, ps.len() as int) =~= ps);
    }
    r
}

/// What one living player is asked at night: Mafia members get the kill
/// menu, Civilians get no options.
pub open spec fn night_prompt_of(p: PlayerV, menu: Seq<(i64, Seq<char>)>) -> (
    Seq<char>,
    Seq<(i64, Seq<char>)>,
) {
    if p.role == Role::Mafia {
        ("You are a Mafia. Pick a victim to kil:"@, menu)
    } else {
        ("You are a Civilian"@, Seq::empty())
    }
}

/// Night prompts for the living players of `ps`, each Mafia member seeing
/// `menu`.
pub open spec fn night_prompts_from(ps: Seq<PlayerV>, menu: Seq<(i64, Seq<char>)>) -> Seq<
    (i64, (Seq<char>, Seq<(i64, Seq<char>)>)),
>
    decreases ps.len(),
{
    if ps.len() == 0 {
        Seq::empty()
    } else {
        night_prompts_from(ps.drop_last(), menu) + (if ps.last().is_alive {
            seq![(ps.last().chat_id, night_prompt_of(ps.last(), menu))]
        } else {
            Seq::empty()
        })
    }
}

/// The per-player night prompts of a roster.
pub open spec fn night_prompts_of(ps: Seq<PlayerV>) -> Seq<
    (i64, (Seq<char>, Seq<(i64, Seq<char>)>)),
> {
    night_prompts_from(ps, kill_options_of(ps))
}

} // verus!
