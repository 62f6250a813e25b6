//! Vote and verdict tallying: pure counting functions over the mathematical
//! vote map, with the executable counterparts used by the engine.

use vstd::prelude::*;

use crate::game::Verdict;

verus! {

/// Number of occurrences of `x` in `s`.
pub open spec fn count_in(s: Seq<i64>, x: i64) -> nat
    decreases s.len(),
{
    if s.len() == 0 {
        0
    } else {
        count_in(s.drop_last(), x) + (if s.last() == x {
            1nat
        } else {
            0nat
        })
    }
}

/// No element appears twice.
pub open spec fn nodup(s: Seq<i64>) -> bool {
    forall|i: int, j: int| 0 <= i < j < s.len() ==> s[i] != s[j]
}

pub proof fn lemma_count_in_le_len(s: Seq<i64>, x: i64)
    ensures
        count_in(s, x) <= s.len(),
    decreases s.len(),
{
    if s.len() > 0 {
        lemma_count_in_le_len(s.drop_last(), x);
    }
}

pub proof fn lemma_count_in_absent(s: Seq<i64>, x: i64)
    requires
        forall|i: int| 0 <= i < s.len() ==> s[i] != x,
    ensures
        count_in(s, x) == 0,
    decreases s.len(),
{
    if s.len() > 0 {
        lemma_count_in_absent(s.drop_last(), x);
    }
}

/// In a duplicate-free choice list every target is counted at most once.
pub proof fn lemma_count_in_nodup(s: Seq<i64>, x: i64)
    requires
        nodup(s),
    ensures
        count_in(s, x) <= 1,
    decreases s.len(),
{
    if s.len() > 0 {
        if s.last() == x {
            lemma_count_in_absent(s.drop_last(), x);
        } else {
            assert(nodup(s.drop_last()));
            lemma_count_in_nodup(s.drop_last(), x);
        }
    }
}

/// Total support for `target`: one vote for each occurrence of `target` in
/// some voter's choice list.
pub open spec fn vote_count(votes: Seq<(i64, Seq<i64>)>, target: i64) -> nat
    decreases votes.len(),
{
    if votes.len() == 0 {
        0
    } else {
        vote_count(votes.drop_last(), target) + count_in(votes.last().1, target)
    }
}


/// Highest support any option in `opts` receives (0 when `opts` is empty).
pub open spec fn max_vote_count(opts: Seq<(i64, Seq<char>)>, votes: Seq<(i64, Seq<i64>)>) -> nat
    decreases opts.len(),
{
    if opts.len() == 0 {
        0
    } else {
        let rest = max_vote_count(opts.drop_last(), votes);
        let c = vote_count(votes, opts.last().0);
        if c > rest {
            c
        } else {
            rest
        }
    }
}

/// Number of options whose support equals `m`.
pub open spec fn tied_count(
    opts: Seq<(i64, Seq<char>)>,
    votes: Seq<(i64, Seq<i64>)>,
    m: nat,
) -> nat
    decreases opts.len(),
{
    if opts.len() == 0 {
        0
    } else {
        tied_count(opts.drop_last(), votes, m) + (if vote_count(votes, opts.last().0) == m {
            1nat
        } else {
            0nat
        })
    }
}

/// First option whose support equals `m` (meaningful when one exists).
pub open spec fn first_top(
    opts: Seq<(i64, Seq<char>)>,
    votes: Seq<(i64, Seq<i64>)>,
    m: nat,
) -> (i64, Seq<char>)
    decreases opts.len(),
{
    if opts.len() == 0 {
        (crate::game::VOTE_OPTION_NOBODY, Seq::empty())
    } else if vote_count(votes, opts[0].0) == m {
        opts[0]
    } else {
        first_top(opts.drop_first(), votes, m)
    }
}

/// Number of `v` verdicts cast.
pub open spec fn count_verdicts(vs: Seq<(i64, Verdict)>, v: Verdict) -> nat
    decreases vs.len(),
{
    if vs.len() == 0 {
        0
    } else {
        count_verdicts(vs.drop_last(), v) + (if vs.last().1 == v {
            1nat
        } else {
            0nat
        })
    }
}

pub proof fn lemma_count_verdicts_le_len(vs: Seq<(i64, Verdict)>, v: Verdict)
    ensures
        count_verdicts(vs, v) <= vs.len(),
    decreases vs.len(),
{
    if vs.len() > 0 {
        lemma_count_verdicts_le_len(vs.drop_last(), v);
    }
}

/// Counts how often `x` occurs in `v`.
pub fn count_in_vec(v: &Vec<i64>, x: i64) -> (c: usize)
    ensures
        c == count_in(v@, x),
{
    proof {
        lemma_count_in_le_len(v@, x);
    }
    let mut c: usize = 0;
    let mut i: usize = 0;
    while i < v.len()
        invariant
            0 <= i <= v.len(),
            c == count_in(v@.subrange(0, i as int), x),
            c <= i,
        decreases v.len() - i,
    {
        proof {
            assert(v@.subrange(0, i + 1 as int).drop_last() =~= v@.subrange(0, i as int));
            assert(v@.subrange(0, i + 1 as int).last() == v@[i as int]);
        }
        if v[i] == x {
            c += 1;
        }
        i += 1;
    }
    proof {
        assert(v@.subrange(0, v@.len() as int) =~= v@);
    }
    c
}

/// Whether `v` contains `x`.
pub fn vec_contains(v: &Vec<i64>, x: i64) -> (b: bool)
    ensures
        b == v@.contains(x),
{
    let mut i: usize = 0;
    while i < v.len()
        invariant
            0 <= i <= v.len(),
            forall|j: int| 0 <= j < i ==> v@[j] != x,
        decreases v.len() - i,
    {
        if v[i] == x {
            return true;
        }
        i += 1;
    }
    false
}


/// A forward scan that stops at the first option with support `m` finds
/// `first_top`.
pub proof fn lemma_first_top_char(
    opts: Seq<(i64, Seq<char>)>,
    votes: Seq<(i64, Seq<i64>)>,
    m: nat,
    k: int,
)
    requires
        0 <= k < opts.len(),
        vote_count(votes, opts[k].0) == m,
        forall|j: int| 0 <= j < k ==> vote_count(votes, (#[trigger] opts[j]).0) != m,
    ensures
        first_top(opts, votes, m) == opts[k],
    decreases k,
{
    if k > 0 {
        assert(vote_count(votes, opts[0].0) != m);
        assert(forall|j: int|
            0 <= j < opts.drop_first().len() ==> #[trigger] opts.drop_first()[j] == opts[j + 1]);
        lemma_first_top_char(opts.drop_first(), votes, m, k - 1);
    }
}

/// Counts the total support for `target` over the whole vote map.
pub fn count_votes_for(votes: &Vec<(i64, Vec<i64>)>, target: i64) -> (c: usize)
    requires
        forall|k: int|
            0 <= k < votes@.len() ==> nodup((#[trigger] crate::game::votes_v(votes@)[k]).1),
    ensures
        c == vote_count(crate::game::votes_v(votes@), target),
        c <= votes@.len(),
{
    let ghost vv = crate::game::votes_v(votes@);
    let mut c: usize = 0;
    let mut i: usize = 0;
    while i < votes.len()
        invariant
            0 <= i <= votes@.len(),
            vv == crate::game::votes_v(votes@),
            forall|k: int| 0 <= k < votes@.len() ==> nodup((#[trigger] vv[k]).1),
            c == vote_count(vv.subrange(0, i as int), target),
            c <= i,
        decreases votes@.len() - i,
    {
        proof {
            assert(vv.subrange(0, i + 1 as int).drop_last() =~= vv.subrange(0, i as int));
            assert(vv.subrange(0, i + 1 as int).last() == vv[i as int]);
            lemma_count_in_nodup(vv[i as int].1, target);
        }
        let ci = count_in_vec(&votes[i].1, target);
        c += ci;
        i += 1;
    }
    proof {
        assert(vv.subrange(0, vv.len() as int) =~= vv);
    }
    c
}

/// Whether two choice lists name the same set of targets.
pub fn set_equal(a: &Vec<i64>, b: &Vec<i64>) -> (r: bool)
    ensures
        r == (a@.to_set() == b@.to_set()),
{
    let mut i: usize = 0;
    while i < a.len()
        invariant
            0 <= i <= a@.len(),
            forall|j: int| 0 <= j < i ==> b@.contains(#[trigger] a@[j]),
        decreases a@.len() - i,
    {
        if !vec_contains(b, a[i]) {
            proof {
                assert(a@.to_set().contains(a@[i as int]));
                assert(!b@.to_set().contains(a@[i as int]));
            }
            return false;
        }
        i += 1;
    }
    let mut i: usize = 0;
    while i < b.len()
        invariant
            0 <= i <= b@.len(),
            forall|j: int| 0 <= j < a@.len() ==> b@.contains(#[trigger] a@[j]),
            forall|j: int| 0 <= j < i ==> a@.contains(#[trigger] b@[j]),
        decreases b@.len() - i,
    {
        if !vec_contains(a, b[i]) {
            proof {
                assert(b@.to_set().contains(b@[i as int]));
                assert(!a@.to_set().contains(b@[i as int]));
            }
            return false;
        }
        i += 1;
    }
    proof {
        assert(a@.to_set() =~= b@.to_set());
    }
    true
}


/// Counts the verdicts equal to `v`.
pub fn count_verdicts_vec(vs: &Vec<(i64, Verdict)>, v: Verdict) -> (c: usize)
    ensures
        c == count_verdicts(vs@, v),
        c <= vs@.len(),
{
    let mut c: usize = 0;
    let mut i: usize = 0;
    while i < vs.len()
        invariant
            0 <= i <= vs@.len(),
            c == count_verdicts(vs@.subrange(0, i as int), v),
            c <= i,
        decreases vs@.len() - i,
    {
        proof {
            assert(vs@.subrange(0, i + 1 as int).drop_last() =~= vs@.subrange(0, i as int));
            assert(vs@.subrange(0, i + 1 as int).last() == vs@[i as int]);
        }
        if vs[i].1 == v {
            c += 1;
        }
        i += 1;
    }
    proof {
        assert(vs@.subrange(0, vs@.len() as int) =~= vs@);
    }
    c
}


/// No option collects more support than the maximum.
pub proof fn lemma_max_ge(opts: Seq<(i64, Seq<char>)>, votes: Seq<(i64, Seq<i64>)>, j: int)
    requires
        0 <= j < opts.len(),
    ensures
        vote_count(votes, opts[j].0) <= max_vote_count(opts, votes),
    decreases opts.len(),
{
    if opts.len() > 0 && j < opts.len() - 1 {
        assert(opts.drop_last()[j] == opts[j]);
        lemma_max_ge(opts.drop_last(), votes, j);
    }
}

/// On a nonempty ballot the maximum is attained by some option.
pub proof fn lemma_max_attained(opts: Seq<(i64, Seq<char>)>, votes: Seq<(i64, Seq<i64>)>)
    requires
        opts.len() > 0,
    ensures
        exists|j: int|
            0 <= j < opts.len() && vote_count(votes, (#[trigger] opts[j]).0) == max_vote_count(
                opts,
                votes,
            ),
    decreases opts.len(),
{
    if opts.len() == 1 {
        assert(vote_count(votes, opts[0].0) == max_vote_count(opts, votes));
    } else {
        let m = max_vote_count(opts, votes);
        let c = vote_count(votes, opts.last().0);
        if c == m {
            assert(vote_count(votes, opts[opts.len() - 1].0) == m);
        } else {
            lemma_max_attained(opts.drop_last(), votes);
            let j = choose|j: int|
                0 <= j < opts.drop_last().len() && vote_count(
                    votes,
                    (#[trigger] opts.drop_last()[j]).0,
                ) == max_vote_count(opts.drop_last(), votes);
            assert(opts[j] == opts.drop_last()[j]);
        }
    }
}

/// A support level that no option attains has no tied options.
pub proof fn lemma_tied_count_zero(
    opts: Seq<(i64, Seq<char>)>,
    votes: Seq<(i64, Seq<i64>)>,
    m: nat,
)
    requires
        forall|j: int| 0 <= j < opts.len() ==> vote_count(votes, (#[trigger] opts[j]).0) != m,
    ensures
        tied_count(opts, votes, m) == 0,
    decreases opts.len(),
{
    if opts.len() > 0 {
        assert(forall|j: int|
            0 <= j < opts.drop_last().len() ==> #[trigger] opts.drop_last()[j] == opts[j]);
        lemma_tied_count_zero(opts.drop_last(), votes, m);
        assert(vote_count(votes, opts[opts.len() - 1].0) != m);
    }
}

/// When one option strictly out-polls every other, it alone sits at the
/// maximum: the tally has exactly one top option, and it is that one.
pub proof fn lemma_unique_max(opts: Seq<(i64, Seq<char>)>, votes: Seq<(i64, Seq<i64>)>, k: int)
    requires
        0 <= k < opts.len(),
        forall|j: int|
            0 <= j < opts.len() && j != k ==> vote_count(votes, (#[trigger] opts[j]).0)
                < vote_count(votes, opts[k].0),
    ensures
        max_vote_count(opts, votes) == vote_count(votes, opts[k].0),
        tied_count(opts, votes, max_vote_count(opts, votes)) == 1,
        first_top(opts, votes, max_vote_count(opts, votes)) == opts[k],
    decreases opts.len(),
{
    let m = vote_count(votes, opts[k].0);
    assert(forall|j: int|
        0 <= j < opts.drop_last().len() ==> #[trigger] opts.drop_last()[j] == opts[j]);
    if k == opts.len() - 1 {
        if opts.len() == 1 {
        } else {
            lemma_max_attained(opts.drop_last(), votes);
            let j = choose|j: int|
                0 <= j < opts.drop_last().len() && vote_count(
                    votes,
                    (#[trigger] opts.drop_last()[j]).0,
                ) == max_vote_count(opts.drop_last(), votes);
            assert(vote_count(votes, opts[j].0) < m);
            assert(max_vote_count(opts.drop_last(), votes) < m);
        }
        assert(max_vote_count(opts, votes) == m);
        assert(tied_count(opts.drop_last(), votes, m) == 0) by {
            lemma_tied_count_zero(opts.drop_last(), votes, m);
        }
    } else {
        lemma_unique_max(opts.drop_last(), votes, k);
        assert(vote_count(votes, opts[opts.len() - 1].0) < m);
        assert(max_vote_count(opts, votes) == m);
    }
    lemma_first_top_char(opts, votes, m, k);
}

/// Two options tied at the maximum make the top count at least two.
pub proof fn lemma_two_way_tie(
    opts: Seq<(i64, Seq<char>)>,
    votes: Seq<(i64, Seq<i64>)>,
    k1: int,
    k2: int,
)
    requires
        0 <= k1 < k2 < opts.len(),
        vote_count(votes, opts[k1].0) == max_vote_count(opts, votes),
        vote_count(votes, opts[k2].0) == max_vote_count(opts, votes),
    ensures
        tied_count(opts, votes, max_vote_count(opts, votes)) >= 2,
{
    lemma_tied_count_counts(opts, votes, max_vote_count(opts, votes), k2);
    assert(tied_count(opts.subrange(0, k2), votes, max_vote_count(opts, votes)) >= 1) by {
        lemma_tied_count_counts(opts.subrange(0, k2), votes, max_vote_count(opts, votes), k1);
        assert(opts.subrange(0, k2)[k1] == opts[k1]);
    }
}

/// An attained support level is counted at least once among the first
/// `i + 1` options, and prefixes never count more than the whole.
pub proof fn lemma_tied_count_counts(
    opts: Seq<(i64, Seq<char>)>,
    votes: Seq<(i64, Seq<i64>)>,
    m: nat,
    i: int,
)
    requires
        0 <= i < opts.len(),
        vote_count(votes, opts[i].0) == m,
    ensures
        tied_count(opts, votes, m) >= tied_count(opts.subrange(0, i), votes, m) + 1,
    decreases opts.len(),
{
    if i == opts.len() - 1 {
        assert(opts.drop_last() =~= opts.subrange(0, i));
    } else {
        assert(forall|j: int|
            0 <= j < opts.drop_last().len() ==> #[trigger] opts.drop_last()[j] == opts[j]);
        lemma_tied_count_counts(opts.drop_last(), votes, m, i);
        assert(opts.drop_last().subrange(0, i) =~= opts.subrange(0, i));
    }
}

} // verus!
