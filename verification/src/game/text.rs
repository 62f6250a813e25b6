//! Verified text building for the engine's transition messages: decimal
//! rendering of tallies and comma-joined name lists.

use vstd::prelude::*;

verus! {

/// Decimal digit character of `d` (meaningful for `d < 10`).
pub open spec fn digit_char(d: nat) -> char {
    if d == 0 {
        '0'
    } else if d == 1 {
        '1'
    } else if d == 2 {
        '2'
    } else if d == 3 {
        '3'
    } else if d == 4 {
        '4'
    } else if d == 5 {
        '5'
    } else if d == 6 {
        '6'
    } else if d == 7 {
        '7'
    } else if d == 8 {
        '8'
    } else {
        '9'
    }
}

/// Decimal rendering of `n`, most significant digit first, no sign, no
/// padding; `0` renders as "0".
pub open spec fn dec_of(n: nat) -> Seq<char>
    decreases n,
{
    if n < 10 {
        seq![digit_char(n)]
    } else {
        dec_of(n / 10).push(digit_char(n % 10))
    }
}

/// Renders `n` in decimal.
pub fn usize_to_string(n: usize) -> (s: String)
    ensures
        s@ == dec_of(n as nat),
    decreases n,
{
    let d: &str = match n % 10 {
        0 => "0",
        1 => "1",
        2 => "2",
        3 => "3",
        4 => "4",
        5 => "5",
        6 => "6",
        7 => "7",
        8 => "8",
        _ => "9",
    };
    proof {
        reveal_strlit("0");
        reveal_strlit("1");
        reveal_strlit("2");
        reveal_strlit("3");
        reveal_strlit("4");
        reveal_strlit("5");
        reveal_strlit("6");
        reveal_strlit("7");
        reveal_strlit("8");
        reveal_strlit("9");
        assert(d@ =~= seq![digit_char((n % 10) as nat)]);
    }
    if n < 10 {
        let mut s = String::new();
        s.append(d);
        proof {
            assert(s@ =~= dec_of(n as nat));
        }
        s
    } else {
        let mut s = usize_to_string(n / 10);
        s.append(d);
        proof {
            assert(s@ =~= dec_of(n as nat));
        }
        s
    }
}

/// `names` joined by ", ", in order: the empty sequence for no names, the
/// single name alone, and "a, b, c" style otherwise.
pub open spec fn join_comma(names: Seq<Seq<char>>) -> Seq<char>
    decreases names.len(),
{
    if names.len() == 0 {
        Seq::empty()
    } else if names.len() == 1 {
        names[0]
    } else {
        join_comma(names.drop_last()) + ", "@ + names.last()
    }
}

/// Joins `names` with ", ".
pub fn join_names(names: &Vec<String>) -> (s: String)
    ensures
        s@ == join_comma(names@.map_values(|x: String| x@)),
{
    let ghost m = names@.map_values(|x: String| x@);
    let mut s = String::new();
    let mut i: usize = 0;
    while i < names.len()
        invariant
            0 <= i <= names.len(),
            m == names@.map_values(|x: String| x@),
            s@ == join_comma(m.subrange(0, i as int)),
        decreases names.len() - i,
    {
        if i > 0 {
            s.append(", ");
        }
        s.append(names[i].as_str());
        proof {
            assert(m.subrange(0, i + 1 as int).drop_last() =~= m.subrange(0, i as int));
            assert(m.subrange(0, i + 1 as int).last() == m[i as int]);
            if i == 0 {
                assert(s@ =~= join_comma(m.subrange(0, i + 1 as int)));
            } else {
                assert(s@ =~= join_comma(m.subrange(0, i + 1 as int)));
            }
        }
        i += 1;
    }
    proof {
        assert(m.subrange(0, names@.len() as int) =~= m);
    }
    s
}

} // verus!
