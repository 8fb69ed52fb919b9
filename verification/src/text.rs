//! The textual form of a list of intervals: `start-end` pairs in decimal,
//! joined by commas.

use vstd::prelude::*;

verus! {

/// The character of a decimal digit.
pub open spec fn digit(d: nat) -> char
    recommends
        d < 10,
{
    if d == 0 {
        '0'
    } else if d == 1 {
        '1'
    } else if d == 2 {
        '2'
    } else if d == 3 {
        '3'
    } else if d == 4 {
        '4'
    } else if d == 5 {
        '5'
    } else if d == 6 {
        '6'
    } else if d == 7 {
        '7'
    } else if d == 8 {
        '8'
    } else {
        '9'
    }
}

/// The decimal numeral of `n`, without leading zeros.
pub open spec fn decimal(n: nat) -> Seq<char>
    decreases n,
{
    if n < 10 {
        seq![digit(n)]
    } else {
        decimal(n / 10).push(digit(n % 10))
    }
}

/// The text of one interval: its start, a hyphen, its end.
pub open spec fn pair_text(iv: (u64, u64)) -> Seq<char> {
    decimal(iv.0 as nat) + seq!['-'] + decimal(iv.1 as nat)
}

/// The text of a list of intervals: the texts of its intervals in order,
/// with a comma between neighbours.
pub open spec fn durations_text(s: Seq<(u64, u64)>) -> Seq<char>
    decreases s.len(),
{
    if s.len() == 0 {
        Seq::empty()
    } else if s.len() == 1 {
        pair_text(s[0])
    } else {
        durations_text(s.drop_last()) + seq![','] + pair_text(s.last())
    }
}

fn digit_text(d: u64) -> (r: &'static str)
    requires
        d < 10,
    ensures
        r@ == seq![digit(d as nat)],
{
    proof {
        reveal_strlit("0");
        reveal_strlit("1");
        reveal_strlit("2");
        reveal_strlit("3");
        reveal_strlit("4");
        reveal_strlit("5");
        reveal_strlit("6");
        reveal_strlit("7");
        reveal_strlit("8");
        reveal_strlit("9");
    }
    let r = if d == 0 {
        "0"
    } else if d == 1 {
        "1"
    } else if d == 2 {
        "2"
    } else if d == 3 {
        "3"
    } else if d == 4 {
        "4"
    } else if d == 5 {
        "5"
    } else if d == 6 {
        "6"
    } else if d == 7 {
        "7"
    } else if d == 8 {
        "8"
    } else {
        "9"
    };
    assert(r@ =~= seq![digit(d as nat)]);
    r
}

/// Writes `n` in decimal.
pub fn decimal_text(n: u64) -> (r: String)
    ensures
        r@ == decimal(n as nat),
    decreases n,
{
    if n < 10 {
        String::from_str(digit_text(n))
    } else {
        let mut r = decimal_text(n / 10);
        r.append(digit_text(n % 10));
        assert(r@ =~= decimal(n as nat));
        r
    }
}

/// Writes a list of intervals as `start-end` pairs joined by commas.
pub fn format_durations(intervals: &Vec<(u64, u64)>) -> (r: String)
    ensures
        r@ == durations_text(intervals@),
{
    let mut r = String::new();
    let mut i: usize = 0;
    while i < intervals.len()
        invariant
            i <= intervals.len(),
            r@ == durations_text(intervals@.take(i as int)),
        decreases intervals.len() - i,
    {
        let (start, end) = intervals[i];
        let ghost before = r@;
        if i > 0 {
            r.append(",");
        }
        let first = decimal_text(start);
        let second = decimal_text(end);
        r.append(first.as_str());
        r.append("-");
        r.append(second.as_str());
        proof {
            let t = intervals@.take(i + 1);
            assert(t.drop_last() =~= intervals@.take(i as int));
            assert(t.last() == (start, end));
            reveal_strlit(",");
            reveal_strlit("-");
            assert(","@ =~= seq![',']);
            assert("-"@ =~= seq!['-']);
            if i == 0 {
                assert(before =~= Seq::<char>::empty());
                assert(t[0] == (start, end));
                assert(r@ =~= pair_text((start, end)));
            } else {
                assert(r@ =~= before + seq![','] + pair_text((start, end)));
            }
        }
        i += 1;
    }
    proof {
        assert(intervals@.take(intervals.len() as int) =~= intervals@);
    }
    r
}

} // verus!
