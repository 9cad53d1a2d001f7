//! Small verified text utilities used by the bundled actions.

use vstd::prelude::*;

verus! {

/// `needle` stands at position `k` of `hay`.
pub open spec fn match_at(hay: Seq<char>, needle: Seq<char>, k: int) -> bool {
    hay.subrange(k, k + needle.len()) == needle
}

/// `needle` occurs as a contiguous part of `hay`.
pub open spec fn contains_seq(hay: Seq<char>, needle: Seq<char>) -> bool {
    exists|k: int| 0 <= k <= hay.len() - needle.len() && #[trigger] match_at(hay, needle, k)
}

/// Whether `needle` occurs as a contiguous part of `hay`.
pub fn str_contains(hay: &str, needle: &str) -> (r: bool)
    ensures
        r == contains_seq(hay@, needle@),
{
    let n = hay.unicode_len();
    let m = needle.unicode_len();
    if m > n {
        return false;
    }
    if m == 0 {
        proof {
            assert(hay@.subrange(0, 0 + needle@.len() as int) =~= needle@);
            assert(match_at(hay@, needle@, 0));
        }
        return true;
    }
    let mut k: usize = 0;
    while k <= n - m
        invariant
            n == hay@.len(),
            m == needle@.len(),
            0 < m <= n,
            k <= n - m + 1,
            forall|k2: int| 0 <= k2 < k ==> !(#[trigger] match_at(hay@, needle@, k2)),
        decreases n - k,
    {
        let mut j: usize = 0;
        let mut matches_here = true;
        while j < m
            invariant
                n == hay@.len(),
                m == needle@.len(),
                0 < m <= n,
                k <= n - m,
                j <= m,
                matches_here ==> forall|j2: int| 0 <= j2 < j ==> hay@[k + j2] == needle@[j2],
                !matches_here ==> !match_at(hay@, needle@, k as int),
            decreases m - j,
        {
            if hay.get_char(k + j) != needle.get_char(j) {
                proof {
                    assert(hay@.subrange(k as int, k + needle@.len())[j as int] == hay@[k + j]);
                }
                matches_here = false;
                j = m;
            } else {
                j = j + 1;
            }
        }
        if matches_here {
            proof {
                assert(hay@.subrange(k as int, k + needle@.len()) =~= needle@);
                assert(match_at(hay@, needle@, k as int));
            }
            return true;
        }
        k = k + 1;
    }
    false
}

/// The decimal digit character for `d`.
pub open spec fn dec_digit(d: int) -> char {
    if d == 0 {
        '0'
    } else if d == 1 {
        '1'
    } else if d == 2 {
        '2'
    } else if d == 3 {
        '3'
    } else if d == 4 {
        '4'
    } else if d == 5 {
        '5'
    } else if d == 6 {
        '6'
    } else if d == 7 {
        '7'
    } else if d == 8 {
        '8'
    } else {
        '9'
    }
}

/// The decimal rendering of `n`, without leading zeroes.
pub open spec fn dec_rep(n: int) -> Seq<char>
    decreases n,
{
    if n < 10 {
        seq![dec_digit(n)]
    } else {
        dec_rep(n / 10).push(dec_digit(n % 10))
    }
}

/// The one-character string for a decimal digit.
fn digit_string(d: u64) -> (r: String)
    requires
        d < 10,
    ensures
        r@ == seq![dec_digit(d as int)],
{
    let r = match d {
        0 => "0",
        1 => "1",
        2 => "2",
        3 => "3",
        4 => "4",
        5 => "5",
        6 => "6",
        7 => "7",
        8 => "8",
        _ => "9",
    };
    proof {
        reveal_strlit("0");
        reveal_strlit("1");
        reveal_strlit("2");
        reveal_strlit("3");
        reveal_strlit("4");
        reveal_strlit("5");
        reveal_strlit("6");
        reveal_strlit("7");
        reveal_strlit("8");
        reveal_strlit("9");
        assert(r@ =~= seq![dec_digit(d as int)]);
    }
    r.to_owned()
}

/// Render `n` in decimal.
pub fn u64_to_string(n: u64) -> (r: String)
    ensures
        r@ == dec_rep(n as int),
    decreases n,
{
    if n < 10 {
        digit_string(n)
    } else {
        let mut r = u64_to_string(n / 10);
        let last = digit_string(n % 10);
        r.append(last.as_str());
        proof {
            assert(dec_rep((n / 10) as int) + seq![dec_digit((n % 10) as int)] =~= dec_rep(
                (n / 10) as int,
            ).push(dec_digit((n % 10) as int)));
        }
        r
    }
}

/// The parts joined by single spaces.
pub open spec fn spec_join_spaces(parts: Seq<String>) -> Seq<char>
    decreases parts.len(),
{
    if parts.len() == 0 {
        Seq::empty()
    } else if parts.len() == 1 {
        parts[0]@
    } else {
        spec_join_spaces(parts.drop_last()) + " "@ + parts.last()@
    }
}

/// Join the parts with single spaces between them.
pub fn join_spaces(parts: &Vec<String>) -> (r: String)
    ensures
        r@ == spec_join_spaces(parts@),
{
    let mut r = String::new();
    let n = parts.len();
    let mut i: usize = 0;
    while i < n
        invariant
            n == parts@.len(),
            i <= n,
            r@ == spec_join_spaces(parts@.take(i as int)),
        decreases n - i,
    {
        proof {
            assert(parts@.take(i + 1).drop_last() =~= parts@.take(i as int));
            assert(parts@.take(i + 1).last() == parts@[i as int]);
            if i == 0 {
                assert(parts@.take(1)[0] == parts@[0]);
            }
        }
        if i > 0 {
            r.append(" ");
        }
        r.append(parts[i].as_str());
        i = i + 1;
    }
    proof {
        assert(parts@.take(n as int) =~= parts@);
    }
    r
}

} // verus!
