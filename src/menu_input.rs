//! Reading the choices typed at the text menu.
use vstd::prelude::*;
use crate::chars::{chars_of, find_char_from, first_char_from, is_space, is_space_char, trim_back, trim_front};
use crate::extract::{all_digits, digits_value};

verus! {

/// The pieces of `s` between commas, from position `start` on.
pub open spec fn pieces_from(s: Seq<char>, start: int) -> Seq<Seq<char>>
    decreases s.len() - start,
{
    if start < 0 || start > s.len() {
        Seq::empty()
    } else {
        let k = first_char_from(s, start, ',');
        if start <= k && k < s.len() {
            seq![s.subrange(start, k)] + pieces_from(s, k + 1)
        } else {
            seq![s.subrange(start, s.len() as int)]
        }
    }
}

/// The number a trimmed piece denotes: an optional `+` and decimal digits
/// whose value fits in `usize`.
pub open spec fn number_of(t: Seq<char>) -> Option<nat> {
    let d = if t.len() > 0 && t[0] == '+' {
        t.drop_first()
    } else {
        t
    };
    if d.len() > 0 && all_digits(d) && digits_value(d) <= usize::MAX {
        Some(digits_value(d))
    } else {
        None
    }
}

/// The menu ids named by the pieces, in order, that lie in `1..=count`.
pub open spec fn ids_of(pieces: Seq<Seq<char>>, count: nat) -> Seq<usize>
    decreases pieces.len(),
{
    if pieces.len() == 0 {
        Seq::empty()
    } else {
        let rest = ids_of(pieces.drop_last(), count);
        match number_of(trim_back(trim_front(pieces.last()))) {
            Some(v) => if 1 <= v && v <= count {
                rest.push(v as usize)
            } else {
                rest
            },
            None => rest,
        }
    }
}

/// The ids `1..=n` of the entries that may run: all of them when
/// privileged, else those that need no elevated rights.
pub open spec fn runnable_ids(requires_root: Seq<bool>, is_root: bool, n: nat) -> Seq<usize>
    decreases n,
{
    if n == 0 {
        Seq::empty()
    } else {
        let rest = runnable_ids(requires_root, is_root, (n - 1) as nat);
        if !requires_root[n - 1] || is_root {
            rest.push(n as usize)
        } else {
            rest
        }
    }
}

/// What a menu answer selects: `0` (around white space) picks every
/// runnable entry; otherwise the comma-separated ids within range, in order.
pub open spec fn selections(input: Seq<char>, requires_root: Seq<bool>, is_root: bool) -> Seq<usize> {
    if trim_back(trim_front(input)) == seq!['0'] {
        runnable_ids(requires_root, is_root, requires_root.len())
    } else {
        ids_of(pieces_from(input, 0), requires_root.len())
    }
}

/// `s` without surrounding white space.
pub fn trim_text(s: &str) -> (r: String)
    ensures
        r@ == trim_back(trim_front(s@)),
{
    let v = chars_of(s);
    let n = v.len();
    let ghost t = v@;
    let mut a: usize = 0;
    assert(t.subrange(0, n as int) =~= t);
    while a < n && is_space_char(v[a])
        invariant
            t == v@,
            n == t.len(),
            a <= n,
            trim_front(t) == trim_front(t.subrange(a as int, n as int)),
        decreases n - a,
    {
        assert(t.subrange(a as int, n as int).drop_first() =~= t.subrange(a + 1, n as int));
        a = a + 1;
    }
    let mut b: usize = n;
    while b > a && is_space_char(v[b - 1])
        invariant
            t == v@,
            n == t.len(),
            a <= b <= n,
            trim_back(trim_front(t)) == trim_back(t.subrange(a as int, b as int)),
        decreases b,
    {
        assert(t.subrange(a as int, b as int).drop_last() =~= t.subrange(a as int, b - 1));
        b = b - 1;
    }
    String::from_str(s.substring_char(a, b))
}

/// The number a trimmed piece denotes (see [`number_of`]).
pub fn parse_number(t: &str) -> (r: Option<usize>)
    ensures
        r matches Some(v) ==> number_of(t@) == Some(v as nat),
        r is None ==> number_of(t@) is None,
{
    let v = chars_of(t);
    let n = v.len();
    let start: usize = if n > 0 && v[0] == '+' {
        1
    } else {
        0
    };
    let ghost d = if t@.len() > 0 && t@[0] == '+' {
        t@.drop_first()
    } else {
        t@
    };
    assert(d =~= v@.subrange(start as int, n as int));
    if start == n {
        return None;
    }
    let cap: u128 = 0x1_0000_0000_0000_0000;
    let mut acc: u128 = 0;
    let mut i: usize = start;
    while i < n
        invariant
            v@ == t@,
            n == v@.len(),
            start <= i <= n,
            d == v@.subrange(start as int, n as int),
            d == (if t@.len() > 0 && t@[0] == '+' {
                t@.drop_first()
            } else {
                t@
            }),
            cap == 0x1_0000_0000_0000_0000u128,
            acc <= cap,
            acc as nat == if digits_value(v@.subrange(start as int, i as int)) > cap {
                cap as nat
            } else {
                digits_value(v@.subrange(start as int, i as int))
            },
            all_digits(v@.subrange(start as int, i as int)),
        decreases n - i,
    {
        let c = v[i];
        if !(c >= '0' && c <= '9') {
            assert(d[i - start] == c);
            assert(!crate::extract::is_digit(d[i - start]));
            assert(!all_digits(d));
            return None;
        }
        let ghost prev = v@.subrange(start as int, i as int);
        let ghost next = v@.subrange(start as int, i + 1);
        assert(next.drop_last() =~= prev);
        let dg = (c as u32 - 48) as u128;
        if acc * 10 + dg > cap {
            acc = cap;
        } else {
            acc = acc * 10 + dg;
        }
        i = i + 1;
        assert forall|k: int| 0 <= k < next.len() implies crate::extract::is_digit(next[k]) by {
            if k < next.len() - 1 {
                assert(next[k] == prev[k]);
            }
        }
    }
    assert(v@.subrange(start as int, n as int) == d);
    if acc > usize::MAX as u128 {
        None
    } else {
        Some(acc as usize)
    }
}

/// The menu ids that an answer selects, for entries whose elevation needs
/// are `requires_root` (see [`selections`]).
pub fn parse_selections(input: &str, requires_root: &Vec<bool>, is_root: bool) -> (r: Vec<usize>)
    ensures
        r@ == selections(input@, requires_root@, is_root),
{
    let count = requires_root.len();
    let whole = trim_text(input);
    let zero = String::from_str("0");
    proof {
        reveal_strlit("0");
        assert(zero@ =~= seq!['0']);
    }
    if whole.eq(&zero) {
        let mut ids: Vec<usize> = Vec::new();
        let mut k: usize = 0;
        while k < count
            invariant
                count == requires_root@.len(),
                k <= count,
                ids@ == runnable_ids(requires_root@, is_root, k as nat),
            decreases count - k,
        {
            if !requires_root[k] || is_root {
                ids.push(k + 1);
            }
            k = k + 1;
        }
        return ids;
    }
    assert(trim_back(trim_front(input@)) != seq!['0']);
    let v = chars_of(input);
    let n = v.len();
    let ghost s = input@;
    let ghost all = pieces_from(s, 0);
    let mut ids: Vec<usize> = Vec::new();
    let mut start: usize = 0;
    let ghost mut done: Seq<Seq<char>> = Seq::empty();
    loop
        invariant_except_break
            done + pieces_from(s, start as int) == all,
        invariant
            v@ == s,
            s == input@,
            n == s.len(),
            start <= n,
            count == requires_root@.len(),
            ids@ == ids_of(done, count as nat),
        ensures
            done == all,
            ids@ == ids_of(done, count as nat),
        decreases n - start,
    {
        let k = find_char_from(&v, start, ',');
        let piece = input.substring_char(start, k);
        let ghost p = s.subrange(start as int, k as int);
        let t = trim_text(piece);
        match parse_number(t.as_str()) {
            Some(id) => {
                if 1 <= id && id <= count {
                    ids.push(id);
                }
            },
            None => {},
        }
        let ghost before = done;
        proof {
            done = done.push(p);
            assert(done.drop_last() =~= before);
        }
        if k < n {
            assert(seq![p] + pieces_from(s, k + 1) == pieces_from(s, start as int));
            assert(done + pieces_from(s, k + 1) =~= before + pieces_from(s, start as int));
            start = k + 1;
        } else {
            assert(pieces_from(s, start as int) == seq![p]);
            assert(done =~= before + pieces_from(s, start as int));
            break;
        }
    }
    ids
}

} // verus!
