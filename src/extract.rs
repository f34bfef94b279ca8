//! Turns the free text that a cleanup run printed into reclaimed-item records.
use vstd::prelude::*;
use crate::chars::{
    chars_of, contains, find_char_from, first_char_from, is_space, is_space_char, str_contains,
};
use crate::store::{CleanedItemType, DetailedCleanedItem, ItemView, views};
use crate::text::{GB, KB, MB};

verus! {

/// A size token: a number with an optional fraction (group 1), optional
/// white space, and a unit (group 2).
pub const SIZE_PATTERN: &'static str = "(\\d+\\.?\\d*)\\s*(KB|MB|GB|bytes)";

/// The text of capture groups 1 and 2 of the leftmost match of a regular
/// expression in a text, or none where it does not compile or does not match.
pub uninterp spec fn regex_captures(pattern: Seq<char>, text: Seq<char>) -> Option<(Seq<char>, Seq<char>)>;

/// Relies on `regex::Regex::new` and `Regex::captures`: the text of capture
/// groups 1 and 2 of the leftmost match (a group that took no part gives an
/// empty string), or `None` where the pattern does not compile or nothing matches.
#[verifier::external_body]
fn first_two_captures(pattern: &str, text: &str) -> (r: Option<(String, String)>)
    ensures
        r matches Some(p) ==> regex_captures(pattern@, text@) == Some((p.0@, p.1@)),
        r is None ==> regex_captures(pattern@, text@) is None,
{
    let re = regex::Regex::new(pattern).ok()?;
    let caps = re.captures(text)?;
    let first = caps.get(1).map_or("", |m| m.as_str());
    let second = caps.get(2).map_or("", |m| m.as_str());
    Some((first.to_string(), second.to_string()))
}

/// Whether a line reports removed or freed data.
pub open spec fn has_marker(line: Seq<char>) -> bool {
    contains(line, "Removed"@) || contains(line, "cleaned"@) || contains(line, "Cleaning"@)
        || contains(line, "freed"@)
}

/// Characters that end a path: a quote or white space.
pub open spec fn stops_path(c: char) -> bool {
    c == '"' || c == '\'' || is_space(c)
}

/// The first position at or after `from` that ends a path, or `s.len()`.
pub open spec fn first_stop_from(s: Seq<char>, from: int) -> int
    decreases s.len() - from,
{
    if from < 0 || from >= s.len() {
        s.len() as int
    } else if stops_path(s[from]) {
        from
    } else {
        first_stop_from(s, from + 1)
    }
}

/// The absolute-looking path of a line: from its first `/` up to the first
/// quote or white space after it.
pub open spec fn path_of(line: Seq<char>) -> Option<Seq<char>> {
    let start = first_char_from(line, 0, '/');
    if start < line.len() {
        Some(line.subrange(start, first_stop_from(line, start)))
    } else {
        None
    }
}

/// An ASCII decimal digit.
pub open spec fn is_digit(c: char) -> bool {
    '0' <= c && c <= '9'
}

/// The value of an ASCII decimal digit.
pub open spec fn digit_value(c: char) -> nat {
    ((c as u32) - 48) as nat
}

/// Whether every character is an ASCII decimal digit.
pub open spec fn all_digits(s: Seq<char>) -> bool {
    forall|i: int| 0 <= i < s.len() ==> is_digit(s[i])
}

/// The number that a string of decimal digits denotes.
pub open spec fn digits_value(s: Seq<char>) -> nat
    decreases s.len(),
{
    if s.len() == 0 {
        0
    } else {
        digits_value(s.drop_last()) * 10 + digit_value(s.last())
    }
}

/// The fraction `0.s` times `m`, rounded down place by place from the last
/// digit (which is rounding down once, see [`lemma_frac_scaled_exact`]).
pub open spec fn frac_scaled(s: Seq<char>, m: nat) -> nat
    decreases s.len(),
{
    if s.len() == 0 {
        0
    } else {
        (digit_value(s[0]) * m + frac_scaled(s.drop_first(), m)) / 10
    }
}

/// Ten to the power `n`.
pub open spec fn pow10(n: nat) -> nat
    decreases n,
{
    if n == 0 {
        1
    } else {
        10 * pow10((n - 1) as nat)
    }
}

proof fn lemma_pow10_positive(n: nat)
    ensures
        pow10(n) > 0,
    decreases n,
{
    if n > 0 {
        lemma_pow10_positive((n - 1) as nat);
    }
}

proof fn lemma_digits_front(s: Seq<char>)
    requires
        s.len() > 0,
    ensures
        digits_value(s) == digit_value(s[0]) * pow10((s.len() - 1) as nat) + digits_value(s.drop_first()),
    decreases s.len(),
{
    let t = s.drop_last();
    let d0 = digit_value(s[0]);
    let dl = digit_value(s.last());
    assert(digits_value(s) == digits_value(t) * 10 + dl);
    if s.len() == 1 {
        assert(t.len() == 0);
        assert(s.drop_first().len() == 0);
        assert(s.last() == s[0]);
        assert(pow10(0) == 1);
        assert(digits_value(t) == 0);
        assert(digits_value(s.drop_first()) == 0);
        assert(d0 * pow10(0) == d0) by (nonlinear_arith)
            requires
                pow10(0) == 1,
        ;
    } else {
        lemma_digits_front(t);
        let x = digits_value(t.drop_first());
        assert(s.drop_first().drop_last() =~= t.drop_first());
        assert(t[0] == s[0]);
        assert(s.drop_first().last() == s.last());
        assert(digits_value(s.drop_first()) == x * 10 + dl);
        let p = pow10((t.len() - 1) as nat);
        assert(digits_value(t) == d0 * p + x);
        assert(pow10((s.len() - 1) as nat) == 10 * p);
        let q = pow10((s.len() - 1) as nat);
        let dt = digits_value(t);
        let ds = digits_value(s);
        let df = digits_value(s.drop_first());
        assert(ds == d0 * q + df) by (nonlinear_arith)
            requires
                ds == dt * 10 + dl,
                dt == d0 * p + x,
                df == x * 10 + dl,
                q == 10 * p,
        ;
    }
}

/// Scaling place by place rounds down only once: `frac_scaled(s, m)` is
/// the fraction `0.s` times `m`, rounded down.
pub proof fn lemma_frac_scaled_exact(s: Seq<char>, m: nat)
    ensures
        frac_scaled(s, m) == (digits_value(s) * m) / pow10(s.len()),
    decreases s.len(),
{
    if s.len() > 0 {
        let r = s.drop_first();
        lemma_frac_scaled_exact(r, m);
        lemma_digits_front(s);
        lemma_pow10_positive(r.len());
        let p = pow10(r.len());
        let d = digit_value(s[0]);
        let b: int = (digits_value(r) * m) as int;
        let dm: int = (d * m) as int;
        assert(frac_scaled(r, m) == b / (p as int));
        assert(frac_scaled(s, m) == (dm + b / (p as int)) / 10);
        assert(pow10(s.len()) == 10 * p);
        vstd::arithmetic::div_mod::lemma_hoist_over_denominator(b, dm, p);
        assert(b / (p as int) + dm == (b + dm * p) / (p as int));
        vstd::arithmetic::div_mod::lemma_div_denominator(b + dm * p, p as int, 10);
        assert(digits_value(s) * m == dm * p + b) by (nonlinear_arith)
            requires
                digits_value(s) == d * p + digits_value(r),
                b == digits_value(r) * m,
                dm == d * m,
        ;
        let n = (digits_value(s) * m) as int;
        assert(n == b + dm * p);
        assert((b + dm * p) / ((p as int) * 10) == n / (pow10(s.len()) as int));
        assert(dm + b / (p as int) == b / (p as int) + dm);
        assert(frac_scaled(s, m) == ((b + dm * p) / (p as int)) / 10);
        assert(frac_scaled(s, m) == n / (pow10(s.len()) as int));
    } else {
        assert(pow10(0) == 1);
        assert(digits_value(s) == 0);
        assert(0 * m == 0) by (nonlinear_arith);
    }
}

/// Bytes per unit of a size token.
pub open spec fn unit_multiplier(unit: Seq<char>) -> nat {
    if unit == "KB"@ {
        KB as nat
    } else if unit == "MB"@ {
        MB as nat
    } else if unit == "GB"@ {
        GB as nat
    } else {
        1
    }
}

/// `v`, or `u64::MAX` where `v` is larger.
pub open spec fn saturate(v: nat) -> u64 {
    if v > u64::MAX {
        u64::MAX
    } else {
        v as u64
    }
}

/// The bytes that a size token denotes, rounded down: 0 where the number is
/// not digits with an optional decimal point.
pub open spec fn token_bytes(num: Seq<char>, unit: Seq<char>) -> u64 {
    let dot = first_char_from(num, 0, '.');
    let whole = num.subrange(0, dot);
    let frac = if dot < num.len() {
        num.subrange(dot + 1, num.len() as int)
    } else {
        Seq::<char>::empty()
    };
    let m = unit_multiplier(unit);
    if all_digits(whole) && all_digits(frac) && whole.len() + frac.len() > 0 {
        saturate(digits_value(whole) * m + (digits_value(frac) * m) / pow10(frac.len()))
    } else {
        0
    }
}

/// The size of the item a line reports: its size token, or a tenth of the
/// bytes the whole run freed where the line has none.
pub open spec fn line_size(line: Seq<char>, bytes_freed: u64) -> u64 {
    match regex_captures(SIZE_PATTERN@, line) {
        Some(p) => token_bytes(p.0, p.1),
        None => bytes_freed / 10,
    }
}

/// A directory where the path ends in `/` or the line says "directory".
pub open spec fn line_kind(line: Seq<char>, path: Seq<char>) -> CleanedItemType {
    if path.last() == '/' || contains(line, "directory"@) {
        CleanedItemType::Directory
    } else {
        CleanedItemType::File
    }
}

/// The record one output line yields, if any.
pub open spec fn line_record(
    line: Seq<char>,
    bytes_freed: u64,
    category: Seq<char>,
    name: Seq<char>,
    timestamp: u64,
) -> Option<ItemView> {
    if has_marker(line) {
        match path_of(line) {
            Some(p) => if p.len() >= 2 {
                Some(
                    ItemView {
                        path: p,
                        size: line_size(line, bytes_freed),
                        category,
                        cleaner_name: name,
                        timestamp,
                        item_type: line_kind(line, p),
                    },
                )
            } else {
                None
            },
            None => None,
        }
    } else {
        None
    }
}

/// The records of the lines of `t` from position `start` on.
pub open spec fn records_from(
    t: Seq<char>,
    start: int,
    bytes_freed: u64,
    category: Seq<char>,
    name: Seq<char>,
    timestamp: u64,
) -> Seq<ItemView>
    decreases t.len() - start,
{
    if start < 0 || start > t.len() {
        Seq::empty()
    } else {
        let k = first_char_from(t, start, '\n');
        let here = match line_record(t.subrange(start, k), bytes_freed, category, name, timestamp) {
            Some(x) => seq![x],
            None => Seq::empty(),
        };
        if start <= k && k < t.len() {
            here + records_from(t, k + 1, bytes_freed, category, name, timestamp)
        } else {
            here
        }
    }
}

/// The summary record of a run whose output yielded none.
pub open spec fn fallback_record(
    bytes_freed: u64,
    category: Seq<char>,
    name: Seq<char>,
    timestamp: u64,
) -> ItemView {
    ItemView {
        path: name + " (cleaned files)"@,
        size: bytes_freed,
        category,
        cleaner_name: name,
        timestamp,
        item_type: CleanedItemType::Directory,
    }
}

/// The records of one successful run: one per reporting line, or the summary
/// record where there are none and some bytes were freed.
pub open spec fn extraction(
    t: Seq<char>,
    bytes_freed: u64,
    category: Seq<char>,
    name: Seq<char>,
    timestamp: u64,
) -> Seq<ItemView> {
    let found = records_from(t, 0, bytes_freed, category, name, timestamp);
    if found.len() == 0 && bytes_freed > 0 {
        seq![fallback_record(bytes_freed, category, name, timestamp)]
    } else {
        found
    }
}

fn find_stop_from(v: &Vec<char>, from: usize) -> (r: usize)
    requires
        from <= v@.len(),
    ensures
        r as int == first_stop_from(v@, from as int),
        from <= r <= v@.len(),
{
    let mut i = from;
    while i < v.len() && !(v[i] == '"' || v[i] == '\'' || is_space_char(v[i]))
        invariant
            from <= i <= v@.len(),
            first_stop_from(v@, from as int) == first_stop_from(v@, i as int),
        decreases v@.len() - i,
    {
        i = i + 1;
    }
    i
}

fn unit_bytes(unit: &str) -> (m: u64)
    ensures
        m as nat == unit_multiplier(unit@),
        1 <= m <= GB,
{
    let u = String::from_str(unit);
    if u.eq(&String::from_str("KB")) {
        KB
    } else if u.eq(&String::from_str("MB")) {
        MB
    } else if u.eq(&String::from_str("GB")) {
        GB
    } else {
        1
    }
}

/// The bytes that a size token denotes (`"15.5"`, `"MB"` is 16252928).
pub fn parse_size_token(num: &str, unit: &str) -> (r: u64)
    ensures
        r == token_bytes(num@, unit@),
{
    let v = chars_of(num);
    let n = v.len();
    let dot = find_char_from(&v, 0, '.');
    let m = unit_bytes(unit);
    let ghost s = v@;
    let ghost whole = s.subrange(0, dot as int);
    let ghost frac = if dot < n {
        s.subrange(dot + 1, n as int)
    } else {
        Seq::<char>::empty()
    };
    if dot == 0 && (dot == n || dot + 1 == n) {
        return 0;
    }
    let cap: u128 = 0x1_0000_0000_0000_0000;
    let mut acc: u128 = 0;
    let mut i: usize = 0;
    while i < dot
        invariant
            dot <= n == s.len(),
            s == v@,
            s == num@,
            cap == 0x1_0000_0000_0000_0000u128,
            dot as int == first_char_from(s, 0, '.'),
            m as nat == unit_multiplier(unit@),
            dot == 0 ==> dot + 1 < n,
            acc <= cap,
            acc as nat == if digits_value(s.subrange(0, i as int)) > cap {
                cap as nat
            } else {
                digits_value(s.subrange(0, i as int))
            },
            i <= dot,
            all_digits(s.subrange(0, i as int)),
            whole == s.subrange(0, dot as int),
        decreases dot - i,
    {
        let c = v[i];
        if !(c >= '0' && c <= '9') {
            assert(whole[i as int] == c);
            return 0;
        }
        let ghost prev = s.subrange(0, i as int);
        let ghost next = s.subrange(0, i + 1);
        assert(next.drop_last() =~= prev);
        assert(digits_value(next) == digits_value(prev) * 10 + digit_value(c));
        let d = (c as u32 - 48) as u128;
        if acc * 10 + d > cap {
            acc = cap;
        } else {
            acc = acc * 10 + d;
        }
        i = i + 1;
        assert forall|k: int| 0 <= k < i implies is_digit(s.subrange(0, i as int)[k]) by {
            if k < i - 1 {
                assert(s.subrange(0, i as int)[k] == prev[k]);
            }
        }
    }
    assert(s.subrange(0, dot as int) =~= whole);
    let mut f: u128 = 0;
    if dot < n {
        let mut j: usize = n;
        while j > dot + 1
            invariant
                dot < n == s.len(),
                s == v@,
                s == num@,
                dot as int == first_char_from(s, 0, '.'),
                m as nat == unit_multiplier(unit@),
                dot + 1 <= j <= n,
                f < m,
                1 <= m <= GB,
                f as nat == frac_scaled(s.subrange(j as int, n as int), m as nat),
                all_digits(s.subrange(j as int, n as int)),
                frac == s.subrange(dot + 1, n as int),
            decreases j,
        {
            j = j - 1;
            let c = v[j];
            if !(c >= '0' && c <= '9') {
                assert(frac[j - dot - 1] == c);
                return 0;
            }
            let ghost rest = s.subrange(j + 1, n as int);
            let ghost cur = s.subrange(j as int, n as int);
            assert(cur.drop_first() =~= rest);
            assert(cur[0] == c);
            let d = (c as u32 - 48) as u128;
            assert(d * m + f < 10 * m) by (nonlinear_arith)
                requires
                    d <= 9,
                    f < m,
            ;
            f = (d * m as u128 + f) / 10;
            assert forall|k: int| 0 <= k < cur.len() implies is_digit(cur[k]) by {
                if k > 0 {
                    assert(cur[k] == rest[k - 1]);
                }
            }
        }
        assert(s.subrange(j as int, n as int) =~= frac);
    } else {
        assert(frac.len() == 0);
    }
    let ghost dv = digits_value(whole);
    proof { lemma_frac_scaled_exact(frac, m as nat); }
    assert(f < m);
    assert(acc * m <= cap * GB) by (nonlinear_arith)
        requires
            acc <= cap,
            m <= GB,
    ;
    let total: u128 = acc * m as u128 + f;
    proof {
        if dv > cap as nat {
            assert(dv * m >= dv) by (nonlinear_arith)
                requires
                    m >= 1,
            ;
            assert(acc * m >= acc) by (nonlinear_arith)
                requires
                    m >= 1,
            ;
        }
    }
    if total > u64::MAX as u128 {
        u64::MAX
    } else {
        total as u64
    }
}

/// The size of the item a line reports, given the size token found in it,
/// if any (see [`line_size`]).
pub fn size_from_captures(captures: &Option<(String, String)>, bytes_freed: u64) -> (r: u64)
    ensures
        r == match captures {
            Some(p) => token_bytes(p.0@, p.1@),
            None => bytes_freed / 10,
        },
{
    match captures {
        Some(p) => parse_size_token(p.0.as_str(), p.1.as_str()),
        None => bytes_freed / 10,
    }
}

/// The record that one output line yields, if any.
pub fn extract_line(
    line: &str,
    bytes_freed: u64,
    category: &String,
    cleaner_name: &String,
    timestamp: u64,
) -> (r: Option<DetailedCleanedItem>)
    ensures
        r matches Some(x) ==> line_record(line@, bytes_freed, category@, cleaner_name@, timestamp)
            == Some(x@),
        r is None ==> line_record(line@, bytes_freed, category@, cleaner_name@, timestamp) is None,
{
    let lv = chars_of(line);
    let marked = str_contains(&lv, "Removed") || str_contains(&lv, "cleaned") || str_contains(
        &lv,
        "Cleaning",
    ) || str_contains(&lv, "freed");
    if !marked {
        return None;
    }
    let start = find_char_from(&lv, 0, '/');
    if start >= lv.len() {
        return None;
    }
    let end = find_stop_from(&lv, start);
    if end - start < 2 {
        return None;
    }
    let path = String::from_str(line.substring_char(start, end));
    let size = size_from_captures(&first_two_captures(SIZE_PATTERN, line), bytes_freed);
    let is_dir = lv[end - 1] == '/' || str_contains(&lv, "directory");
    let item_type = if is_dir {
        CleanedItemType::Directory
    } else {
        CleanedItemType::File
    };
    assert(path@.last() == lv@[end - 1]);
    Some(
        DetailedCleanedItem::new(
            path,
            size,
            category.clone(),
            cleaner_name.clone(),
            timestamp,
            item_type,
        ),
    )
}

fn collect_chars(v: &Vec<char>, from: usize, to: usize) -> (r: String)
    requires
        from <= to <= v@.len(),
    ensures
        r@ == v@.subrange(from as int, to as int),
{
    let mut r = String::new();
    let mut j = from;
    while j < to
        invariant
            from <= j <= to <= v@.len(),
            r@ == v@.subrange(from as int, j as int),
        decreases to - j,
    {
        r.push(v[j]);
        assert(r@ =~= v@.subrange(from as int, j + 1));
        j = j + 1;
    }
    r
}

/// The reclaimed-item records of one successful run, from the text it
/// printed and the bytes it reported freed.
pub fn extract_items(
    output: &str,
    bytes_freed: u64,
    category: &String,
    cleaner_name: &String,
    timestamp: u64,
) -> (r: Vec<DetailedCleanedItem>)
    ensures
        views(r@) == extraction(output@, bytes_freed, category@, cleaner_name@, timestamp),
{
    let tv = chars_of(output);
    let n = tv.len();
    let ghost t = output@;
    let mut found: Vec<DetailedCleanedItem> = Vec::new();
    let mut start: usize = 0;
    loop
        invariant_except_break
            views(found@) + records_from(t, start as int, bytes_freed, category@, cleaner_name@, timestamp)
                == records_from(t, 0, bytes_freed, category@, cleaner_name@, timestamp),
        invariant
            tv@ == t,
            t == output@,
            n == t.len(),
            start <= n,
        ensures
            views(found@) == records_from(t, 0, bytes_freed, category@, cleaner_name@, timestamp),
        decreases n - start,
    {
        let k = find_char_from(&tv, start, '\n');
        let line = collect_chars(&tv, start, k);
        let rec = extract_line(line.as_str(), bytes_freed, category, cleaner_name, timestamp);
        let ghost here = match line_record(t.subrange(start as int, k as int), bytes_freed, category@, cleaner_name@, timestamp) {
            Some(x) => seq![x],
            None => Seq::<ItemView>::empty(),
        };
        let ghost before = views(found@);
        match rec {
            Some(x) => {
                found.push(x);
                assert(views(found@) =~= before + here);
            },
            None => {
                assert(here =~= Seq::<ItemView>::empty());
                assert(views(found@) =~= before + here);
            },
        }
        if k < n {
            assert(views(found@) + records_from(t, k + 1, bytes_freed, category@, cleaner_name@, timestamp)
                =~= before + records_from(t, start as int, bytes_freed, category@, cleaner_name@, timestamp));
            start = k + 1;
        } else {
            assert(views(found@) =~= before + records_from(t, start as int, bytes_freed, category@, cleaner_name@, timestamp));
            assert(views(found@) == records_from(t, 0, bytes_freed, category@, cleaner_name@, timestamp));
            break;
        }
    }
    if found.len() == 0 && bytes_freed > 0 {
        let mut path = cleaner_name.clone();
        path.append(" (cleaned files)");
        let mut out: Vec<DetailedCleanedItem> = Vec::new();
        out.push(
            DetailedCleanedItem::new(
                path,
                bytes_freed,
                category.clone(),
                cleaner_name.clone(),
                timestamp,
                CleanedItemType::Directory,
            ),
        );
        assert(views(out@) =~= seq![fallback_record(bytes_freed, category@, cleaner_name@, timestamp)]);
        out
    } else {
        found
    }
}

} // verus!
