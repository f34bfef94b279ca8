//! Decimal rendering of integers and human-readable byte sizes.
use vstd::prelude::*;

verus! {

/// One kibibyte.
pub const KB: u64 = 1024;

/// One mebibyte.
pub const MB: u64 = 1048576;

/// One gibibyte.
pub const GB: u64 = 1073741824;

/// The ASCII character of a decimal digit.
pub open spec fn digit_char(d: int) -> char {
    if d == 0 {
        '0'
    } else if d == 1 {
        '1'
    } else if d == 2 {
        '2'
    } else if d == 3 {
        '3'
    } else if d == 4 {
        '4'
    } else if d == 5 {
        '5'
    } else if d == 6 {
        '6'
    } else if d == 7 {
        '7'
    } else if d == 8 {
        '8'
    } else {
        '9'
    }
}

/// The decimal notation of `n`, without leading zeros.
pub open spec fn decimal(n: nat) -> Seq<char>
    decreases n,
{
    if n < 10 {
        seq![digit_char(n as int)]
    } else {
        decimal(n / 10).push(digit_char((n % 10) as int))
    }
}

/// `100 * bytes / unit`, rounded to the nearest integer, ties to even.
pub open spec fn rounded_hundredths(bytes: nat, unit: nat) -> nat
    recommends
        unit > 0,
{
    let q = (100 * bytes) / unit;
    let r = (100 * bytes) % unit;
    if 2 * r > unit || (2 * r == unit && q % 2 == 1) {
        q + 1
    } else {
        q
    }
}

/// A count of hundredths written with two decimal places (`150` is `1.50`).
pub open spec fn two_places(h: nat) -> Seq<char> {
    decimal(h / 100) + seq!['.', digit_char(((h % 100) / 10) as int), digit_char((h % 10) as int)]
}

/// The human-readable form of a byte count: whole bytes below one KB, else
/// the value in the largest unit not above it, with two decimal places.
pub open spec fn size_text(bytes: nat) -> Seq<char> {
    if bytes >= GB {
        two_places(rounded_hundredths(bytes, GB as nat)) + " GB"@
    } else if bytes >= MB {
        two_places(rounded_hundredths(bytes, MB as nat)) + " MB"@
    } else if bytes >= KB {
        two_places(rounded_hundredths(bytes, KB as nat)) + " KB"@
    } else {
        decimal(bytes) + " bytes"@
    }
}

fn digit_str(d: u64) -> (r: &'static str)
    requires
        d < 10,
    ensures
        r@ == seq![digit_char(d as int)],
{
    if d == 0 {
        proof { reveal_strlit("0"); }
        "0"
    } else if d == 1 {
        proof { reveal_strlit("1"); }
        "1"
    } else if d == 2 {
        proof { reveal_strlit("2"); }
        "2"
    } else if d == 3 {
        proof { reveal_strlit("3"); }
        "3"
    } else if d == 4 {
        proof { reveal_strlit("4"); }
        "4"
    } else if d == 5 {
        proof { reveal_strlit("5"); }
        "5"
    } else if d == 6 {
        proof { reveal_strlit("6"); }
        "6"
    } else if d == 7 {
        proof { reveal_strlit("7"); }
        "7"
    } else if d == 8 {
        proof { reveal_strlit("8"); }
        "8"
    } else {
        proof { reveal_strlit("9"); }
        "9"
    }
}

/// The decimal notation of `n`.
pub fn decimal_string(n: u64) -> (r: String)
    ensures
        r@ == decimal(n as nat),
    decreases n,
{
    if n < 10 {
        String::from_str(digit_str(n))
    } else {
        let mut s = decimal_string(n / 10);
        s.append(digit_str(n % 10));
        s
    }
}

fn rounded(bytes: u64, unit: u64) -> (h: u64)
    requires
        unit >= KB,
    ensures
        h == rounded_hundredths(bytes as nat, unit as nat),
{
    let n: u128 = bytes as u128 * 100;
    let u: u128 = unit as u128;
    let q: u128 = n / u;
    let r: u128 = n % u;
    assert(q <= n / 1024) by (nonlinear_arith)
        requires
            q == n / u,
            u >= 1024,
    ;
    assert(n / 1024 < 0xffff_ffff_ffff_fff0) by (nonlinear_arith)
        requires
            n == bytes as u128 * 100,
            bytes <= 0xffff_ffff_ffff_ffff,
    ;
    if 2 * r > u || (2 * r == u && q % 2 == 1) {
        (q + 1) as u64
    } else {
        q as u64
    }
}

fn two_places_string(h: u64) -> (r: String)
    ensures
        r@ == two_places(h as nat),
{
    let mut s = decimal_string(h / 100);
    proof { reveal_strlit("."); }
    s.append(".");
    s.append(digit_str((h % 100) / 10));
    s.append(digit_str(h % 10));
    s
}

/// Renders a byte count for display (`1536` is `1.50 KB`).
pub fn format_size(bytes: u64) -> (r: String)
    ensures
        r@ == size_text(bytes as nat),
{
    if bytes >= GB {
        let mut s = two_places_string(rounded(bytes, GB));
        s.append(" GB");
        s
    } else if bytes >= MB {
        let mut s = two_places_string(rounded(bytes, MB));
        s.append(" MB");
        s
    } else if bytes >= KB {
        let mut s = two_places_string(rounded(bytes, KB));
        s.append(" KB");
        s
    } else {
        let mut s = decimal_string(bytes);
        s.append(" bytes");
        s
    }
}

} // verus!
