//! Sizes, permissions and times as a user reads them.

use crate::number;
use crate::text;
use vstd::prelude::*;
use vstd::string::StringExecFns;

verus! {

/// `a` over `b` to the nearest integer; halfway, to the even one.
pub open spec fn half_even(a: nat, b: nat) -> nat {
    let q = a / b;
    let r = a % b;
    if 2 * r > b || (2 * r == b && q % 2 == 1) {
        q + 1
    } else {
        q
    }
}

/// The distance between neighbouring numbers of 53 significant bits, around `n`.
pub open spec fn spacing(n: nat) -> nat
    decreases n,
{
    if n < 0x20_0000_0000_0000 {
        1
    } else {
        2 * spacing(n / 2)
    }
}

/// The number of 53 significant bits that is nearest to `n`; halfway, the one whose last bit
/// is zero.
pub open spec fn nearest53(n: nat) -> nat {
    half_even(n, spacing(n)) * spacing(n)
}

/// `n` in units of `unit`, with `places` decimals: the fraction is rounded, half to even,
/// from a number of 53 significant bits.
pub open spec fn in_units(n: nat, unit: nat, places: nat) -> Seq<char> {
    let scale: nat = if places == 1 {
        10
    } else {
        100
    };
    let v = half_even(nearest53(n) * scale, unit);
    number::digits(v / scale) + seq!['.'] + number::padded(v % scale, places)
}

/// A file size: bytes below 1024, then K, M and G with one decimal.
pub open spec fn size_text(bytes: nat) -> Seq<char> {
    if bytes >= 0x4000_0000 {
        in_units(bytes, 0x4000_0000, 1) + " G"@
    } else if bytes >= 0x10_0000 {
        in_units(bytes, 0x10_0000, 1) + " M"@
    } else if bytes >= 0x400 {
        in_units(bytes, 0x400, 1) + " K"@
    } else {
        number::digits(bytes) + " B"@
    }
}

/// A memory size given in MB: MB below 1024, then GB and TB with two decimals.
pub open spec fn mem_text(mb: nat) -> Seq<char> {
    if mb >= 0x10_0000 {
        in_units(mb, 0x10_0000, 2) + " TB"@
    } else if mb >= 0x400 {
        in_units(mb, 0x400, 2) + " GB"@
    } else {
        number::digits(mb) + " MB"@
    }
}

fn divide_half_even(a: u128, b: u128) -> (r: u128)
    requires
        0 < b <= 0x1_0000_0000_0000_0000,
        a < 0x1000_0000_0000_0000_0000_0000_0000,
    ensures
        r == half_even(a as nat, b as nat),
        r <= a / b + 1,
{
    let q: u128 = a / b;
    let rest: u128 = a % b;
    proof {
        vstd::arithmetic::div_mod::lemma_div_is_ordered_by_denominator(a as int, 1, b as int);
        assert(a as int / 1 == a);
    }
    if 2 * rest > b || (2 * rest == b && q % 2 == 1) {
        q + 1
    } else {
        q
    }
}

proof fn lemma_spacing(n: nat)
    requires
        n < 0x1_0000_0000_0000_0000,
    ensures
        1 <= spacing(n) <= 0x800,
        spacing(n) <= n || n < 1,
{
    reveal_with_fuel(spacing, 13);
}

fn spacing_of(n: u64) -> (r: u64)
    ensures
        r == spacing(n as nat),
        1 <= r <= 0x800,
    decreases n,
{
    proof {
        lemma_spacing(n as nat);
    }
    if n < 0x20_0000_0000_0000 {
        1
    } else {
        let half: u64 = spacing_of(n / 2);
        2 * half
    }
}

proof fn lemma_rounded_bound(n: nat, s: nat)
    requires
        1 <= s <= 0x800,
        n < 0x1_0000_0000_0000_0000,
    ensures
        half_even(n, s) * s <= n + s,
{
    let q = n / s;
    vstd::arithmetic::div_mod::lemma_fundamental_div_mod(n as int, s as int);
    assert(q * s <= n) by (nonlinear_arith)
        requires
            n as int == s as int * (n as int / s as int) + n as int % s as int,
            q == n / s,
            s >= 1,
    ;
    assert((q + 1) * s == q * s + s) by (nonlinear_arith);
}

fn round53(n: u64) -> (r: u128)
    ensures
        r == nearest53(n as nat),
        r <= 0x1_0000_0000_0000_0800,
{
    let s: u64 = spacing_of(n);
    proof {
        lemma_rounded_bound(n as nat, s as nat);
        vstd::arithmetic::div_mod::lemma_div_is_ordered_by_denominator(n as int, 1, s as int);
        assert(n as int / 1 == n);
    }
    let q: u128 = divide_half_even(n as u128, s as u128);
    q * (s as u128)
}

/// Appends `n` in units of `unit` with one or two decimals.
fn push_in_units(out: &mut String, n: u64, unit: u64, places: usize)
    requires
        0x400 <= unit <= 0x4000_0000,
        places == 1 || places == 2,
    ensures
        final(out)@ == old(out)@ + in_units(n as nat, unit as nat, places as nat),
{
    let scale: u128 = if places == 1 {
        10
    } else {
        100
    };
    let near: u128 = round53(n);
    let v: u128 = divide_half_even(near * scale, unit as u128);
    proof {
        vstd::arithmetic::div_mod::lemma_div_is_ordered_by_denominator(
            (near * scale) as int,
            0x400,
            unit as int,
        );
        assert((near * scale) / 0x400 <= 0x64_0000_0000_0000_0000);
        assert(v / scale <= 0x10_0000_0000_0000_0000);
    }
    let ghost before = out@;
    assert(v / scale < 0x1_0000_0000_0000_0000);
    number::push_digits(out, (v / scale) as u64);
    text::push_char(out, '.');
    number::push_padded(out, (v % scale) as u64, places);
    assert(out@ =~= before + in_units(n as nat, unit as nat, places as nat));
}

/// Format file size into human-readable string.
pub fn fmt_size(bytes: u64) -> (r: String)
    ensures
        r@ == size_text(bytes as nat),
{
    let mut out: String = String::new();
    if bytes >= 0x4000_0000 {
        push_in_units(&mut out, bytes, 0x4000_0000, 1);
        out.append(" G");
    } else if bytes >= 0x10_0000 {
        push_in_units(&mut out, bytes, 0x10_0000, 1);
        out.append(" M");
    } else if bytes >= 0x400 {
        push_in_units(&mut out, bytes, 0x400, 1);
        out.append(" K");
    } else {
        number::push_digits(&mut out, bytes);
        out.append(" B");
    }
    assert(out@ =~= size_text(bytes as nat));
    out
}

/// Format a memory value in MB into human-readable string with 2 decimal places.
pub fn fmt_mem_mb(mb: u64) -> (r: String)
    ensures
        r@ == mem_text(mb as nat),
{
    let mut out: String = String::new();
    if mb >= 0x10_0000 {
        push_in_units(&mut out, mb, 0x10_0000, 2);
        out.append(" TB");
    } else if mb >= 0x400 {
        push_in_units(&mut out, mb, 0x400, 2);
        out.append(" GB");
    } else {
        number::push_digits(&mut out, mb);
        out.append(" MB");
    }
    assert(out@ =~= mem_text(mb as nat));
    out
}

/// The permission bits from the owner's read bit down to the others' execute bit.
pub open spec fn perm_bit(k: int) -> u32 {
    if k == 0 {
        0x100
    } else if k == 1 {
        0x80
    } else if k == 2 {
        0x40
    } else if k == 3 {
        0x20
    } else if k == 4 {
        0x10
    } else if k == 5 {
        0x8
    } else if k == 6 {
        0x4
    } else if k == 7 {
        0x2
    } else {
        0x1
    }
}

/// The letter of the permission at place `k` of nine.
pub open spec fn perm_letter(k: int) -> char {
    if k % 3 == 0 {
        'r'
    } else if k % 3 == 1 {
        'w'
    } else {
        'x'
    }
}

/// Nine characters: at each place the letter where the bit is set, a dash where it is not.
pub open spec fn perms_text(mode: u32) -> Seq<char> {
    Seq::new(
        9,
        |k: int|
            if mode & perm_bit(k) != 0 {
                perm_letter(k)
            } else {
                '-'
            },
    )
}

fn push_perm(out: &mut String, mode: u32, bit: u32, letter: char)
    ensures
        final(out)@ == old(out)@.push(
            if mode & bit != 0 {
                letter
            } else {
                '-'
            },
        ),
{
    if mode & bit != 0 {
        text::push_char(out, letter);
    } else {
        text::push_char(out, '-');
    }
}

/// Format unix permissions (mode bits) into rwxrwxrwx string.
pub fn fmt_perms(mode: u32) -> (r: String)
    ensures
        r@ == perms_text(mode),
{
    let mut out: String = String::new();
    push_perm(&mut out, mode, 0x100, 'r');
    push_perm(&mut out, mode, 0x80, 'w');
    push_perm(&mut out, mode, 0x40, 'x');
    push_perm(&mut out, mode, 0x20, 'r');
    push_perm(&mut out, mode, 0x10, 'w');
    push_perm(&mut out, mode, 0x8, 'x');
    push_perm(&mut out, mode, 0x4, 'r');
    push_perm(&mut out, mode, 0x2, 'w');
    push_perm(&mut out, mode, 0x1, 'x');
    assert(out@ =~= perms_text(mode));
    out
}

/// Whether a year of the Gregorian calendar has a leap day.
pub open spec fn leap_year(year: nat) -> bool {
    year % 4 == 0 && (year % 100 != 0 || year % 400 == 0)
}

/// The days of a year.
pub open spec fn year_days(year: nat) -> nat {
    if leap_year(year) {
        366
    } else {
        365
    }
}

/// The days of a month; January is 0.
pub open spec fn month_days(year: nat, month: nat) -> nat {
    if month == 1 {
        if leap_year(year) {
            29
        } else {
            28
        }
    } else if month == 3 || month == 5 || month == 8 || month == 10 {
        30
    } else {
        31
    }
}

/// The days from the start of 1970 to the start of `year`.
pub open spec fn new_year(year: nat) -> nat
    decreases year,
{
    if year <= 1970 {
        0
    } else {
        new_year((year - 1) as nat) + year_days((year - 1) as nat)
    }
}

/// The days from the start of the year to the start of `month`.
pub open spec fn month_start(year: nat, month: nat) -> nat
    decreases month,
{
    if month == 0 {
        0
    } else {
        month_start(year, (month - 1) as nat) + month_days(year, (month - 1) as nat)
    }
}

/// The year, month and day of month, each from 0, that stand `days` after the start of 1970.
pub open spec fn is_date(days: nat, year: nat, month: nat, day: nat) -> bool {
    &&& year >= 1970
    &&& month < 12
    &&& day < month_days(year, month)
    &&& days == new_year(year) + month_start(year, month) + day
}

/// A date and a time of day as `YYYY-MM-DD HH:MM`.
pub open spec fn date_text(year: nat, month: nat, day: nat, secs: nat) -> Seq<char> {
    number::padded(year, 4) + seq!['-'] + number::padded(month + 1, 2) + seq!['-']
        + number::padded(day + 1, 2) + seq![' '] + number::padded(secs / 3600, 2) + seq![':']
        + number::padded(secs % 3600 / 60, 2)
}

/// A text is the moment `ts` seconds after the start of 1970 as `YYYY-MM-DD HH:MM`, or a dash
/// for 0.
pub open spec fn is_mtime_text(ts: nat, t: Seq<char>) -> bool {
    if ts == 0 {
        t == seq!['-']
    } else {
        exists|year: nat, month: nat, day: nat| #[trigger]
            is_date(ts / 86400, year, month, day) && t == date_text(year, month, day, ts % 86400)
    }
}

proof fn lemma_new_year_grows(a: nat, b: nat)
    requires
        1970 <= a < b,
    ensures
        new_year(a) + year_days(a) <= new_year(b),
    decreases b,
{
    if a + 1 < b {
        lemma_new_year_grows(a, (b - 1) as nat);
    }
}

proof fn lemma_month_start_grows(year: nat, a: nat, b: nat)
    requires
        a < b <= 12,
    ensures
        month_start(year, a) + month_days(year, a) <= month_start(year, b),
    decreases b,
{
    if a + 1 < b {
        lemma_month_start_grows(year, a, (b - 1) as nat);
    }
}

proof fn lemma_year_is_months(year: nat)
    ensures
        month_start(year, 12) == year_days(year),
{
    reveal_with_fuel(month_start, 13);
}

/// A day has one date.
pub proof fn law_date_unique(
    days: nat,
    y1: nat,
    m1: nat,
    d1: nat,
    y2: nat,
    m2: nat,
    d2: nat,
)
    requires
        is_date(days, y1, m1, d1),
        is_date(days, y2, m2, d2),
    ensures
        y1 == y2,
        m1 == m2,
        d1 == d2,
{
    lemma_year_is_months(y1);
    lemma_year_is_months(y2);
    lemma_month_start_grows(y1, m1, 12);
    lemma_month_start_grows(y2, m2, 12);
    if y1 < y2 {
        lemma_new_year_grows(y1, y2);
    } else if y2 < y1 {
        lemma_new_year_grows(y2, y1);
    }
    if m1 < m2 {
        lemma_month_start_grows(y1, m1, m2);
    } else if m2 < m1 {
        lemma_month_start_grows(y1, m2, m1);
    }
}

/// A later day has a later date.
pub proof fn law_dates_in_order(a: nat, b: nat, y1: nat, m1: nat, d1: nat, y2: nat, m2: nat, d2: nat)
    requires
        a < b,
        is_date(a, y1, m1, d1),
        is_date(b, y2, m2, d2),
    ensures
        y1 < y2 || (y1 == y2 && m1 < m2) || (y1 == y2 && m1 == m2 && d1 < d2),
{
    lemma_year_is_months(y2);
    lemma_month_start_grows(y2, m2, 12);
    if y2 < y1 {
        lemma_new_year_grows(y2, y1);
    }
    if y1 == y2 && m2 < m1 {
        lemma_month_start_grows(y1, m2, m1);
    }
}

/// The days from the start of 1970 to the start of a year, counted by leap years.
proof fn lemma_new_year(year: nat)
    requires
        year >= 1970,
    ensures
        new_year(year) == 365 * (year - 1970) + (year - 1) / 4 - (year - 1) / 100 + (year - 1) / 400
            - 477,
    decreases year,
{
    if year > 1970 {
        lemma_new_year((year - 1) as nat);
    }
}

/// The character of a digit.
pub open spec fn digit_char(n: nat) -> char {
    ((48 + n) as u8) as char
}

proof fn lemma_two_digits(n: nat)
    requires
        n < 100,
    ensures
        number::padded(n, 2) == seq![digit_char(n / 10), digit_char(n % 10)],
{
    reveal_with_fuel(number::decimal, 3);
    let d = number::digits(n);
    if n < 10 {
        assert(d =~= seq![digit_char(n)]);
        assert(number::padded(n, 2) =~= seq![digit_char(n / 10), digit_char(n % 10)]);
    } else {
        assert(d =~= seq![digit_char(n / 10), digit_char(n % 10)]);
    }
}

proof fn lemma_four_digits(n: nat)
    requires
        1000 <= n < 10000,
    ensures
        number::padded(n, 4) == seq![
            digit_char(n / 1000),
            digit_char(n / 100 % 10),
            digit_char(n / 10 % 10),
            digit_char(n % 10),
        ],
{
    reveal_with_fuel(number::decimal, 5);
    let d = number::digits(n);
    assert(n / 10 / 10 == n / 100 && n / 100 / 10 == n / 1000);
    assert(d =~= seq![
        digit_char(n / 1000),
        digit_char(n / 100 % 10),
        digit_char(n / 10 % 10),
        digit_char(n % 10),
    ]);
}

proof fn lemma_two_in_order(a: nat, b: nat)
    requires
        a < b < 100,
    ensures
        text::precedes(number::padded(a, 2), number::padded(b, 2)),
        number::padded(a, 2).len() == number::padded(b, 2).len(),
{
    lemma_two_digits(a);
    lemma_two_digits(b);
    reveal_with_fuel(text::precedes, 3);
    let (s, t) = (number::padded(a, 2), number::padded(b, 2));
    assert(s.skip(1)[0] == s[1] && t.skip(1)[0] == t[1]);
}

proof fn lemma_four_in_order(a: nat, b: nat)
    requires
        1000 <= a < b < 10000,
    ensures
        text::precedes(number::padded(a, 4), number::padded(b, 4)),
        number::padded(a, 4).len() == number::padded(b, 4).len(),
{
    let (ha, hb) = (number::padded(a / 100, 2), number::padded(b / 100, 2));
    let (la, lb) = (number::padded(a % 100, 2), number::padded(b % 100, 2));
    lemma_halves(a);
    lemma_halves(b);
    lemma_two_digits(a / 100);
    lemma_two_digits(b / 100);
    lemma_two_digits(a % 100);
    lemma_two_digits(b % 100);
    if a / 100 < b / 100 {
        lemma_two_in_order(a / 100, b / 100);
    } else {
        assert(a / 100 == b / 100 && a % 100 < b % 100);
        lemma_two_in_order(a % 100, b % 100);
    }
    lemma_order_by_start(ha, hb, la, lb);
}

/// Four digits are two and two.
proof fn lemma_halves(n: nat)
    requires
        1000 <= n < 10000,
    ensures
        number::padded(n, 4) == number::padded(n / 100, 2) + number::padded(n % 100, 2),
{
    lemma_four_digits(n);
    lemma_two_digits(n / 100);
    lemma_two_digits(n % 100);
    assert(n / 100 / 10 == n / 1000);
    assert(n % 100 / 10 == n / 10 % 10);
    assert(n % 100 % 10 == n % 10);
    assert(number::padded(n, 4) =~= number::padded(n / 100, 2) + number::padded(n % 100, 2));
}

/// Texts are ordered by what they start with.
proof fn lemma_order_by_start(a: Seq<char>, b: Seq<char>, x: Seq<char>, y: Seq<char>)
    requires
        a.len() == b.len(),
    ensures
        text::precedes(a, b) ==> text::precedes(a + x, b + y),
        a == b ==> text::precedes(a + x, b + y) == text::precedes(x, y),
    decreases a.len(),
{
    if a.len() == 0 {
        assert(a + x =~= x);
        assert(b + y =~= y);
    } else {
        assert((a + x).skip(1) =~= a.skip(1) + x);
        assert((b + y).skip(1) =~= b.skip(1) + y);
        lemma_order_by_start(a.skip(1), b.skip(1), x, y);
    }
}

/// The time of day of a date's text, with its parts set apart.
spec fn time_part(secs: nat) -> Seq<char> {
    number::padded(secs / 3600, 2) + (seq![':'] + number::padded(secs % 3600 / 60, 2))
}

/// The day and the time of a date's text.
spec fn day_part(day: nat, secs: nat) -> Seq<char> {
    number::padded(day + 1, 2) + (seq![' '] + time_part(secs))
}

/// All but the year of a date's text.
spec fn month_part(month: nat, day: nat, secs: nat) -> Seq<char> {
    number::padded(month + 1, 2) + (seq!['-'] + day_part(day, secs))
}

proof fn lemma_date_parts(year: nat, month: nat, day: nat, secs: nat)
    ensures
        date_text(year, month, day, secs) == number::padded(year, 4) + (seq!['-'] + month_part(
            month,
            day,
            secs,
        )),
{
    assert(date_text(year, month, day, secs) =~= number::padded(year, 4) + (seq!['-']
        + month_part(month, day, secs)));
}

/// With a sign between them, two parts are ordered by the first, then by the second.
proof fn lemma_part_order(a: Seq<char>, b: Seq<char>, sign: char, x: Seq<char>, y: Seq<char>)
    requires
        a.len() == b.len(),
    ensures
        text::precedes(a, b) ==> text::precedes(a + (seq![sign] + x), b + (seq![sign] + y)),
        a == b && text::precedes(x, y) ==> text::precedes(
            a + (seq![sign] + x),
            b + (seq![sign] + y),
        ),
{
    lemma_order_by_start(a, b, seq![sign] + x, seq![sign] + y);
    lemma_order_by_start(seq![sign], seq![sign], x, y);
}

proof fn lemma_times_in_order(a: nat, b: nat)
    requires
        a / 60 < b / 60,
        b < 86400,
    ensures
        text::precedes(time_part(a), time_part(b)),
{
    let (ha, hb) = (a / 3600, b / 3600);
    let (ma, mb) = (a % 3600 / 60, b % 3600 / 60);
    if ha < hb {
        lemma_two_in_order(ha, hb);
        lemma_part_order(
            number::padded(ha, 2),
            number::padded(hb, 2),
            ':',
            number::padded(ma, 2),
            number::padded(mb, 2),
        );
    } else {
        assert(ha == hb && ma < mb);
        lemma_two_in_order(ma, mb);
        lemma_part_order(
            number::padded(ha, 2),
            number::padded(hb, 2),
            ':',
            number::padded(ma, 2),
            number::padded(mb, 2),
        );
    }
}

proof fn lemma_dates_in_text_order(
    y1: nat,
    m1: nat,
    d1: nat,
    s1: nat,
    y2: nat,
    m2: nat,
    d2: nat,
    s2: nat,
)
    requires
        1000 <= y1 < 10000,
        1000 <= y2 < 10000,
        m1 < 12,
        m2 < 12,
        d1 < 31,
        d2 < 31,
        s2 < 86400,
        y1 < y2 || (y1 == y2 && (m1 < m2 || (m1 == m2 && (d1 < d2 || (d1 == d2 && s1 / 60 < s2
            / 60))))),
    ensures
        text::precedes(date_text(y1, m1, d1, s1), date_text(y2, m2, d2, s2)),
{
    lemma_date_parts(y1, m1, d1, s1);
    lemma_date_parts(y2, m2, d2, s2);
    let (ya, yb) = (number::padded(y1, 4), number::padded(y2, 4));
    let (ma, mb) = (number::padded(m1 + 1, 2), number::padded(m2 + 1, 2));
    let (da, db) = (number::padded(d1 + 1, 2), number::padded(d2 + 1, 2));
    lemma_four_digits(y1);
    lemma_four_digits(y2);
    lemma_two_digits(m1 + 1);
    lemma_two_digits(m2 + 1);
    lemma_two_digits(d1 + 1);
    lemma_two_digits(d2 + 1);
    if y1 < y2 {
        lemma_four_in_order(y1, y2);
    } else {
        if m1 < m2 {
            lemma_two_in_order(m1 + 1, m2 + 1);
        } else {
            if d1 < d2 {
                lemma_two_in_order(d1 + 1, d2 + 1);
            } else {
                lemma_times_in_order(s1, s2);
            }
            lemma_part_order(da, db, ' ', time_part(s1), time_part(s2));
        }
        lemma_part_order(ma, mb, '-', day_part(d1, s1), day_part(d2, s2));
    }
    lemma_part_order(ya, yb, '-', month_part(m1, d1, s1), month_part(m2, d2, s2));
}

/// The number that two digits of a text are.
pub open spec fn two_at(t: Seq<char>, i: int) -> int {
    10 * (t[i] as int - 48) + (t[i + 1] as int - 48)
}

/// The form of a date's text.
proof fn lemma_date_form(year: nat, month: nat, day: nat, secs: nat)
    requires
        1000 <= year < 10000,
        month < 12,
        day < 31,
        secs < 86400,
    ensures
        ({
            let s = date_text(year, month, day, secs);
            &&& s.len() == 16
            &&& s[4] == '-' && s[7] == '-' && s[10] == ' ' && s[13] == ':'
            &&& two_at(s, 5) == month + 1
            &&& two_at(s, 8) == day + 1
            &&& two_at(s, 11) == secs / 3600
            &&& two_at(s, 14) == secs % 3600 / 60
        }),
{
    lemma_four_digits(year);
    lemma_two_digits(month + 1);
    lemma_two_digits(day + 1);
    lemma_two_digits(secs / 3600);
    lemma_two_digits(secs % 3600 / 60);
}

/// A day before the year 10000 has a year before it.
proof fn lemma_year_bound(days: nat, year: nat, month: nat, day: nat)
    requires
        days < 2932897,
        is_date(days, year, month, day),
    ensures
        1970 <= year < 10000,
        month < 12,
        day < 31,
{
    lemma_new_year(10000);
    lemma_new_year(year);
}

/// Two moments in one minute, or in two, and their days and times of day.
proof fn lemma_minutes(a: nat, b: nat)
    requires
        a <= b,
    ensures
        a / 86400 <= b / 86400,
        a / 60 == b / 60 ==> a / 86400 == b / 86400 && a % 86400 / 3600 == b % 86400 / 3600 && a
            % 86400 % 3600 / 60 == b % 86400 % 3600 / 60,
        a / 60 < b / 60 && a / 86400 == b / 86400 ==> a % 86400 / 60 < b % 86400 / 60,
{
    assert(a / 86400 == a / 60 / 1440 && b / 86400 == b / 60 / 1440);
    assert(a % 86400 / 60 == a / 60 % 1440 && b % 86400 / 60 == b / 60 % 1440);
    assert(a % 86400 / 3600 == a / 60 % 1440 / 60 && b % 86400 / 3600 == b / 60 % 1440 / 60);
    assert(a % 86400 % 3600 / 60 == a / 60 % 1440 % 60 && b % 86400 % 3600 / 60 == b / 60 % 1440
        % 60);
}

/// Before the year 10000 the texts of two moments are ordered as the moments are and equal only
/// within one minute. Each has the form `DDDD-DD-DD DD:DD`, with a month from 1 to 12 and a day
/// from 1 to 31.
pub proof fn law_mtimes_in_order(a: nat, b: nat, s: Seq<char>, t: Seq<char>)
    requires
        0 < a <= b < 253402300800,
        is_mtime_text(a, s),
        is_mtime_text(b, t),
    ensures
        s == t <==> a / 60 == b / 60,
        a / 60 < b / 60 ==> text::precedes(s, t),
        s.len() == 16,
        s[4] == '-' && s[7] == '-' && s[10] == ' ' && s[13] == ':',
        1 <= two_at(s, 5) <= 12,
        1 <= two_at(s, 8) <= 31,
        0 <= two_at(s, 11) < 24,
        0 <= two_at(s, 14) < 60,
{
    let (y1, m1, d1) = choose|y: nat, m: nat, d: nat| #[trigger]
        is_date(a / 86400, y, m, d) && s == date_text(y, m, d, a % 86400);
    let (y2, m2, d2) = choose|y: nat, m: nat, d: nat| #[trigger]
        is_date(b / 86400, y, m, d) && t == date_text(y, m, d, b % 86400);
    lemma_year_bound(a / 86400, y1, m1, d1);
    lemma_year_bound(b / 86400, y2, m2, d2);
    lemma_date_form(y1, m1, d1, a % 86400);
    lemma_minutes(a, b);
    if a / 86400 == b / 86400 {
        law_date_unique(a / 86400, y1, m1, d1, y2, m2, d2);
    } else {
        law_dates_in_order(a / 86400, b / 86400, y1, m1, d1, y2, m2, d2);
    }
    if a / 60 < b / 60 {
        lemma_dates_in_text_order(y1, m1, d1, a % 86400, y2, m2, d2, b % 86400);
        text::law_order_total(s, t);
    }
}

fn is_leap(year: u64) -> (r: bool)
    ensures
        r == leap_year(year as nat),
{
    year % 4 == 0 && (year % 100 != 0 || year % 400 == 0)
}

/// The days of a month of `year`; January is 0.
fn days_of_month(leap: bool, month: u64) -> (r: u64)
    ensures
        forall|year: nat| leap_year(year) == leap ==> r == #[trigger] month_days(year, month as nat),
        28 <= r <= 31,
{
    if month == 1 {
        if leap {
            29
        } else {
            28
        }
    } else if month == 3 || month == 5 || month == 8 || month == 10 {
        30
    } else {
        31
    }
}

/// The year that a day falls in and its place in that year.
fn year_of(days: u64) -> (r: (u64, u64))
    requires
        days <= 0x1_0000_0000_0000,
    ensures
        r.0 >= 1970,
        r.1 < year_days(r.0 as nat),
        days == new_year(r.0 as nat) + r.1,
        r.0 <= 1970 + days,
{
    let mut year: u64 = 1970;
    let mut rest: u64 = days;
    loop
        invariant
            days <= 0x1_0000_0000_0000,
            year >= 1970,
            rest <= days,
            year <= 1970 + (days - rest),
            days == new_year(year as nat) + rest,
        ensures
            year >= 1970,
            rest < year_days(year as nat),
            days == new_year(year as nat) + rest,
            year <= 1970 + days,
        decreases rest,
    {
        let ydays: u64 = if is_leap(year) {
            366
        } else {
            365
        };
        if rest < ydays {
            break;
        }
        rest = rest - ydays;
        year = year + 1;
    }
    (year, rest)
}

/// The month, from 0, and the day of month, from 0, of a day of a year.
fn month_of(year: u64, day: u64) -> (r: (u64, u64))
    requires
        day < year_days(year as nat),
    ensures
        r.0 < 12,
        r.1 < month_days(year as nat, r.0 as nat),
        day == month_start(year as nat, r.0 as nat) + r.1,
{
    let leap: bool = is_leap(year);
    let mut month: u64 = 0;
    let mut rest: u64 = day;
    while month < 12
        invariant
            month <= 12,
            leap == leap_year(year as nat),
            day < year_days(year as nat),
            day == month_start(year as nat, month as nat) + rest,
        decreases 12 - month,
    {
        let mdays: u64 = days_of_month(leap, month);
        if rest < mdays {
            return (month, rest);
        }
        rest = rest - mdays;
        month = month + 1;
    }
    proof {
        lemma_year_is_months(year as nat);
    }
    (0, 0)
}

/// Format unix timestamp to a short date/time string.
pub fn fmt_mtime(ts: u64) -> (r: String)
    ensures
        is_mtime_text(ts as nat, r@),
        forall|year: nat, month: nat, day: nat|
            ts > 0 && #[trigger] is_date(ts as nat / 86400, year, month, day) ==> r@ == date_text(
                year,
                month,
                day,
                ts as nat % 86400,
            ),
{
    let mut out: String = String::new();
    if ts == 0 {
        text::push_char(&mut out, '-');
        assert(out@ =~= seq!['-']);
        return out;
    }
    let days: u64 = ts / 86400;
    let secs: u64 = ts % 86400;
    let (year, in_year) = year_of(days);
    let (month, day) = month_of(year, in_year);
    number::push_padded(&mut out, year, 4);
    text::push_char(&mut out, '-');
    number::push_padded(&mut out, month + 1, 2);
    text::push_char(&mut out, '-');
    number::push_padded(&mut out, day + 1, 2);
    text::push_char(&mut out, ' ');
    number::push_padded(&mut out, secs / 3600, 2);
    text::push_char(&mut out, ':');
    number::push_padded(&mut out, secs % 3600 / 60, 2);
    assert(out@ =~= date_text(year as nat, month as nat, day as nat, secs as nat));
    assert(is_date(ts as nat / 86400, year as nat, month as nat, day as nat));
    proof {
        assert forall|y: nat, m: nat, d: nat| #[trigger]
            is_date(ts as nat / 86400, y, m, d) implies out@ == date_text(
            y,
            m,
            d,
            ts as nat % 86400,
        ) by {
            law_date_unique(ts as nat / 86400, y, m, d, year as nat, month as nat, day as nat);
        }
    }
    out
}

/// A time of day as `HH:MM:SS`.
pub open spec fn clock_text(hour: nat, minute: nat, second: nat) -> Seq<char> {
    number::padded(hour, 2) + seq![':'] + number::padded(minute, 2) + seq![':'] + number::padded(
        second,
        2,
    )
}

/// The clock of the status bar, `HH:MM:SS`.
pub fn fmt_clock(hour: u8, minute: u8, second: u8) -> (r: String)
    ensures
        r@ == clock_text(hour as nat, minute as nat, second as nat),
{
    let mut out: String = String::new();
    number::push_padded(&mut out, hour as u64, 2);
    text::push_char(&mut out, ':');
    number::push_padded(&mut out, minute as u64, 2);
    text::push_char(&mut out, ':');
    number::push_padded(&mut out, second as u64, 2);
    assert(out@ =~= clock_text(hour as nat, minute as nat, second as nat));
    out
}

/// The number and the unit letter of a disk size in T or G; none for any other text.
pub open spec fn disk_parts(s: Seq<char>) -> Option<(Seq<char>, char)> {
    let t = text::trimmed(s);
    if t.len() > 0 && (t.last() == 'T' || t.last() == 'G') {
        Some((t.drop_last(), t.last()))
    } else {
        None
    }
}

/// Splits a disk size in T or G into its number, still as text, and its unit letter; any other
/// text comes back trimmed.
pub fn split_disk_size(s: &str) -> (r: Result<(String, char), String>)
    ensures
        match r {
            Ok(p) => disk_parts(s@) == Some((p.0@, p.1)),
            Err(t) => disk_parts(s@) is None && t@ == text::trimmed(s@),
        },
{
    let chars: Vec<char> = text::to_chars(s);
    let mut t: Vec<char> = text::trim(&chars);
    let ghost whole = t@;
    if t.len() == 0 {
        return Err(text::to_string(&t));
    }
    let last: char = t[t.len() - 1];
    if last == 'T' || last == 'G' {
        let _ = t.pop();
        assert(t@ =~= whole.drop_last());
        Ok((text::to_string(&t), last))
    } else {
        Err(text::to_string(&t))
    }
}

/// Permissions are shown for the owner, the group and the others, read before write before
/// execute: a letter where the bit is set and a dash where it is not.
pub proof fn law_permissions(mode: u32)
    ensures
        ({
            let t = perms_text(mode);
            let shown = |c: char, bit: u32| if mode & bit != 0 {
                c
            } else {
                '-'
            };
            &&& t.len() == 9
            &&& t[0] == shown('r', 0o400) && t[1] == shown('w', 0o200) && t[2] == shown('x', 0o100)
            &&& t[3] == shown('r', 0o040) && t[4] == shown('w', 0o020) && t[5] == shown('x', 0o010)
            &&& t[6] == shown('r', 0o004) && t[7] == shown('w', 0o002) && t[8] == shown('x', 0o001)
        }),
{
}

/// A size below 1024 bytes is shown in bytes as it is. A size that is a whole number of kilobytes,
/// megabytes or gigabytes, with fewer of them than make the next unit, is shown as that number.
pub proof fn law_round_sizes(n: nat)
    requires
        1 <= n < 1024,
    ensures
        size_text(n) == number::digits(n) + " B"@,
        size_text(n * 0x400) == number::digits(n) + ".0"@ + " K"@,
        size_text(n * 0x10_0000) == number::digits(n) + ".0"@ + " M"@,
        size_text(n * 0x4000_0000) == number::digits(n) + ".0"@ + " G"@,
{
    lemma_round_unit(n, 0x400);
    lemma_round_unit(n, 0x10_0000);
    lemma_round_unit(n, 0x4000_0000);
}

proof fn lemma_round_unit(n: nat, unit: nat)
    requires
        1 <= n < 1024,
        unit == 0x400 || unit == 0x10_0000 || unit == 0x4000_0000,
    ensures
        in_units(n * unit, unit, 1) == number::digits(n) + ".0"@,
{
    reveal_strlit(".0");
    assert(n * unit < 0x20_0000_0000_0000) by (nonlinear_arith)
        requires
            n < 1024,
            unit <= 0x4000_0000,
    ;
    lemma_exact53(n * unit);
    assert(half_even(n * unit * 10, unit) == 10 * n) by {
        assert(n * unit * 10 == unit * (10 * n)) by (nonlinear_arith);
        vstd::arithmetic::div_mod::lemma_fundamental_div_mod_converse(
            (n * unit * 10) as int,
            unit as int,
            (10 * n) as int,
            0,
        );
    }
    assert(number::padded(0, 1) =~= seq!['0']) by {
        assert(number::digits(0) =~= seq!['0']);
    }
    assert(number::digits(n) + seq!['.'] + number::padded(0, 1) =~= number::digits(n) + ".0"@);
}

proof fn lemma_exact53(n: nat)
    requires
        n < 0x20_0000_0000_0000,
    ensures
        nearest53(n) == n,
{
    assert(spacing(n) == 1);
    assert(n / 1 == n && n % 1 == 0);
    assert(half_even(n, 1) == n);
}

} // verus!
