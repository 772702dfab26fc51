//! The evaluation side: the cache key of an evaluation, the questions of
//! the request, the freshness dating of candidates (ISO-8601 date reading,
//! day numbers of the Gregorian calendar, the 180-day staleness rule) and
//! the ranking order.

use vstd::prelude::*;
use vstd::multiset::Multiset;
use crate::policy::{STALE_DAYS, UNIX_EPOCH_DAY};
use crate::json::{json_leaf, json_text_at, leaf_text};
use crate::text::{contains_text, occurs_at, concat, framed, chars_of, char_texts, decimal, decimal_string, join, lemma_sorted_unique, lowercase, lowercased, push_all, push_char, push_joined, sort_texts, texts_sorted, trim, trimmed};
use crate::types::{Candidate, CandidateModel, models, pair_views, texts};

verus! {

/// Division that rounds toward zero, as Rust's integer `/` does (`b > 0`).
pub open spec fn trunc_div(a: int, b: int) -> int {
    if a >= 0 { a / b } else { -((-a) / b) }
}

/// The day number of year `y`, month `m`, day `d` (Meeus' algorithm in
/// whole numbers, divisions rounding toward zero).
pub open spec fn julian_day_spec(y: int, m: int, d: int) -> int {
    let y2 = if m <= 2 { y - 1 } else { y };
    let m2 = if m <= 2 { m + 12 } else { m };
    let a = trunc_div(y2, 100);
    let b = 2 - a + trunc_div(a, 4);
    trunc_div(36525 * (y2 + 4716), 100) + trunc_div(306 * (m2 + 1), 10) + d + b - 1524
}

/// `x` fits in an `i64`.
pub open spec fn fits_i64(x: int) -> bool {
    i64::MIN <= x <= i64::MAX
}

/// Every step of `julian_day` on these arguments stays within `i64`.
pub open spec fn julian_args_in_range(y: int, m: int, d: int) -> bool {
    let y2 = if m <= 2 { y - 1 } else { y };
    let m2 = if m <= 2 { m + 12 } else { m };
    let a = trunc_div(y2, 100);
    let b = 2 - a + trunc_div(a, 4);
    let t1 = trunc_div(36525 * (y2 + 4716), 100);
    let t2 = trunc_div(306 * (m2 + 1), 10);
    &&& fits_i64(y2)
    &&& fits_i64(y2 + 4716)
    &&& fits_i64(36525 * (y2 + 4716))
    &&& fits_i64(m2 + 1)
    &&& fits_i64(306 * (m2 + 1))
    &&& fits_i64(t1 + t2)
    &&& fits_i64(t1 + t2 + d)
    &&& fits_i64(t1 + t2 + d + b)
    &&& fits_i64(t1 + t2 + d + b - 1524)
}

fn div_toward_zero(a: i64, b: i64) -> (r: i64)
    requires
        b > 0,
    ensures
        r == trunc_div(a as int, b as int),
{
    a / b
}

/// The day number of a calendar date.
pub fn julian_day(y: i64, m: i64, d: i64) -> (r: i64)
    requires
        julian_args_in_range(y as int, m as int, d as int),
    ensures
        r == julian_day_spec(y as int, m as int, d as int),
{
    let (y2, m2) = if m <= 2 { (y - 1, m + 12) } else { (y, m) };
    let a = div_toward_zero(y2, 100);
    let b = 2 - a + div_toward_zero(a, 4);
    div_toward_zero(36525 * (y2 + 4716), 100) + div_toward_zero(306 * (m2 + 1), 10) + d + b - 1524
}

} // verus!

verus! {

/// Leap years of the proleptic Gregorian calendar.
pub open spec fn is_leap_year(y: int) -> bool {
    y % 4 == 0 && (y % 100 != 0 || y % 400 == 0)
}

/// Number of days in month `m` (1 to 12) of year `y`.
pub open spec fn days_in_month(y: int, m: int) -> int {
    if m == 2 {
        if is_leap_year(y) { 29 } else { 28 }
    } else if m == 4 || m == 6 || m == 9 || m == 11 {
        30
    } else {
        31
    }
}

/// `(y, m, d)` names a day of the Gregorian calendar.
pub open spec fn is_calendar_date(y: int, m: int, d: int) -> bool {
    1 <= m <= 12 && 1 <= d <= days_in_month(y, m)
}

/// The calendar day after `(y, m, d)`.
pub open spec fn next_date(y: int, m: int, d: int) -> (int, int, int) {
    if d < days_in_month(y, m) {
        (y, m, d + 1)
    } else if m < 12 {
        (y, m + 1, 1)
    } else {
        (y + 1, 1, 1)
    }
}

proof fn lemma_year_term(n: int)
    requires
        n >= 0,
    ensures
        (36525 * n) / 100 == 365 * n + n / 4,
{
    let q = n / 4;
    let r = n % 4;
    assert(n == 4 * q + r);
    assert(36525 * n == 100 * (1461 * q + 365 * r) + 25 * r);
    assert(0 <= 25 * r < 100);
}

/// Leap years among the years 1 to `y - 1`.
pub open spec fn leap_years_before(y: int) -> int {
    (y - 1) / 4 - (y - 1) / 100 + (y - 1) / 400
}

/// Days in the months of year `y` before month `m`.
pub open spec fn days_before_month(y: int, m: int) -> int
    decreases m,
{
    if m <= 1 { 0 } else { days_before_month(y, m - 1) + days_in_month(y, m - 1) }
}

/// Days from 0001-01-01 to `(y, m, d)` in the proleptic Gregorian calendar.
pub open spec fn days_from_year_one(y: int, m: int, d: int) -> int {
    365 * (y - 1) + leap_years_before(y) + days_before_month(y, m) + d - 1
}

/// The signed number of days from 1970-01-01 to `(y, m, d)`.
pub open spec fn days_from_unix_epoch(y: int, m: int, d: int) -> int {
    days_from_year_one(y, m, d) - days_from_year_one(1970, 1, 1)
}

proof fn lemma_days_before_month_values(y: int, m: int)
    requires
        1 <= m <= 12,
    ensures
        days_before_month(y, m) == (if m <= 2 {
            31 * (m - 1)
        } else {
            (306 * (m + 1)) / 10 - 63 + (if is_leap_year(y) { 1int } else { 0 })
        }),
{
    assert(days_before_month(y, 1) == 0);
    assert(days_before_month(y, 2) == 31);
    assert(days_before_month(y, 3) == 59 + (if is_leap_year(y) { 1int } else { 0 }));
    assert(days_before_month(y, 4) == days_before_month(y, 3) + 31);
    assert(days_before_month(y, 5) == days_before_month(y, 4) + 30);
    assert(days_before_month(y, 6) == days_before_month(y, 5) + 31);
    assert(days_before_month(y, 7) == days_before_month(y, 6) + 30);
    assert(days_before_month(y, 8) == days_before_month(y, 7) + 31);
    assert(days_before_month(y, 9) == days_before_month(y, 8) + 31);
    assert(days_before_month(y, 10) == days_before_month(y, 9) + 30);
    assert(days_before_month(y, 11) == days_before_month(y, 10) + 31);
    assert(days_before_month(y, 12) == days_before_month(y, 11) + 30);
}

proof fn lemma_leap_years_step(y: int)
    requires
        y >= 1,
    ensures
        leap_years_before(y + 1) == leap_years_before(y) + (if is_leap_year(y) { 1int } else { 0 }),
{
    assert(y / 4 == (y - 1) / 4 + (if y % 4 == 0 { 1int } else { 0 }));
    assert(y / 100 == (y - 1) / 100 + (if y % 100 == 0 { 1int } else { 0 }));
    assert(y / 400 == (y - 1) / 400 + (if y % 400 == 0 { 1int } else { 0 }));
    assert(y % 400 == 0 ==> y % 100 == 0);
    assert(y % 100 == 0 ==> y % 4 == 0);
}

/// The day number of a date is 2440588 (the day number of 1970-01-01) plus
/// the signed number of days from 1970-01-01 to it, for every date of the
/// years 1 to 9999; and `julian_day` computes it there without overflow.
pub proof fn lemma_julian_day_counts_days(y: int, m: int, d: int)
    requires
        1 <= y <= 9999,
        is_calendar_date(y, m, d),
    ensures
        julian_args_in_range(y, m, d),
        julian_day_spec(y, m, d) == UNIX_EPOCH_DAY + days_from_unix_epoch(y, m, d),
{
    assert(days_before_month(1970, 1) == 0);
    assert(days_from_year_one(1970, 1, 1) == 719162);
    lemma_days_before_month_values(y, m);
    let y2 = if m <= 2 { y - 1 } else { y };
    assert(y2 >= 0);
    lemma_year_term(y2 + 4716);
    assert((y2 + 4716) / 4 == y2 / 4 + 1179);
    vstd::arithmetic::div_mod::lemma_div_denominator(y2, 100, 4);
    assert(trunc_div(y2, 100) == y2 / 100);
    assert(trunc_div(y2 / 100, 4) == y2 / 400);
    if m > 2 {
        lemma_leap_years_step(y);
        assert(leap_years_before(y + 1) == y / 4 - y / 100 + y / 400);
    }
}

/// Successive calendar days have successive day numbers, from year -98 on.
/// (For some earlier years the rounding toward zero breaks the step at the
/// end of February, as at -99-02-28.)
pub proof fn lemma_next_day_is_next_number(y: int, m: int, d: int)
    requires
        y >= -98,
        is_calendar_date(y, m, d),
    ensures
        julian_day_spec(next_date(y, m, d).0, next_date(y, m, d).1, next_date(y, m, d).2)
            == julian_day_spec(y, m, d) + 1,
{
    if d < days_in_month(y, m) {
    } else if m == 2 {
        // from (y - 1, 14, d) to (y, 3, 1)
        lemma_year_term(y + 4716);
        lemma_year_term(y - 1 + 4716);
        assert((y + 4716) % 4 == y % 4);
        assert((y + 4716) / 4 == (y - 1 + 4716) / 4 + (if y % 4 == 0 { 1int } else { 0 }));
        if y >= 1 {
            let a1 = y / 100;
            let a0 = (y - 1) / 100;
            assert(a1 == a0 + (if y % 100 == 0 { 1int } else { 0 }));
            if y % 100 == 0 {
                assert(a1 % 4 == 0 <==> y % 400 == 0);
                assert(a1 / 4 == a0 / 4 + (if a1 % 4 == 0 { 1int } else { 0 }));
            }
        } else {
            assert(trunc_div(y, 100) == 0);
            assert(trunc_div(y - 1, 100) == 0);
        }
    } else if m < 12 {
    } else {
    }
}

} // verus!

verus! {

/// An ASCII decimal digit byte.
pub open spec fn is_digit_byte(b: u8) -> bool {
    48 <= b <= 57
}

/// Every byte of `s` is a decimal digit.
pub open spec fn all_digits(s: Seq<u8>) -> bool {
    forall|i: int| 0 <= i < s.len() ==> is_digit_byte(#[trigger] s[i])
}

/// The number that the decimal digits `s` spell.
pub open spec fn digits_value(s: Seq<u8>) -> int
    decreases s.len(),
{
    if s.len() == 0 {
        0
    } else {
        digits_value(s.drop_last()) * 10 + (s.last() - 48)
    }
}

/// What `str::parse::<i64>` gives on the bytes `s`: an optional sign, then
/// at least one decimal digit, within the range of `i64`.
pub open spec fn parse_i64_spec(s: Seq<u8>) -> Option<int> {
    let signed = s.len() > 0 && (s[0] == 43 || s[0] == 45);
    let body = if signed { s.drop_first() } else { s };
    let magnitude = digits_value(body);
    let v = if signed && s[0] == 45 { -magnitude } else { magnitude };
    if body.len() == 0 || !all_digits(body) || v < i64::MIN || v > i64::MAX {
        None
    } else {
        Some(v)
    }
}

/// The parsed number, or 0 where the text is no number.
pub open spec fn field_value(s: Seq<u8>) -> int {
    match parse_i64_spec(s) {
        Some(v) => v,
        None => 0,
    }
}

/// The bytes before the first `T` (the date of an ISO-8601 timestamp).
pub open spec fn date_part(bs: Seq<u8>) -> Seq<u8>
    decreases bs.len(),
{
    if bs.len() == 0 || bs[0] == 84 {
        Seq::empty()
    } else {
        seq![bs[0]] + date_part(bs.drop_first())
    }
}

/// Whether the timestamp with UTF-8 bytes `bs`, read on Unix day `now_days`,
/// is older than the staleness limit. A date shorter than ten bytes, or with
/// a year, month or day field that reads as 0 (as any field holding a
/// non-digit does), is never stale.
pub open spec fn stale_at(bs: Seq<u8>, now_days: int) -> bool {
    let d = date_part(bs);
    if d.len() < 10 {
        false
    } else {
        let y = field_value(d.subrange(0, 4));
        let m = field_value(d.subrange(5, 7));
        let dd = field_value(d.subrange(8, 10));
        if y == 0 || m == 0 || dd == 0 {
            false
        } else {
            now_days - (julian_day_spec(y, m, dd) - UNIX_EPOCH_DAY) > STALE_DAYS
        }
    }
}

/// Day counts that a clock reading, divided into days, can take.
pub open spec fn day_count_in_range(n: int) -> bool {
    i64::MIN / 86400 <= n <= i64::MAX / 86400
}

proof fn lemma_date_part_at(bs: Seq<u8>, i: int)
    requires
        0 <= i <= bs.len(),
        forall|k: int| 0 <= k < i ==> #[trigger] bs[k] != 84,
        i == bs.len() || bs[i] == 84,
    ensures
        date_part(bs) == bs.subrange(0, i),
    decreases i,
{
    if i == 0 {
        assert(bs.subrange(0, 0) =~= Seq::<u8>::empty());
    } else {
        let t = bs.drop_first();
        assert forall|k: int| 0 <= k < i - 1 implies #[trigger] t[k] != 84 by {
            assert(t[k] == bs[k + 1]);
        }
        if i < bs.len() {
            assert(t[i - 1] == bs[i]);
        }
        lemma_date_part_at(t, i - 1);
        assert(seq![bs[0]] + t.subrange(0, i - 1) =~= bs.subrange(0, i));
    }
}

proof fn lemma_digits_bound(s: Seq<u8>)
    requires
        all_digits(s),
        s.len() <= 4,
    ensures
        0 <= digits_value(s) < 10000,
        s.len() <= 3 ==> digits_value(s) < 1000,
        s.len() <= 2 ==> digits_value(s) < 100,
        s.len() <= 1 ==> digits_value(s) < 10,
    decreases s.len(),
{
    if s.len() > 0 {
        assert(all_digits(s.drop_last())) by {
            assert forall|i: int| 0 <= i < s.drop_last().len() implies is_digit_byte(#[trigger] s.drop_last()[i]) by {
                assert(s.drop_last()[i] == s[i]);
            }
        }
        assert(is_digit_byte(s[s.len() - 1]));
        lemma_digits_bound(s.drop_last());
    }
}

/// The value of the digits `b[lo..hi]`, or `None` where a byte there is no
/// digit.
fn digits_in(b: &[u8], lo: usize, hi: usize) -> (r: Option<i64>)
    requires
        lo <= hi <= b@.len(),
        hi - lo <= 4,
    ensures
        r is Some <==> all_digits(b@.subrange(lo as int, hi as int)),
        r matches Some(v) ==> v == digits_value(b@.subrange(lo as int, hi as int)) && 0 <= v < 10000,
{
    let mut acc: i64 = 0;
    let mut k = lo;
    while k < hi
        invariant
            lo <= k <= hi <= b@.len(),
            hi - lo <= 4,
            all_digits(b@.subrange(lo as int, k as int)),
            acc == digits_value(b@.subrange(lo as int, k as int)),
            0 <= acc < 10000,
        decreases hi - k,
    {
        let c = b[k];
        if c < 48 || c > 57 {
            proof {
                assert(b@.subrange(lo as int, hi as int)[k - lo] == b@[k as int]);
            }
            return None;
        }
        proof {
            let p = b@.subrange(lo as int, k + 1);
            assert(p.drop_last() =~= b@.subrange(lo as int, k as int));
            assert(all_digits(p)) by {
                assert forall|i: int| 0 <= i < p.len() implies is_digit_byte(#[trigger] p[i]) by {
                    if i < p.len() - 1 {
                        assert(p[i] == b@.subrange(lo as int, k as int)[i]);
                    }
                }
            }
            lemma_digits_bound(p);
        }
        acc = acc * 10 + (c - 48) as i64;
        k += 1;
    }
    Some(acc)
}

/// The number in `b[lo..hi]` as `str::parse::<i64>` reads it, or 0 where it
/// reads none.
fn parse_field(b: &[u8], lo: usize, hi: usize) -> (r: i64)
    requires
        lo <= hi <= b@.len(),
        hi - lo <= 4,
    ensures
        r == field_value(b@.subrange(lo as int, hi as int)),
        -9999 <= r <= 9999,
{
    let ghost s = b@.subrange(lo as int, hi as int);
    if lo == hi {
        return 0;
    }
    let signed = b[lo] == 43 || b[lo] == 45;
    let start = if signed { lo + 1 } else { lo };
    proof {
        if signed {
            assert(b@.subrange(start as int, hi as int) =~= s.drop_first());
        } else {
            assert(b@.subrange(start as int, hi as int) =~= s);
        }
    }
    if start == hi {
        return 0;
    }
    match digits_in(b, start, hi) {
        None => 0,
        Some(v) => if signed && b[lo] == 45 { -v } else { v },
    }
}

#[verifier::external_type_specification]
#[verifier::external_body]
pub struct ExSystemTime(std::time::SystemTime);

/// The current time of the system clock, through `SystemTime::now`.
#[verifier::external_body]
fn system_now() -> (r: std::time::SystemTime) {
    std::time::SystemTime::now()
}

/// Whole seconds from the Unix epoch to `t`, through
/// `SystemTime::duration_since(UNIX_EPOCH)` (read with `as_secs`); `None`
/// for a time before 1970. Nothing is stated of the value.
#[verifier::external_body]
fn seconds_since_epoch(t: &std::time::SystemTime) -> (r: Option<u64>) {
    t.duration_since(std::time::UNIX_EPOCH).ok().map(|d| d.as_secs())
}

/// Today's Unix day number from a clock reading in seconds (0 when there is
/// none); the seconds are taken as an `i64`, as a cast gives them.
pub fn days_from_seconds(secs: Option<u64>) -> (r: i64)
    ensures
        day_count_in_range(r as int),
        secs matches Some(s) ==> r == trunc_div((s as i64) as int, 86400),
        secs matches Some(s) ==> (s <= i64::MAX ==> r == s / 86400),
        secs is None ==> r == 0,
{
    match secs {
        Some(s) => {
            let t = s as i64;
            div_toward_zero(t, 86400)
        },
        None => 0,
    }
}

/// Length of the date part of `b`: the bytes before the first `T`.
fn date_len(b: &[u8]) -> (n: usize)
    ensures
        n <= b@.len(),
        date_part(b@) == b@.subrange(0, n as int),
{
    let mut i: usize = 0;
    while i < b.len() && b[i] != 84
        invariant
            i <= b@.len(),
            forall|k: int| 0 <= k < i ==> #[trigger] b@[k] != 84,
        decreases b@.len() - i,
    {
        i += 1;
    }
    proof {
        lemma_date_part_at(b@, i as int);
    }
    i
}

/// Whether the ISO-8601 timestamp `iso` is more than 180 days old on Unix day
/// `now_days`.
pub fn is_stale_at(iso: &str, now_days: i64) -> (r: bool)
    requires
        day_count_in_range(now_days as int),
    ensures
        r == stale_at(vstd::utf8::encode_utf8(iso@), now_days as int),
{
    let b = iso.as_bytes();
    let n = date_len(b);
    let ghost d = b@.subrange(0, n as int);
    if n < 10 {
        return false;
    }
    let y = parse_field(b, 0, 4);
    let m = parse_field(b, 5, 7);
    let dd = parse_field(b, 8, 10);
    proof {
        assert(d.subrange(0, 4) =~= b@.subrange(0, 4));
        assert(d.subrange(5, 7) =~= b@.subrange(5, 7));
        assert(d.subrange(8, 10) =~= b@.subrange(8, 10));
    }
    if y == 0 || m == 0 || dd == 0 {
        return false;
    }
    let days = julian_day(y, m, dd);
    now_days - (days - UNIX_EPOCH_DAY) > STALE_DAYS
}

/// True if an ISO-8601 date ("YYYY-MM-DD...") is older than 180 days by the
/// system clock; false for any text that does not start with such a date.
pub fn is_stale_180d(iso: &str) -> (r: bool)
    ensures
        exists|now: int| day_count_in_range(now) && r == stale_at(vstd::utf8::encode_utf8(iso@), now),
{
    let now = days_from_seconds(seconds_since_epoch(&system_now()));
    is_stale_at(iso, now)
}

} // verus!

verus! {

/// Once a timestamp is stale it stays stale as the clock moves on.
pub proof fn lemma_stale_persists(bs: Seq<u8>, now: int, later: int)
    requires
        stale_at(bs, now),
        now <= later,
    ensures
        stale_at(bs, later),
{
}

} // verus!

verus! {

/// The ids of a list of candidates.
pub open spec fn candidate_ids(v: Seq<Candidate>) -> Seq<Seq<char>> {
    v.map_values(|c: Candidate| c.id@)
}

/// The ascending ordering of the texts in `m` (unique: see
/// `lemma_sorted_unique`).
pub open spec fn sorted_texts(m: Multiset<Seq<char>>) -> Seq<Seq<char>> {
    choose|s: Seq<Seq<char>>| texts_sorted(s) && s.to_multiset() == m
}

/// The cache key of an evaluation: the trimmed, lower-cased query, a `|`,
/// then the candidate ids in ascending order joined by commas.
pub open spec fn evaluation_key_spec(query: Seq<char>, ids: Seq<Seq<char>>) -> Seq<char> {
    lowercase(trim(query)) + seq!['|'] + join(sorted_texts(ids.to_multiset()), seq![','])
}

/// The cache key under which the evaluation of `candidates` for `query` is
/// kept.
pub fn evaluation_key(query: &str, candidates: &[Candidate]) -> (r: String)
    ensures
        r@ == evaluation_key_spec(query@, candidate_ids(candidates@)),
{
    let t = trimmed(query);
    let mut out = lowercased(t.as_str());
    push_char(&mut out, '|');
    let mut ids: Vec<Vec<char>> = Vec::new();
    let mut i: usize = 0;
    while i < candidates.len()
        invariant
            i <= candidates@.len(),
            char_texts(ids@) == candidate_ids(candidates@.subrange(0, i as int)),
        decreases candidates@.len() - i,
    {
        let ghost before = ids@;
        ids.push(chars_of(candidates[i].id.as_str()));
        proof {
            assert(char_texts(ids@) =~= char_texts(before).push(candidates@[i as int].id@));
            assert(candidate_ids(candidates@.subrange(0, i + 1)) =~= candidate_ids(candidates@.subrange(0, i as int)).push(candidates@[i as int].id@));
        }
        i += 1;
    }
    proof {
        assert(candidates@.subrange(0, candidates@.len() as int) =~= candidates@);
    }
    let sorted = sort_texts(ids);
    proof {
        let m = candidate_ids(candidates@).to_multiset();
        let chosen = sorted_texts(m);
        assert(texts_sorted(char_texts(sorted@)) && char_texts(sorted@).to_multiset() == m);
        assert(texts_sorted(chosen) && chosen.to_multiset() == m);
        lemma_sorted_unique(chosen, char_texts(sorted@));
    }
    push_joined(&mut out, &sorted, ',');
    out
}

/// The evaluation key does not depend on the order of the candidates: the
/// same ids in any order give the same key.
pub proof fn lemma_evaluation_key_order_free(query: Seq<char>, ids1: Seq<Seq<char>>, ids2: Seq<Seq<char>>)
    requires
        ids1.to_multiset() == ids2.to_multiset(),
    ensures
        evaluation_key_spec(query, ids1) == evaluation_key_spec(query, ids2),
{
}

/// The name of a question about candidate `idx`: the prefix, `_`, then the
/// index in decimal (as `fit_0`).
pub open spec fn question_key_spec(prefix: Seq<char>, idx: nat) -> Seq<char> {
    prefix + seq!['_'] + decimal(idx)
}

/// The name of the question `prefix` about candidate `idx`.
pub fn question_key(prefix: &str, idx: usize) -> (r: String)
    ensures
        r@ == question_key_spec(prefix@, idx as nat),
{
    let mut out = prefix.to_owned();
    push_char(&mut out, '_');
    let d = decimal_string(idx as u64);
    let dv = chars_of(d.as_str());
    push_all(&mut out, &dv);
    out
}

/// The date that tells how fresh a candidate is: its last push when known,
/// else its last update.
pub open spec fn freshness_date_spec(c: Candidate) -> Seq<char> {
    if c.pushed_at@.len() == 0 { c.updated_at@ } else { c.pushed_at@ }
}

/// The date by which the staleness of `c` is judged.
pub fn freshness_date(c: &Candidate) -> (r: &String)
    ensures
        r@ == freshness_date_spec(*c),
{
    if c.pushed_at.as_str().is_empty() {
        &c.updated_at
    } else {
        &c.pushed_at
    }
}

/// Whether `c` has had no push or update in the last 180 days by the clock.
pub fn candidate_is_stale(c: &Candidate) -> (r: bool)
    ensures
        exists|now: int| day_count_in_range(now)
            && r == stale_at(vstd::utf8::encode_utf8(freshness_date_spec(*c)), now),
{
    is_stale_180d(freshness_date(c).as_str())
}

/// Whether `c` is the candidate that the evaluation picked as best match.
pub fn is_best_match(c: &Candidate, best_id: &String) -> (r: bool)
    ensures
        r == (c.id@ == best_id@),
{
    c.id == *best_id
}

} // verus!

verus! {

/// `order` lists each index of `keys` exactly once.
pub open spec fn is_index_permutation(order: Seq<usize>, n: nat) -> bool {
    &&& order.len() == n
    &&& forall|a: int| 0 <= a < order.len() ==> #[trigger] order[a] < n
    &&& forall|a: int, b: int| 0 <= a < order.len() && 0 <= b < order.len() && a != b ==> order[a] != order[b]
}

/// `order` puts higher keys first and, among equal keys, keeps the input
/// order (a stable descending sort).
pub open spec fn is_stable_descending(keys: Seq<u64>, order: Seq<usize>) -> bool {
    forall|a: int, b: int| 0 <= a < b < order.len() ==> {
        ||| keys[#[trigger] order[a] as int] > keys[#[trigger] order[b] as int]
        ||| (keys[order[a] as int] == keys[order[b] as int] && order[a] < order[b])
    }
}

/// The ranking order of the evaluated candidates by their rank keys: the
/// positions of the candidates, highest key first, ties in input order.
pub fn rank_order(keys: &Vec<u64>) -> (r: Vec<usize>)
    ensures
        is_index_permutation(r@, keys@.len()),
        is_stable_descending(keys@, r@),
{
    let mut out: Vec<usize> = Vec::new();
    let mut i: usize = 0;
    while i < keys.len()
        invariant
            i <= keys@.len(),
            is_index_permutation(out@, i as nat),
            is_stable_descending(keys@, out@),
        decreases keys@.len() - i,
    {
        let k = keys[i];
        let mut p: usize = 0;
        while p < out.len() && keys[out[p]] >= k
            invariant
                p <= out@.len(),
                is_index_permutation(out@, i as nat),
                i < keys@.len(),
                k == keys@[i as int],
                forall|a: int| 0 <= a < p ==> keys@[#[trigger] out@[a] as int] >= k,
            decreases out@.len() - p,
        {
            p += 1;
        }
        let ghost before = out@;
        out.insert(p, i);
        proof {
            assert(out@ =~= before.insert(p as int, i));
            assert forall|a: int| 0 <= a < out@.len() implies #[trigger] out@[a] < i + 1 by {
                if a < p { assert(out@[a] == before[a]); } else if a > p { assert(out@[a] == before[a - 1]); }
            }
            assert forall|a: int, b: int| 0 <= a < out@.len() && 0 <= b < out@.len() && a != b
                implies out@[a] != out@[b] by {
                if a != p && b != p {
                    let a2 = if a < p { a } else { a - 1 };
                    let b2 = if b < p { b } else { b - 1 };
                    assert(out@[a] == before[a2] && out@[b] == before[b2]);
                } else if a == p {
                    let b2 = if b < p { b } else { b - 1 };
                    assert(out@[b] == before[b2]);
                } else {
                    let a2 = if a < p { a } else { a - 1 };
                    assert(out@[a] == before[a2]);
                }
            }
            assert forall|a: int, b: int| 0 <= a < b < out@.len() implies {
                ||| keys@[#[trigger] out@[a] as int] > keys@[#[trigger] out@[b] as int]
                ||| (keys@[out@[a] as int] == keys@[out@[b] as int] && out@[a] < out@[b])
            } by {
                if b < p {
                    assert(out@[a] == before[a] && out@[b] == before[b]);
                } else if b == p {
                    assert(out@[a] == before[a]);
                    assert(keys@[before[a] as int] >= k);
                } else if a < p {
                    assert(out@[a] == before[a] && out@[b] == before[b - 1]);
                } else if a == p {
                    assert(out@[b] == before[b - 1]);
                    assert(keys@[before[p as int] as int] < k);
                    if b - 1 > p {
                        assert(keys@[before[p as int] as int] >= keys@[before[b - 1] as int]);
                    }
                } else {
                    assert(out@[a] == before[a - 1] && out@[b] == before[b - 1]);
                }
            }
        }
        i += 1;
    }
    out
}

} // verus!

verus! {

/// The instructions of the relevance question about a candidate.
pub fn fit_instructions(name: &str, query: &str) -> (r: String)
    ensures
        r@ == "Relevance of '"@ + name@ + "' to '"@ + query@ + "'?"@,
{
    let head = framed("Relevance of '", name, "' to '");
    let tail = concat(query, "'?");
    concat(head.as_str(), tail.as_str())
}

/// The instructions of the documentation question about a candidate.
pub fn doc_instructions(name: &str) -> (r: String)
    ensures
        r@ == "Docs quality of '"@ + name@ + "'?"@,
{
    framed("Docs quality of '", name, "'?")
}

/// The instructions of the maintenance question about a candidate.
pub fn modern_instructions(name: &str) -> (r: String)
    ensures
        r@ == "Is '"@ + name@ + "' actively maintained?"@,
{
    framed("Is '", name, "' actively maintained?")
}

/// The instructions of the best-match question.
pub fn best_match_instructions(query: &str) -> (r: String)
    ensures
        r@ == "Single best for '"@ + query@ + "'?"@,
{
    framed("Single best for '", query, "'?")
}

/// How a candidate is described among the choices of the best-match
/// question: its name, a colon and its description.
pub fn choice_criterion(c: &Candidate) -> (r: String)
    ensures
        r@ == c.name@ + ": "@ + c.description@,
{
    framed(c.name.as_str(), ": ", c.description.as_str())
}

} // verus!

verus! {

/// What a question asks the evaluation service to answer with.
#[derive(Debug)]
pub enum Criteria {
    /// A score on these levels, from the lowest (0) to the highest (3).
    Levels(Vec<String>),
    /// The probability that a statement holds, with what true and false mean.
    Verdict { yes: String, no: String },
    /// One of these candidate ids, each with its description.
    Choices(Vec<(String, String)>),
}

/// One question of an evaluation request.
#[derive(Debug)]
pub struct Question {
    pub key: String,
    pub instructions: String,
    pub criteria: Criteria,
}

/// The criteria of a question as mathematical values.
pub enum CriteriaModel {
    Levels(Seq<Seq<char>>),
    Verdict(Seq<char>, Seq<char>),
    Choices(Seq<(Seq<char>, Seq<char>)>),
}

/// A question as mathematical values.
pub struct QuestionModel {
    pub key: Seq<char>,
    pub instructions: Seq<char>,
    pub criteria: CriteriaModel,
}

/// The values of criteria.
pub open spec fn criteria_view(c: Criteria) -> CriteriaModel {
    match c {
        Criteria::Levels(v) => CriteriaModel::Levels(texts(v@)),
        Criteria::Verdict { yes, no } => CriteriaModel::Verdict(yes@, no@),
        Criteria::Choices(v) => CriteriaModel::Choices(pair_views(v@)),
    }
}

/// The values of a question.
pub open spec fn question_view(q: Question) -> QuestionModel {
    QuestionModel { key: q.key@, instructions: q.instructions@, criteria: criteria_view(q.criteria) }
}

/// The values of a list of questions.
pub open spec fn questions_view(v: Seq<Question>) -> Seq<QuestionModel> {
    v.map_values(|q: Question| question_view(q))
}

/// The levels of the relevance score.
pub open spec fn fit_levels() -> Seq<Seq<char>> {
    seq![
        "Unrelated or completely different functional domain"@,
        "Loosely related or missing core requested features/language"@,
        "Strong match satisfying most constraints"@,
        "Exact architectural and functional match"@,
    ]
}

/// The levels of the documentation score.
pub open spec fn doc_levels() -> Seq<Seq<char>> {
    seq![
        "No usable description"@,
        "One-line or vague description"@,
        "Clear description with purpose"@,
        "Excellent docs with examples and links"@,
    ]
}

/// Question `part` (0: relevance, 1: documentation, 2: maintenance) about
/// candidate `c`, the `idx`-th of the request, for `query`.
pub open spec fn candidate_question_spec(query: Seq<char>, c: CandidateModel, idx: nat, part: int) -> QuestionModel {
    if part == 0 {
        QuestionModel {
            key: question_key_spec("fit"@, idx),
            instructions: "Relevance of '"@ + c.name + "' to '"@ + query + "'?"@,
            criteria: CriteriaModel::Levels(fit_levels()),
        }
    } else if part == 1 {
        QuestionModel {
            key: question_key_spec("doc"@, idx),
            instructions: "Docs quality of '"@ + c.name + "'?"@,
            criteria: CriteriaModel::Levels(doc_levels()),
        }
    } else {
        QuestionModel {
            key: question_key_spec("modern"@, idx),
            instructions: "Is '"@ + c.name + "' actively maintained?"@,
            criteria: CriteriaModel::Verdict(
                "Actively maintained with modern tooling"@,
                "Deprecated, abandoned, or legacy code"@,
            ),
        }
    }
}

/// How candidate `c` is offered in the best-match question: its id, and its
/// name, a colon and its description.
pub open spec fn choice_spec(c: CandidateModel) -> (Seq<char>, Seq<char>) {
    (c.id, c.name + ": "@ + c.description)
}

/// The best-match question: which of `cs` fits `query` best.
pub open spec fn best_match_question_spec(query: Seq<char>, cs: Seq<CandidateModel>) -> QuestionModel {
    QuestionModel {
        key: "best_match"@,
        instructions: "Single best for '"@ + query + "'?"@,
        criteria: CriteriaModel::Choices(Seq::new(cs.len(), |k: int| choice_spec(cs[k]))),
    }
}

/// The questions of one evaluation request: for each candidate, in order,
/// its relevance, documentation and maintenance questions, then the
/// best-match question.
pub open spec fn evaluation_questions_spec(query: Seq<char>, cs: Seq<CandidateModel>) -> Seq<QuestionModel> {
    Seq::new(
        3 * cs.len() + 1,
        |j: int| if j == 3 * cs.len() {
            best_match_question_spec(query, cs)
        } else {
            candidate_question_spec(query, cs[j / 3], (j / 3) as nat, j % 3)
        },
    )
}

/// Every request asks, of each candidate in turn: its relevance to the
/// query, scored on four levels from 0 (unrelated) through loosely related
/// and strong match to 3 (exact match); the quality of its documentation,
/// from none to excellent; and whether it is maintained. Its last question
/// offers every candidate, in order, by id with its name and description.
pub proof fn lemma_questions_ask_what_is_documented(query: Seq<char>, cs: Seq<CandidateModel>, i: int)
    requires
        0 <= i < cs.len(),
    ensures
        evaluation_questions_spec(query, cs).len() == 3 * cs.len() + 1,
        evaluation_questions_spec(query, cs)[3 * i] == (QuestionModel {
            key: "fit_"@ + decimal(i as nat),
            instructions: "Relevance of '"@ + cs[i].name + "' to '"@ + query + "'?"@,
            criteria: CriteriaModel::Levels(seq![
                "Unrelated or completely different functional domain"@,
                "Loosely related or missing core requested features/language"@,
                "Strong match satisfying most constraints"@,
                "Exact architectural and functional match"@,
            ]),
        }),
        evaluation_questions_spec(query, cs)[3 * i + 1] == (QuestionModel {
            key: "doc_"@ + decimal(i as nat),
            instructions: "Docs quality of '"@ + cs[i].name + "'?"@,
            criteria: CriteriaModel::Levels(seq![
                "No usable description"@,
                "One-line or vague description"@,
                "Clear description with purpose"@,
                "Excellent docs with examples and links"@,
            ]),
        }),
        evaluation_questions_spec(query, cs)[3 * i + 2] == (QuestionModel {
            key: "modern_"@ + decimal(i as nat),
            instructions: "Is '"@ + cs[i].name + "' actively maintained?"@,
            criteria: CriteriaModel::Verdict(
                "Actively maintained with modern tooling"@,
                "Deprecated, abandoned, or legacy code"@,
            ),
        }),
        evaluation_questions_spec(query, cs)[3 * cs.len() as int].key == "best_match"@,
        evaluation_questions_spec(query, cs)[3 * cs.len() as int].instructions == "Single best for '"@ + query + "'?"@,
        evaluation_questions_spec(query, cs)[3 * cs.len() as int].criteria matches CriteriaModel::Choices(choices)
            && choices.len() == cs.len()
            && choices[i] == (cs[i].id, cs[i].name + ": "@ + cs[i].description),
{
    assert((3 * i) / 3 == i && (3 * i) % 3 == 0);
    assert((3 * i + 1) / 3 == i && (3 * i + 1) % 3 == 1);
    assert((3 * i + 2) / 3 == i && (3 * i + 2) % 3 == 2);
    assert("fit"@ + seq!['_'] + decimal(i as nat) =~= "fit_"@ + decimal(i as nat)) by {
        reveal_strlit("fit");
        reveal_strlit("fit_");
    }
    assert("doc"@ + seq!['_'] + decimal(i as nat) =~= "doc_"@ + decimal(i as nat)) by {
        reveal_strlit("doc");
        reveal_strlit("doc_");
    }
    assert("modern"@ + seq!['_'] + decimal(i as nat) =~= "modern_"@ + decimal(i as nat)) by {
        reveal_strlit("modern");
        reveal_strlit("modern_");
    }
}

fn fit_levels_list() -> (r: Vec<String>)
    ensures
        texts(r@) == fit_levels(),
{
    let mut v: Vec<String> = Vec::new();
    v.push("Unrelated or completely different functional domain".to_owned());
    v.push("Loosely related or missing core requested features/language".to_owned());
    v.push("Strong match satisfying most constraints".to_owned());
    v.push("Exact architectural and functional match".to_owned());
    assert(texts(v@) =~= fit_levels());
    v
}

fn doc_levels_list() -> (r: Vec<String>)
    ensures
        texts(r@) == doc_levels(),
{
    let mut v: Vec<String> = Vec::new();
    v.push("No usable description".to_owned());
    v.push("One-line or vague description".to_owned());
    v.push("Clear description with purpose".to_owned());
    v.push("Excellent docs with examples and links".to_owned());
    assert(texts(v@) =~= doc_levels());
    v
}

/// The questions about `c`, the `idx`-th candidate of the request.
fn candidate_questions(query: &str, c: &Candidate, idx: usize) -> (r: (Question, Question, Question))
    ensures
        question_view(r.0) == candidate_question_spec(query@, c@, idx as nat, 0),
        question_view(r.1) == candidate_question_spec(query@, c@, idx as nat, 1),
        question_view(r.2) == candidate_question_spec(query@, c@, idx as nat, 2),
{
    let fit = Question {
        key: question_key("fit", idx),
        instructions: fit_instructions(c.name.as_str(), query),
        criteria: Criteria::Levels(fit_levels_list()),
    };
    let doc = Question {
        key: question_key("doc", idx),
        instructions: doc_instructions(c.name.as_str()),
        criteria: Criteria::Levels(doc_levels_list()),
    };
    let modern = Question {
        key: question_key("modern", idx),
        instructions: modern_instructions(c.name.as_str()),
        criteria: Criteria::Verdict {
            yes: "Actively maintained with modern tooling".to_owned(),
            no: "Deprecated, abandoned, or legacy code".to_owned(),
        },
    };
    (fit, doc, modern)
}

/// The questions of the evaluation request about `candidates` for `query`:
/// relevance, documentation and maintenance of each candidate in turn, then
/// which candidate is the best match.
pub fn evaluation_questions(query: &str, candidates: &[Candidate]) -> (r: Vec<Question>)
    ensures
        r@.len() == 3 * candidates@.len() + 1,
        questions_view(r@) == evaluation_questions_spec(query@, models(candidates@)),
{
    let ghost cs = models(candidates@);
    let ghost want = evaluation_questions_spec(query@, cs);
    let mut out: Vec<Question> = Vec::new();
    let mut choices: Vec<(String, String)> = Vec::new();
    let mut i: usize = 0;
    while i < candidates.len()
        invariant
            i <= candidates@.len(),
            cs == models(candidates@),
            want == evaluation_questions_spec(query@, cs),
            out@.len() == 3 * i,
            forall|j: int| 0 <= j < 3 * i ==> question_view(#[trigger] out@[j]) == want[j],
            pair_views(choices@) == Seq::new(i as nat, |k: int| choice_spec(cs[k])),
        decreases candidates@.len() - i,
    {
        let c = &candidates[i];
        let (fit, doc, modern) = candidate_questions(query, c, i);
        let ghost before = out@;
        out.push(fit);
        out.push(doc);
        out.push(modern);
        let ghost chosen_before = choices@;
        choices.push((c.id.clone(), choice_criterion(c)));
        proof {
            assert(cs[i as int] == c@);
            assert forall|j: int| 0 <= j < 3 * (i + 1) implies question_view(#[trigger] out@[j]) == want[j] by {
                if j < 3 * i {
                    assert(out@[j] == before[j]);
                } else {
                    assert(j / 3 == i as int);
                }
            }
            assert(pair_views(choices@) =~= Seq::new((i + 1) as nat, |k: int| choice_spec(cs[k]))) by {
                assert(pair_views(choices@) =~= pair_views(chosen_before).push((c.id@, c.name@ + ": "@ + c.description@)));
            }
        }
        i += 1;
    }
    let best = Question {
        key: "best_match".to_owned(),
        instructions: best_match_instructions(query),
        criteria: Criteria::Choices(choices),
    };
    let ghost before = out@;
    out.push(best);
    proof {
        assert(questions_view(out@) =~= want) by {
            assert forall|j: int| 0 <= j < out@.len() implies questions_view(out@)[j] == want[j] by {
                if j < 3 * i {
                    assert(out@[j] == before[j]);
                }
            }
        }
    }
    out
}

} // verus!

verus! {

/// Index `i` ranks before index `j`: a higher key, or the same key and an
/// earlier position.
pub open spec fn ranks_before(keys: Seq<u64>, i: usize, j: usize) -> bool {
    keys[i as int] > keys[j as int] || (keys[i as int] == keys[j as int] && i < j)
}

proof fn lemma_index_permutation_complete(s: Seq<usize>, n: nat)
    requires
        is_index_permutation(s, n),
    ensures
        forall|k: usize| k < n ==> s.contains(k),
    decreases n,
{
    if n > 0 {
        let top = (n - 1) as usize;
        if s.contains(top) {
            let j = choose|j: int| 0 <= j < s.len() && s[j] == top;
            let t = s.remove(j);
            assert forall|a: int| 0 <= a < t.len() implies #[trigger] t[a] < (n - 1) as nat by {
                let a2 = if a < j { a } else { a + 1 };
                assert(t[a] == s[a2]);
                assert(a2 != j);
            }
            assert forall|a: int, b: int| 0 <= a < t.len() && 0 <= b < t.len() && a != b implies t[a] != t[b] by {
                let a2 = if a < j { a } else { a + 1 };
                let b2 = if b < j { b } else { b + 1 };
                assert(t[a] == s[a2] && t[b] == s[b2]);
            }
            lemma_index_permutation_complete(t, (n - 1) as nat);
            assert forall|k: usize| k < n implies s.contains(k) by {
                if k < n - 1 {
                    assert(t.contains(k));
                    let a = choose|a: int| 0 <= a < t.len() && t[a] == k;
                    let a2 = if a < j { a } else { a + 1 };
                    assert(t[a] == s[a2]);
                    assert(s[a2] == k);
                } else {
                    assert(s[j] == k);
                }
            }
        } else {
            let t = s.drop_last();
            assert forall|a: int| 0 <= a < t.len() implies #[trigger] t[a] < (n - 1) as nat by {
                assert(t[a] == s[a]);
                assert(s[a] != top);
            }
            assert forall|a: int, b: int| 0 <= a < t.len() && 0 <= b < t.len() && a != b implies t[a] != t[b] by {
                assert(t[a] == s[a] && t[b] == s[b]);
            }
            lemma_index_permutation_complete(t, (n - 1) as nat);
            let last = s[s.len() - 1];
            assert(last != top);
            assert(last < n - 1);
            assert(t.contains(last));
            let a = choose|a: int| 0 <= a < t.len() && t[a] == last;
            assert(t[a] == s[a]);
            assert(s[a] == s[s.len() - 1]);
            assert(a != s.len() - 1);
            assert(false);
        }
    }
}

proof fn lemma_ordered_unique(keys: Seq<u64>, s1: Seq<usize>, s2: Seq<usize>)
    requires
        s1.len() == s2.len(),
        forall|x: usize| s1.contains(x) <==> s2.contains(x),
        forall|a: int, b: int| 0 <= a < b < s1.len() ==> ranks_before(keys, #[trigger] s1[a], #[trigger] s1[b]),
        forall|a: int, b: int| 0 <= a < b < s2.len() ==> ranks_before(keys, #[trigger] s2[a], #[trigger] s2[b]),
    ensures
        s1 == s2,
    decreases s1.len(),
{
    if s1.len() == 0 {
        assert(s1 =~= s2);
    } else {
        let x = s1[0];
        let y = s2[0];
        assert(s1.contains(x));
        assert(s2.contains(y));
        let k = choose|k: int| 0 <= k < s1.len() && s1[k] == y;
        let l = choose|l: int| 0 <= l < s2.len() && s2[l] == x;
        if x != y {
            assert(k > 0 && l > 0);
            assert(ranks_before(keys, s1[0], s1[k]));
            assert(ranks_before(keys, s2[0], s2[l]));
            assert(false);
        }
        let t1 = s1.drop_first();
        let t2 = s2.drop_first();
        assert forall|z: usize| t1.contains(z) <==> t2.contains(z) by {
            if t1.contains(z) {
                let a = choose|a: int| 0 <= a < t1.len() && t1[a] == z;
                assert(s1[a + 1] == z);
                assert(ranks_before(keys, s1[0], s1[a + 1]));
                assert(z != x);
                assert(s2.contains(z));
                let b = choose|b: int| 0 <= b < s2.len() && s2[b] == z;
                assert(b != 0);
                assert(t2[b - 1] == z);
            }
            if t2.contains(z) {
                let a = choose|a: int| 0 <= a < t2.len() && t2[a] == z;
                assert(s2[a + 1] == z);
                assert(ranks_before(keys, s2[0], s2[a + 1]));
                assert(z != y);
                assert(s1.contains(z));
                let b = choose|b: int| 0 <= b < s1.len() && s1[b] == z;
                assert(b != 0);
                assert(t1[b - 1] == z);
            }
        }
        assert forall|a: int, b: int| 0 <= a < b < t1.len() implies ranks_before(keys, #[trigger] t1[a], #[trigger] t1[b]) by {
            assert(t1[a] == s1[a + 1] && t1[b] == s1[b + 1]);
        }
        assert forall|a: int, b: int| 0 <= a < b < t2.len() implies ranks_before(keys, #[trigger] t2[a], #[trigger] t2[b]) by {
            assert(t2[a] == s2[a + 1] && t2[b] == s2[b + 1]);
        }
        lemma_ordered_unique(keys, t1, t2);
        assert(s1 =~= s2) by {
            assert forall|i: int| 0 <= i < s1.len() implies s1[i] == s2[i] by {
                if i > 0 {
                    assert(s1[i] == t1[i - 1] && s2[i] == t2[i - 1]);
                }
            }
        }
    }
}

/// The ranking is deterministic: there is only one stable descending order
/// of a list of rank keys.
pub proof fn lemma_rank_order_unique(keys: Seq<u64>, o1: Seq<usize>, o2: Seq<usize>)
    requires
        is_index_permutation(o1, keys.len()),
        is_index_permutation(o2, keys.len()),
        is_stable_descending(keys, o1),
        is_stable_descending(keys, o2),
    ensures
        o1 == o2,
{
    lemma_index_permutation_complete(o1, keys.len());
    lemma_index_permutation_complete(o2, keys.len());
    assert forall|x: usize| o1.contains(x) <==> o2.contains(x) by {
        if o1.contains(x) {
            let a = choose|a: int| 0 <= a < o1.len() && o1[a] == x;
            assert(x < keys.len());
        }
        if o2.contains(x) {
            let a = choose|a: int| 0 <= a < o2.len() && o2[a] == x;
            assert(x < keys.len());
        }
    }
    assert forall|a: int, b: int| 0 <= a < b < o1.len() implies ranks_before(keys, #[trigger] o1[a], #[trigger] o1[b]) by {
        assert(o1[a] != o1[b]);
    }
    assert forall|a: int, b: int| 0 <= a < b < o2.len() implies ranks_before(keys, #[trigger] o2[a], #[trigger] o2[b]) by {
        assert(o2[a] != o2[b]);
    }
    lemma_ordered_unique(keys, o1, o2);
}

} // verus!

verus! {

/// Why an evaluation request gave no usable answer.
#[derive(Debug)]
pub enum EvalFailure {
    /// The service answered with an error status and this body.
    Status { code: u16, body: String },
    /// The service could not be reached; `text` renders the error.
    Unreachable { text: String },
    /// The answer was no evaluation response; `detail` renders the error.
    BadResponse { detail: String },
    /// The response holds no answers.
    NoAnswers,
}

/// The message shown for a failed evaluation request.
pub open spec fn eval_failure_message_spec(f: EvalFailure) -> Seq<char> {
    match f {
        EvalFailure::Status { code, body } =>
            "TypeSafe Jev API HTTP "@ + decimal(code as nat) + ": "@ + body@,
        EvalFailure::Unreachable { text } =>
            "Failed to call TypeSafe Jev API: "@ + text@ + " (check that TYPESAFE_API_KEY is configured)"@,
        EvalFailure::BadResponse { detail } => "Failed to parse Jev API response: "@ + detail@,
        EvalFailure::NoAnswers => "Jev response missing answers"@,
    }
}

/// A failed evaluation names its cause: an error status gives the status
/// number and ends with the service's answer; an unreachable service names
/// the error and says to check `TYPESAFE_API_KEY`; an unreadable response
/// ends with the reading error.
pub proof fn lemma_eval_failure_names_cause(f: EvalFailure)
    ensures
        f matches EvalFailure::Status { code, body } ==> {
            let m = eval_failure_message_spec(f);
            &&& contains_text(m, decimal(code as nat))
            &&& m.len() >= body@.len() && m.subrange(m.len() - body@.len(), m.len() as int) == body@
        },
        f matches EvalFailure::Unreachable { text } ==> {
            let m = eval_failure_message_spec(f);
            &&& contains_text(m, text@)
            &&& contains_text(m, "TYPESAFE_API_KEY"@)
        },
        f matches EvalFailure::BadResponse { detail } ==> {
            let m = eval_failure_message_spec(f);
            m.len() >= detail@.len() && m.subrange(m.len() - detail@.len(), m.len() as int) == detail@
        },
        f is NoAnswers ==> contains_text(eval_failure_message_spec(f), "missing answers"@),
{
    let m = eval_failure_message_spec(f);
    match f {
        EvalFailure::Status { code, body } => {
            let head = "TypeSafe Jev API HTTP "@;
            reveal_strlit("TypeSafe Jev API HTTP ");
            let d = decimal(code as nat);
            assert(m == head + d + ": "@ + body@);
            assert(m.subrange(22, 22 + d.len() as int) =~= d);
            assert(occurs_at(m, d, 22));
            assert(m.subrange(m.len() - body@.len(), m.len() as int) =~= body@);
        },
        EvalFailure::Unreachable { text } => {
            let head = "Failed to call TypeSafe Jev API: "@;
            let tail = " (check that TYPESAFE_API_KEY is configured)"@;
            reveal_strlit("Failed to call TypeSafe Jev API: ");
            reveal_strlit(" (check that TYPESAFE_API_KEY is configured)");
            reveal_strlit("TYPESAFE_API_KEY");
            assert(m == head + text@ + tail);
            assert(m.subrange(33, 33 + text@.len() as int) =~= text@);
            assert(occurs_at(m, text@, 33));
            let k: int = 33 + text@.len() as int + 13;
            assert(m.subrange(k, k + 16) =~= "TYPESAFE_API_KEY"@);
            assert(occurs_at(m, "TYPESAFE_API_KEY"@, k));
        },
        EvalFailure::BadResponse { detail } => {
            let head = "Failed to parse Jev API response: "@;
            assert(m == head + detail@);
            assert(m.subrange(m.len() - detail@.len(), m.len() as int) =~= detail@);
        },
        EvalFailure::NoAnswers => {
            reveal_strlit("Jev response missing answers");
            reveal_strlit("missing answers");
            assert(m.subrange(13, 28) =~= "missing answers"@);
            assert(occurs_at(m, "missing answers"@, 13));
        },
    }
}

/// The message for a failed evaluation request.
pub fn eval_failure_message(f: &EvalFailure) -> (r: String)
    ensures
        r@ == eval_failure_message_spec(*f),
{
    match f {
        EvalFailure::Status { code, body } => {
            let head = concat("TypeSafe Jev API HTTP ", decimal_string(*code as u64).as_str());
            let head = concat(head.as_str(), ": ");
            concat(head.as_str(), body.as_str())
        },
        EvalFailure::Unreachable { text } =>
            framed("Failed to call TypeSafe Jev API: ", text.as_str(), " (check that TYPESAFE_API_KEY is configured)"),
        EvalFailure::BadResponse { detail } => concat("Failed to parse Jev API response: ", detail.as_str()),
        EvalFailure::NoAnswers => "Jev response missing answers".to_owned(),
    }
}

/// The id that the evaluation response `body` picks as best match: the
/// string `answers.best_match.choice`, if there is one.
pub fn best_match_choice(body: &str) -> (r: Option<String>)
    ensures
        crate::text::opt_text(r) == leaf_text(json_leaf(body@, "/answers/best_match/choice"@)),
{
    json_text_at(body, "/answers/best_match/choice")
}

} // verus!

verus! {

/// What an evaluation request tells of one candidate: what it is judged on.
/// Its install command, URL and ecosystem follow from these and are left
/// out, to keep the request short.
#[derive(Debug)]
pub struct StateCandidate {
    pub id: String,
    pub name: String,
    pub description: String,
    pub stars: u64,
    pub downloads: u64,
    pub license: String,
    pub updated_at: String,
    pub pushed_at: String,
    pub language: String,
    pub topics: Vec<String>,
}

/// The state that an evaluation request carries.
#[derive(Debug)]
pub struct EvalState {
    pub query: String,
    pub candidate_count: usize,
    pub candidates: Vec<StateCandidate>,
}

/// `s` tells of the candidate `c` what it is judged on.
pub open spec fn describes(s: StateCandidate, c: CandidateModel) -> bool {
    &&& s.id@ == c.id
    &&& s.name@ == c.name
    &&& s.description@ == c.description
    &&& s.stars == c.stars
    &&& s.downloads == c.downloads
    &&& s.license@ == c.license
    &&& s.updated_at@ == c.updated_at
    &&& s.pushed_at@ == c.pushed_at
    &&& s.language@ == c.language
    &&& texts(s.topics@) == c.topics
}

fn state_candidate(c: &Candidate) -> (r: StateCandidate)
    ensures
        describes(r, c@),
{
    let topics = c.topics.clone();
    assert(texts(topics@) =~= texts(c.topics@));
    StateCandidate {
        id: c.id.clone(),
        name: c.name.clone(),
        description: c.description.clone(),
        stars: c.stars,
        downloads: c.downloads,
        license: c.license.clone(),
        updated_at: c.updated_at.clone(),
        pushed_at: c.pushed_at.clone(),
        language: c.language.clone(),
        topics,
    }
}

/// The state of the evaluation request about `candidates` for `query`: the
/// query, the number of candidates, and each candidate, in order, by what
/// it is judged on.
pub fn evaluation_state(query: &str, candidates: &[Candidate]) -> (r: EvalState)
    ensures
        r.query@ == query@,
        r.candidate_count == candidates@.len(),
        r.candidates@.len() == candidates@.len(),
        forall|i: int| 0 <= i < candidates@.len() ==> describes(#[trigger] r.candidates@[i], candidates@[i]@),
{
    let mut out: Vec<StateCandidate> = Vec::new();
    let mut i: usize = 0;
    while i < candidates.len()
        invariant
            i <= candidates@.len(),
            out@.len() == i,
            forall|k: int| 0 <= k < i ==> describes(#[trigger] out@[k], candidates@[k]@),
        decreases candidates@.len() - i,
    {
        out.push(state_candidate(&candidates[i]));
        i += 1;
    }
    EvalState { query: query.to_owned(), candidate_count: candidates.len(), candidates: out }
}

} // verus!
