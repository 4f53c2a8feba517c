//! Event instants of the rollout records: epoch numbers in seconds or milliseconds, and
//! RFC 3339 texts, all taken to milliseconds since the Unix epoch.
use vstd::prelude::*;
use vstd::string::StringSliceAdditionalSpecFns;

verus! {

pub open spec fn is_digit(b: u8) -> bool {
    48 <= b <= 57
}

/// The decimal value of a run of digits.
pub open spec fn digits_value(s: Seq<u8>) -> int
    decreases s.len(),
{
    if s.len() == 0 {
        0
    } else {
        digits_value(s.drop_last()) * 10 + (s.last() - 48)
    }
}

proof fn lemma_digits_value_nonneg(s: Seq<u8>)
    requires
        forall|k: int| 0 <= k < s.len() ==> is_digit(#[trigger] s[k]),
    ensures
        digits_value(s) >= 0,
        s.len() > 0 ==> digits_value(s) >= digits_value(s.drop_last()),
    decreases s.len(),
{
    if s.len() > 0 {
        assert forall|k: int| 0 <= k < s.drop_last().len() implies is_digit(#[trigger] s.drop_last()[k]) by {
            assert(s.drop_last()[k] == s[k]);
        }
        lemma_digits_value_nonneg(s.drop_last());
    }
}

/// A non-empty run of digits whose value fits in `u64`.
pub open spec fn digits(s: Seq<u8>) -> Option<u64> {
    if s.len() > 0 && (forall|k: int| 0 <= k < s.len() ==> is_digit(#[trigger] s[k])) && digits_value(s) <= u64::MAX {
        Some(digits_value(s) as u64)
    } else {
        None
    }
}

pub fn parse_digits(bytes: &[u8]) -> (r: Option<u64>)
    ensures
        r == digits(bytes@),
{
    assert(bytes@.subrange(0, bytes@.len() as int) =~= bytes@);
    digits_in(bytes, 0, bytes.len())
}

proof fn lemma_prefix_grows(s: Seq<u8>, i: int)
    requires
        0 <= i <= s.len(),
        forall|m: int| 0 <= m < s.len() ==> is_digit(#[trigger] s[m]),
    ensures
        digits_value(s) >= digits_value(s.subrange(0, i)),
    decreases s.len() - i,
{
    if i < s.len() {
        lemma_prefix_grows(s, i + 1);
        let t = s.subrange(0, i + 1);
        assert(t.drop_last() =~= s.subrange(0, i));
        assert forall|m: int| 0 <= m < t.len() implies is_digit(#[trigger] t[m]) by {
            assert(t[m] == s[m]);
        }
        lemma_digits_value_nonneg(t);
    } else {
        assert(s.subrange(0, i) =~= s);
    }
}

pub open spec fn leap(year: int) -> bool {
    year % 4 == 0 && (year % 100 != 0 || year % 400 == 0)
}

pub open spec fn month_days(year: int, month: int) -> int {
    if month == 2 {
        if leap(year) { 29 } else { 28 }
    } else if month == 4 || month == 6 || month == 9 || month == 11 {
        30
    } else {
        31
    }
}

/// Days from 1970-01-01 to a date of the proleptic Gregorian calendar (Hinnant's civil
/// day count).
pub open spec fn civil_days(year: int, month: int, day: int) -> int {
    let y = if month <= 2 { year - 1 } else { year };
    let era = y / 400;
    let yoe = y - era * 400;
    let doy = (153 * (month + if month > 2 { -3int } else { 9int }) + 2) / 5 + day - 1;
    let doe = yoe * 365 + yoe / 4 - yoe / 100 + doy;
    era * 146097 + doe - 719468
}

/// A valid date's day count; `None` for a month or day out of range.
pub open spec fn days_of(year: int, month: int, day: int) -> Option<int> {
    if month < 1 || month > 12 || day == 0 || day > month_days(year, month) {
        None
    } else {
        Some(civil_days(year, month, day))
    }
}

fn days_in_month(year: i64, month: u32) -> (r: u32)
    requires
        0 <= year <= 9999,
    ensures
        r == month_days(year as int, month as int),
{
    if month == 2 {
        if year % 4 == 0 && (year % 100 != 0 || year % 400 == 0) { 29 } else { 28 }
    } else if month == 4 || month == 6 || month == 9 || month == 11 {
        30
    } else {
        31
    }
}

pub fn days_from_civil(year: i64, month: u32, day: u32) -> (r: Option<i64>)
    requires
        0 <= year <= 9999,
    ensures
        match days_of(year as int, month as int, day as int) {
            Some(d) => r == Some(d as i64) && i64::MIN <= d <= i64::MAX,
            None => r is None,
        },
{
    if month < 1 || month > 12 || day == 0 || day > days_in_month(year, month) {
        return None;
    }
    let y: i64 = if month <= 2 { year - 1 } else { year };
    let era: i64 = if y >= 0 { y / 400 } else { -1 };
    assert(era == y / 400);
    let yoe: i64 = y - era * 400;
    let m: i64 = month as i64;
    let d: i64 = day as i64;
    let shift: i64 = if m > 2 { -3 } else { 9 };
    let doy: i64 = (153 * (m + shift) + 2) / 5 + d - 1;
    let doe: i64 = yoe * 365 + yoe / 4 - yoe / 100 + doy;
    Some(era * 146097 + doe - 719468)
}

/// Epoch numbers below 10^10 count seconds and are scaled to milliseconds.
pub open spec fn scaled(v: u64) -> Option<u64> {
    if v >= 10000000000 {
        Some(v)
    } else if v * 1000 <= u64::MAX {
        Some((v * 1000) as u64)
    } else {
        None
    }
}

pub fn scale_timestamp(v: u64) -> (r: Option<u64>)
    ensures
        r == scaled(v),
{
    if v >= 10000000000 {
        Some(v)
    } else {
        Some(v * 1000)
    }
}

pub open spec fn at(b: Seq<u8>, i: int) -> Option<u8> {
    if 0 <= i < b.len() { Some(b[i]) } else { None }
}

/// The number of digits from position `i` on.
pub open spec fn digit_run(b: Seq<u8>, i: int) -> nat
    decreases b.len() - i,
{
    if 0 <= i < b.len() && is_digit(b[i]) {
        1 + digit_run(b, i + 1)
    } else {
        0
    }
}

pub open spec fn pow10(n: nat) -> int
    decreases n,
{
    if n == 0 { 1 } else { 10 * pow10((n - 1) as nat) }
}

/// The date and time fields of an RFC 3339 text: `YYYY-MM-DD(T|t| )hh:mm:ss`, with the hour
/// at most 23, the minute at most 59 and the second at most 60.
pub open spec fn rfc_fields(b: Seq<u8>) -> Option<(int, int, int, int, int, int)> {
    if b.len() < 20 || b[4] != 45 || b[7] != 45 || !(b[10] == 84 || b[10] == 116 || b[10] == 32) || b[13] != 58
        || b[16] != 58 {
        None
    } else if digits(b.subrange(0, 4)) is None || digits(b.subrange(5, 7)) is None || digits(b.subrange(8, 10)) is None
        || digits(b.subrange(11, 13)) is None || digits(b.subrange(14, 16)) is None || digits(b.subrange(17, 19)) is None {
        None
    } else {
        let hour = digits(b.subrange(11, 13))->0 as int;
        let minute = digits(b.subrange(14, 16))->0 as int;
        let second = digits(b.subrange(17, 19))->0 as int;
        if hour > 23 || minute > 59 || second > 60 {
            None
        } else {
            Some((digits(b.subrange(0, 4))->0 as int, digits(b.subrange(5, 7))->0 as int,
                digits(b.subrange(8, 10))->0 as int, hour, minute, second))
        }
    }
}

/// Where the zone starts and the milliseconds of an optional fraction after position 19: at
/// least one digit, digits past the third ignored.
pub open spec fn rfc_fraction(b: Seq<u8>) -> Option<(int, int)> {
    if at(b, 19) != Some(46u8) {
        Some((19int, 0int))
    } else {
        let n = digit_run(b, 20) as int;
        let kept = if n < 3 { n } else { 3int };
        if n == 0 {
            None
        } else {
            Some((20 + n, digits_value(b.subrange(20, 20 + kept)) * pow10((3 - kept) as nat)))
        }
    }
}

/// The zone at `index`, in minutes east: `Z`, `z` or `±hh:mm` ending the text.
pub open spec fn rfc_offset(b: Seq<u8>, index: int) -> Option<int> {
    if at(b, index) == Some(90u8) || at(b, index) == Some(122u8) {
        if index + 1 == b.len() { Some(0int) } else { None }
    } else if at(b, index) == Some(43u8) || at(b, index) == Some(45u8) {
        if index + 6 != b.len() || b[index + 3] != 58 || digits(b.subrange(index + 1, index + 3)) is None
            || digits(b.subrange(index + 4, index + 6)) is None {
            None
        } else {
            let oh = digits(b.subrange(index + 1, index + 3))->0 as int;
            let om = digits(b.subrange(index + 4, index + 6))->0 as int;
            if oh > 23 || om > 59 {
                None
            } else if b[index] == 45 {
                Some(-(oh * 60 + om))
            } else {
                Some(oh * 60 + om)
            }
        }
    } else {
        None
    }
}

/// The milliseconds since the epoch of an RFC 3339 text; an instant before the epoch or an
/// impossible date has none.
pub open spec fn rfc3339_ms(b: Seq<u8>) -> Option<u64> {
    match rfc_fields(b) {
        None => None,
        Some((year, month, day, hour, minute, second)) => match rfc_fraction(b) {
            None => None,
            Some((index, millis)) => match rfc_offset(b, index) {
                None => None,
                Some(offset) => match days_of(year, month, day) {
                    None => None,
                    Some(days) => {
                        let seconds = days * 86400 + hour * 3600 + minute * 60 + second - offset * 60;
                        if seconds < 0 {
                            None
                        } else {
                            Some((seconds * 1000 + millis) as u64)
                        }
                    },
                },
            },
        },
    }
}

fn digits_in(b: &[u8], start: usize, end: usize) -> (r: Option<u64>)
    requires
        start <= end <= b@.len(),
    ensures
        r == digits(b@.subrange(start as int, end as int)),
{
    let ghost s = b@.subrange(start as int, end as int);
    if start == end {
        return None;
    }
    let mut k: usize = start;
    while k < end
        invariant
            start <= k <= end <= b@.len(),
            s == b@.subrange(start as int, end as int),
            forall|m: int| 0 <= m < k - start ==> is_digit(#[trigger] s[m]),
        decreases end - k,
    {
        if !(48 <= b[k] && b[k] <= 57) {
            assert(!is_digit(s[k - start]));
            return None;
        }
        k += 1;
    }
    let mut value: u64 = 0;
    let mut i: usize = start;
    while i < end
        invariant
            start <= i <= end <= b@.len(),
            s == b@.subrange(start as int, end as int),
            forall|m: int| 0 <= m < s.len() ==> is_digit(#[trigger] s[m]),
            value == digits_value(s.subrange(0, i - start)),
        decreases end - i,
    {
        assert(s.subrange(0, i - start + 1).drop_last() =~= s.subrange(0, i - start));
        assert(s[i - start] == b@[i as int]);
        let d = (b[i] - 48) as u64;
        if value > (u64::MAX - d) / 10 {
            proof {
                lemma_prefix_grows(s, i - start + 1);
            }
            return None;
        }
        value = value * 10 + d;
        i += 1;
    }
    assert(s.subrange(0, s.len() as int) =~= s);
    Some(value)
}

fn digit_run_exec(b: &[u8], i: usize) -> (r: usize)
    requires
        i <= b@.len(),
    ensures
        r == digit_run(b@, i as int),
        i + r <= b@.len(),
{
    let mut k = i;
    while k < b.len() && 48 <= b[k] && b[k] <= 57
        invariant
            i <= k <= b@.len(),
            digit_run(b@, i as int) == (k - i) + digit_run(b@, k as int),
        decreases b@.len() - k,
    {
        k += 1;
    }
    k - i
}

proof fn lemma_digits_small(s: Seq<u8>)
    requires
        digits(s) is Some,
        s.len() <= 4,
    ensures
        digits(s)->0 < pow10(s.len()),
        digits(s)->0 <= 9999,
{
    lemma_all_digits_small(s);
    reveal_with_fuel(pow10, 5);
}

proof fn lemma_all_digits_small(s: Seq<u8>)
    requires
        forall|k: int| 0 <= k < s.len() ==> is_digit(#[trigger] s[k]),
        0 < s.len() <= 4,
    ensures
        0 <= digits_value(s) < pow10(s.len()),
        digits(s) == Some(digits_value(s) as u64),
    decreases s.len(),
{
    let t = s.drop_last();
    assert forall|k: int| 0 <= k < t.len() implies is_digit(#[trigger] t[k]) by {
        assert(t[k] == s[k]);
    }
    if t.len() > 0 {
        lemma_all_digits_small(t);
    }
    reveal_with_fuel(pow10, 5);
}

proof fn lemma_run_is_digits(b: Seq<u8>, i: int, k: int)
    requires
        0 <= i <= b.len(),
        0 <= k <= digit_run(b, i),
    ensures
        i + k <= b.len(),
        forall|m: int| i <= m < i + k ==> is_digit(#[trigger] b[m]),
    decreases k,
{
    if k > 0 {
        lemma_run_is_digits(b, i + 1, k - 1);
    }
}

proof fn lemma_days_bounded(year: int, month: int, day: int)
    requires
        0 <= year <= 9999,
        1 <= month <= 12,
        1 <= day <= 31,
    ensures
        -800000 <= civil_days(year, month, day) <= 3000000,
{
}

fn rfc_fields_exec(b: &[u8]) -> (r: Option<(u64, u64, u64, u64, u64, u64)>)
    ensures
        match rfc_fields(b@) {
            None => r is None,
            Some((y, mo, d, h, mi, s)) => r matches Some((ry, rmo, rd, rh, rmi, rs)) && ry == y && rmo == mo && rd == d
                && rh == h && rmi == mi && rs == s && y <= 9999 && mo <= 99 && d <= 99,
        },
{
    if b.len() < 20 || b[4] != 45 || b[7] != 45 || !(b[10] == 84 || b[10] == 116 || b[10] == 32) || b[13] != 58
        || b[16] != 58 {
        return None;
    }
    let year = match digits_in(b, 0, 4) { Some(v) => v, None => { return None; } };
    let month = match digits_in(b, 5, 7) { Some(v) => v, None => { return None; } };
    let day = match digits_in(b, 8, 10) { Some(v) => v, None => { return None; } };
    let hour = match digits_in(b, 11, 13) { Some(v) => v, None => { return None; } };
    let minute = match digits_in(b, 14, 16) { Some(v) => v, None => { return None; } };
    let second = match digits_in(b, 17, 19) { Some(v) => v, None => { return None; } };
    proof {
        lemma_digits_small(b@.subrange(0, 4));
        lemma_digits_small(b@.subrange(5, 7));
        lemma_digits_small(b@.subrange(8, 10));
        reveal_with_fuel(pow10, 5);
    }
    if hour > 23 || minute > 59 || second > 60 {
        return None;
    }
    Some((year, month, day, hour, minute, second))
}

#[verifier::spinoff_prover]
fn rfc_fraction_exec(b: &[u8]) -> (r: Option<(usize, u64)>)
    requires
        b@.len() >= 20,
    ensures
        match rfc_fraction(b@) {
            None => r is None,
            Some((index, millis)) => r matches Some((ri, rm)) && ri == index && rm == millis && ri <= b@.len() && rm < 1000,
        },
{
    let ghost bs = b@;
    if b[19] != 46 {
        return Some((19, 0));
    }
    let n = digit_run_exec(b, 20);
    if n == 0 {
        return None;
    }
    let kept = if n < 3 { n } else { 3 };
    proof {
        lemma_run_is_digits(bs, 20, kept as int);
        let t = bs.subrange(20, 20 + kept as int);
        assert forall|m: int| 0 <= m < t.len() implies is_digit(#[trigger] t[m]) by {
            assert(t[m] == bs[20 + m]);
        }
        lemma_all_digits_small(t);
        reveal_with_fuel(pow10, 5);
    }
    let v = match digits_in(b, 20, 20 + kept) { Some(v) => v, None => { return None; } };
    assert(kept == 1 ==> v < 10);
    assert(kept == 2 ==> v < 100);
    assert(v < 1000);
    let millis = if kept == 1 { v * 100 } else if kept == 2 { v * 10 } else { v };
    proof {
        reveal_with_fuel(pow10, 4);
        let dv = digits_value(bs.subrange(20, 20 + kept as int));
        assert(v == dv);
        if kept == 1 {
            assert(pow10(2) == 100);
            assert(millis == dv * pow10((3 - kept) as nat));
        } else if kept == 2 {
            assert(pow10(1) == 10);
            assert(millis == dv * pow10((3 - kept) as nat));
        } else {
            assert(pow10(0) == 1);
            assert(millis == dv * pow10((3 - kept) as nat));
        }
        assert(rfc_fraction(bs) == Some((20 + n as int, millis as int)));
    }
    Some((20 + n, millis))
}

fn rfc_offset_exec(b: &[u8], index: usize) -> (r: Option<i64>)
    requires
        index <= b@.len(),
    ensures
        match rfc_offset(b@, index as int) {
            None => r is None,
            Some(o) => r == Some(o as i64) && -1440 < o < 1440,
        },
{
    if index < b.len() && (b[index] == 90 || b[index] == 122) {
        if index + 1 == b.len() {
            return Some(0);
        }
        return None;
    }
    if !(index < b.len() && (b[index] == 43 || b[index] == 45)) {
        return None;
    }
    if b.len() - index != 6 || b[index + 3] != 58 {
        return None;
    }
    let oh = match digits_in(b, index + 1, index + 3) { Some(v) => v, None => { return None; } };
    let om = match digits_in(b, index + 4, index + 6) { Some(v) => v, None => { return None; } };
    if oh > 23 || om > 59 {
        return None;
    }
    let v = (oh * 60 + om) as i64;
    if b[index] == 45 { Some(-v) } else { Some(v) }
}

pub fn parse_rfc3339_ms(value: &str) -> (r: Option<u64>)
    ensures
        r == rfc3339_ms(value.spec_bytes()),
{
    let b = value.as_bytes();
    let (year, month, day, hour, minute, second) = match rfc_fields_exec(b) {
        Some(f) => f,
        None => { return None; },
    };
    let (index, millis) = match rfc_fraction_exec(b) {
        Some(f) => f,
        None => { return None; },
    };
    let offset = match rfc_offset_exec(b, index) {
        Some(o) => o,
        None => { return None; },
    };
    let days = match days_from_civil(year as i64, month as u32, day as u32) {
        Some(d) => d,
        None => { return None; },
    };
    proof {
        lemma_days_bounded(year as int, month as int, day as int);
    }
    let seconds: i64 = days * 86400 + (hour as i64) * 3600 + (minute as i64) * 60 + second as i64 - offset * 60;
    if seconds < 0 {
        return None;
    }
    Some((seconds as u64) * 1000 + millis)
}

} // verus!
