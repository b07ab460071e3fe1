use vstd::prelude::*;
use crate::types::Timestamp;

verus! {

/// The pieces of `s` between occurrences of `sep`, as `split` yields them.
pub open spec fn split_bytes(s: Seq<u8>, sep: u8) -> Seq<Seq<u8>>
    decreases s.len(),
{
    if s.len() == 0 {
        seq![Seq::empty()]
    } else {
        let parts = split_bytes(s.drop_last(), sep);
        if s.last() == sep {
            parts.push(Seq::empty())
        } else {
            parts.update(parts.len() - 1, parts.last().push(s.last()))
        }
    }
}

pub open spec fn is_digit(b: u8) -> bool {
    48 <= b <= 57
}

/// Value of a run of decimal digits.
pub open spec fn digits_value(s: Seq<u8>) -> nat
    decreases s.len(),
{
    if s.len() == 0 {
        0
    } else {
        digits_value(s.drop_last()) * 10 + (s.last() - 48) as nat
    }
}

/// A non-empty run of decimal digits whose value fits in `u32`.
pub open spec fn number_field(s: Seq<u8>) -> Option<u32> {
    if s.len() > 0 && (forall|i: int| 0 <= i < s.len() ==> is_digit(#[trigger] s[i]))
        && digits_value(s) <= u32::MAX {
        Some(digits_value(s) as u32)
    } else {
        None
    }
}

pub open spec fn is_leap_year(y: int) -> bool {
    y % 4 == 0 && (y % 100 != 0 || y % 400 == 0)
}

pub open spec fn days_in_month(y: int, m: int) -> int {
    if m == 2 {
        if is_leap_year(y) {
            29
        } else {
            28
        }
    } else if m == 4 || m == 6 || m == 9 || m == 11 {
        30
    } else {
        31
    }
}

/// A day of the proleptic Gregorian calendar within chrono's range of years.
pub open spec fn valid_ymd(y: int, m: int, d: int) -> bool {
    &&& -262143 <= y <= 262142
    &&& 1 <= m <= 12
    &&& 1 <= d <= days_in_month(y, m)
}

pub open spec fn valid_hms(h: int, m: int, s: int) -> bool {
    0 <= h < 24 && 0 <= m < 60 && 0 <= s < 60
}

/// A real calendar date and time of day.
pub open spec fn timestamp_valid(t: Timestamp) -> bool {
    valid_ymd(t.year as int, t.month as int, t.day as int) && valid_hms(
        t.hour as int,
        t.minute as int,
        t.second as int,
    )
}

/// The moment that EXIF text `YYYY:MM:DD HH:MM:SS` names, if it is well formed and real.
pub open spec fn exif_datetime(s: Seq<u8>) -> Option<Timestamp> {
    let halves = split_bytes(s, 32);
    if halves.len() != 2 {
        None
    } else {
        let d = split_bytes(halves[0], 58);
        let t = split_bytes(halves[1], 58);
        if d.len() != 3 || t.len() != 3 {
            None
        } else {
            let ts = Timestamp {
                year: number_field(d[0])->0 as i32,
                month: number_field(d[1])->0,
                day: number_field(d[2])->0,
                hour: number_field(t[0])->0,
                minute: number_field(t[1])->0,
                second: number_field(t[2])->0,
            };
            if number_field(d[0]) is Some && number_field(d[0])->0 <= i32::MAX && number_field(
                d[1],
            ) is Some && number_field(d[2]) is Some && number_field(t[0]) is Some && number_field(
                t[1],
            ) is Some && number_field(t[2]) is Some && timestamp_valid(ts) {
                Some(ts)
            } else {
                None
            }
        }
    }
}

/// The capture date from the first text value of the primary date tag, or,
/// where that tag holds no text, of the secondary one.
pub open spec fn capture_date(
    original: Option<Seq<Seq<u8>>>,
    generic: Option<Seq<Seq<u8>>>,
) -> Option<Timestamp> {
    if original is Some && original->0.len() > 0 {
        exif_datetime(original->0[0])
    } else if generic is Some && generic->0.len() > 0 {
        exif_datetime(generic->0[0])
    } else {
        None
    }
}

/// `a` is strictly earlier than `b`.
pub open spec fn ts_before(a: Timestamp, b: Timestamp) -> bool {
    if a.year != b.year {
        a.year < b.year
    } else if a.month != b.month {
        a.month < b.month
    } else if a.day != b.day {
        a.day < b.day
    } else if a.hour != b.hour {
        a.hour < b.hour
    } else if a.minute != b.minute {
        a.minute < b.minute
    } else {
        a.second < b.second
    }
}

/// Whether `a` is strictly earlier than `b`.
pub fn is_before(a: &Timestamp, b: &Timestamp) -> (r: bool)
    ensures
        r == ts_before(*a, *b),
{
    if a.year != b.year {
        a.year < b.year
    } else if a.month != b.month {
        a.month < b.month
    } else if a.day != b.day {
        a.day < b.day
    } else if a.hour != b.hour {
        a.hour < b.hour
    } else if a.minute != b.minute {
        a.minute < b.minute
    } else {
        a.second < b.second
    }
}

/// Relies on `chrono::NaiveDate::from_ymd_opt`: `Some` exactly for a real date of the
/// proleptic Gregorian calendar with a year in `-262143..=262142`.
#[verifier::external_body]
fn calendar_date_exists(year: i32, month: u32, day: u32) -> (r: bool)
    ensures
        r == valid_ymd(year as int, month as int, day as int),
{
    chrono::NaiveDate::from_ymd_opt(year, month, day).is_some()
}

/// Relies on `chrono::NaiveTime::from_hms_opt`: `Some` exactly for hour < 24,
/// minute < 60 and second < 60.
#[verifier::external_body]
fn time_of_day_exists(hour: u32, minute: u32, second: u32) -> (r: bool)
    ensures
        r == valid_hms(hour as int, minute as int, second as int),
{
    chrono::NaiveTime::from_hms_opt(hour, minute, second).is_some()
}

proof fn lemma_split_nonempty(s: Seq<u8>, sep: u8)
    ensures
        split_bytes(s, sep).len() >= 1,
    decreases s.len(),
{
    if s.len() > 0 {
        lemma_split_nonempty(s.drop_last(), sep);
    }
}

pub open spec fn bytes_view(v: Seq<Vec<u8>>) -> Seq<Seq<u8>> {
    v.map_values(|x: Vec<u8>| x@)
}

/// Splits `s` at each `sep`.
pub fn split_on(s: &[u8], sep: u8) -> (r: Vec<Vec<u8>>)
    ensures
        bytes_view(r@) == split_bytes(s@, sep),
{
    let mut parts: Vec<Vec<u8>> = Vec::new();
    parts.push(Vec::new());
    let mut i: usize = 0;
    proof {
        assert(s@.take(0) =~= Seq::<u8>::empty());
        assert(bytes_view(parts@) =~= split_bytes(s@.take(0), sep));
    }
    while i < s.len()
        invariant
            i <= s@.len(),
            bytes_view(parts@) == split_bytes(s@.take(i as int), sep),
        decreases s@.len() - i,
    {
        proof {
            lemma_split_nonempty(s@.take(i as int), sep);
            assert(s@.take(i + 1).drop_last() =~= s@.take(i as int));
            assert(s@.take(i + 1).last() == s@[i as int]);
        }
        let b = s[i];
        if b == sep {
            parts.push(Vec::new());
            proof {
                assert(bytes_view(parts@) =~= split_bytes(s@.take(i + 1), sep));
            }
        } else {
            let ghost before = parts@;
            let mut last = parts.pop().unwrap();
            last.push(b);
            parts.push(last);
            proof {
                assert(bytes_view(parts@) =~= split_bytes(s@.take(i + 1), sep));
            }
        }
        i = i + 1;
    }
    proof {
        assert(s@.take(i as int) =~= s@);
    }
    parts
}

proof fn lemma_digits_value_grows(s: Seq<u8>, i: int)
    requires
        0 <= i < s.len(),
    ensures
        digits_value(s.take(i + 1)) == digits_value(s.take(i)) * 10 + (s[i] - 48) as nat,
        digits_value(s.take(i + 1)) >= digits_value(s.take(i)),
{
    assert(s.take(i + 1).drop_last() =~= s.take(i));
}

/// Reads a decimal number that fits in `u32`.
pub fn parse_number(s: &Vec<u8>) -> (r: Option<u32>)
    ensures
        r == number_field(s@),
{
    if s.len() == 0 {
        return None;
    }
    let mut value: u64 = 0;
    let mut too_big = false;
    let mut i: usize = 0;
    proof {
        assert(s@.take(0) =~= Seq::<u8>::empty());
    }
    while i < s.len()
        invariant
            i <= s@.len(),
            forall|k: int| 0 <= k < i ==> is_digit(#[trigger] s@[k]),
            !too_big ==> value == digits_value(s@.take(i as int)) && value <= u32::MAX,
            too_big ==> digits_value(s@.take(i as int)) > u32::MAX,
        decreases s@.len() - i,
    {
        let b = s[i];
        if b < 48 || b > 57 {
            assert(!is_digit(s@[i as int]));
            return None;
        }
        proof {
            lemma_digits_value_grows(s@, i as int);
        }
        if !too_big {
            let next = value * 10 + (b - 48) as u64;
            if next > 4294967295 {
                too_big = true;
            } else {
                value = next;
            }
        }
        i = i + 1;
    }
    proof {
        assert(s@.take(i as int) =~= s@);
    }
    if too_big {
        None
    } else {
        Some(value as u32)
    }
}

/// Reads EXIF date-time text `YYYY:MM:DD HH:MM:SS`; `None` unless it is well formed
/// and names a real date and time.
pub fn parse_exif_datetime(text: &[u8]) -> (r: Option<Timestamp>)
    ensures
        r == exif_datetime(text@),
{
    let halves = split_on(text, 32);
    if halves.len() != 2 {
        return None;
    }
    let d = split_on(halves[0].as_slice(), 58);
    let t = split_on(halves[1].as_slice(), 58);
    assert(halves@[0]@ == bytes_view(halves@)[0]);
    assert(halves@[1]@ == bytes_view(halves@)[1]);
    if d.len() != 3 || t.len() != 3 {
        return None;
    }
    assert(d@[0]@ == bytes_view(d@)[0]);
    assert(d@[1]@ == bytes_view(d@)[1]);
    assert(d@[2]@ == bytes_view(d@)[2]);
    assert(t@[0]@ == bytes_view(t@)[0]);
    assert(t@[1]@ == bytes_view(t@)[1]);
    assert(t@[2]@ == bytes_view(t@)[2]);
    let year = parse_number(&d[0]);
    let month = parse_number(&d[1]);
    let day = parse_number(&d[2]);
    let hour = parse_number(&t[0]);
    let minute = parse_number(&t[1]);
    let second = parse_number(&t[2]);
    match (year, month, day, hour, minute, second) {
        (Some(y), Some(mo), Some(da), Some(h), Some(mi), Some(se)) => {
            if y > 2147483647 {
                return None;
            }
            let y = y as i32;
            if calendar_date_exists(y, mo, da) && time_of_day_exists(h, mi, se) {
                Some(Timestamp { year: y, month: mo, day: da, hour: h, minute: mi, second: se })
            } else {
                None
            }
        },
        _ => None,
    }
}

/// The capture date given the text values of the primary and the secondary EXIF
/// date tags (`None` where a tag is absent or holds no text).
pub fn capture_date_from_fields(
    original: &Option<Vec<Vec<u8>>>,
    generic: &Option<Vec<Vec<u8>>>,
) -> (r: Option<Timestamp>)
    ensures
        r == capture_date(
            match original {
                Some(v) => Some(bytes_view(v@)),
                None => None,
            },
            match generic {
                Some(v) => Some(bytes_view(v@)),
                None => None,
            },
        ),
{
    match original {
        Some(v) => {
            if v.len() > 0 {
                assert(v@[0]@ == bytes_view(v@)[0]);
                return parse_exif_datetime(v[0].as_slice());
            }
        },
        None => {},
    }
    match generic {
        Some(v) => {
            if v.len() > 0 {
                assert(v@[0]@ == bytes_view(v@)[0]);
                return parse_exif_datetime(v[0].as_slice());
            }
        },
        None => {},
    }
    None
}

} // verus!
