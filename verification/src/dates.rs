//! Printed forms of dates, times and timestamps, and their strict
//! parsers, with round-trip proofs.

use vstd::prelude::*;
use crate::strutil::{
    digits_val, is_digit, lemma_digits_val_bound, lemma_padded_digits_roundtrip,
    lemma_padded_digits_shape, padded_digits, pow10, push_padded_digits,
};
use crate::value::{Date, DateTime, DateTimeS, Time, days_in_month, wf_date, wf_datetime, wf_time};

verus! {

broadcast use vstd::std_specs::vec::group_vec_axioms, vstd::seq::group_seq_axioms;

/// `YYYY-MM-DD`.
pub open spec fn date_str(d: Date) -> Seq<char> {
    padded_digits(d.year as nat, 4) + seq!['-'] + padded_digits(d.month as nat, 2) + seq!['-']
        + padded_digits(d.day as nat, 2)
}

/// `hh:mm:ss` with `.fff` appended when milliseconds are present.
pub open spec fn time_str(t: Time) -> Seq<char> {
    padded_digits(t.hour as nat, 2) + seq![':'] + padded_digits(t.minute as nat, 2) + seq![':']
        + padded_digits(t.second as nat, 2) + (if t.millis > 0 {
        seq!['.'] + padded_digits(t.millis as nat, 3)
    } else {
        Seq::<char>::empty()
    })
}

/// `Z` for UTC, otherwise a signed `hh:mm` offset.
pub open spec fn offset_str(o: i32) -> Seq<char> {
    if o == 0 {
        seq!['Z']
    } else {
        let a = if o < 0 {
            -o as nat
        } else {
            o as nat
        };
        (if o < 0 {
            seq!['-']
        } else {
            seq!['+']
        }) + padded_digits(a / 60, 2) + seq![':'] + padded_digits(a % 60, 2)
    }
}

/// The full timestamp: date, `T`, time, offset.
pub open spec fn dt_str(d: DateTimeS) -> Seq<char> {
    date_str(d.date) + seq!['T'] + time_str(d.time) + offset_str(d.offset_min)
}

pub open spec fn all_digits(s: Seq<char>, from: int, to: int) -> bool {
    forall|i: int| from <= i < to ==> is_digit(#[trigger] s[i])
}

/// Strict parse of `YYYY-MM-DD`; succeeds exactly on the printed form
/// of a well-formed date.
pub open spec fn parse_date_str(s: Seq<char>) -> Option<Date> {
    if s.len() == 10 && s[4] == '-' && s[7] == '-' && all_digits(s, 0, 4) && all_digits(s, 5, 7)
        && all_digits(s, 8, 10) {
        let y = digits_val(s.subrange(0, 4));
        let m = digits_val(s.subrange(5, 7));
        let d = digits_val(s.subrange(8, 10));
        if 1 <= y <= 9999 && 1 <= m <= 12 && 1 <= d <= days_in_month(y as u16, m as u8) {
            Some(Date { year: y as u16, month: m as u8, day: d as u8 })
        } else {
            None
        }
    } else {
        None
    }
}

/// Strict parse of `hh:mm:ss` or `hh:mm:ss.fff`.
pub open spec fn parse_time_str(s: Seq<char>) -> Option<Time> {
    if (s.len() == 8 || (s.len() == 12 && s[8] == '.' && all_digits(s, 9, 12))) && s[2] == ':'
        && s[5] == ':' && all_digits(s, 0, 2) && all_digits(s, 3, 5) && all_digits(s, 6, 8) {
        let h = digits_val(s.subrange(0, 2));
        let mi = digits_val(s.subrange(3, 5));
        let sec = digits_val(s.subrange(6, 8));
        let ms = if s.len() == 12 {
            digits_val(s.subrange(9, 12))
        } else {
            0
        };
        if h < 24 && mi < 60 && sec < 60 {
            Some(
                Time {
                    hour: h as u8,
                    minute: mi as u8,
                    second: sec as u8,
                    millis: ms as u16,
                },
            )
        } else {
            None
        }
    } else {
        None
    }
}

/// Strict parse of `Z` or a signed `hh:mm` offset, in minutes.
pub open spec fn parse_offset_str(s: Seq<char>) -> Option<i32> {
    if s.len() == 1 && s[0] == 'Z' {
        Some(0)
    } else if s.len() == 6 && (s[0] == '+' || s[0] == '-') && s[3] == ':' && all_digits(s, 1, 3)
        && all_digits(s, 4, 6) {
        let h = digits_val(s.subrange(1, 3));
        let m = digits_val(s.subrange(4, 6));
        let a = h * 60 + m;
        if m < 60 && a <= 18 * 60 {
            if s[0] == '-' {
                Some((-(a as int)) as i32)
            } else {
                Some(a as i32)
            }
        } else {
            None
        }
    } else {
        None
    }
}

/// Strict parse of a full timestamp string; the timezone name is
/// supplied separately.
pub open spec fn parse_dt_str(s: Seq<char>, tz: Seq<char>) -> Option<DateTimeS> {
    if s.len() >= 20 && s[10] == 'T' {
        let time_len: int = if s.len() == 24 || s.len() == 29 {
            12
        } else {
            8
        };
        if s.len() == 11 + time_len + 1 || s.len() == 11 + time_len + 6 {
            let date = parse_date_str(s.subrange(0, 10));
            let time = parse_time_str(s.subrange(11, 11 + time_len));
            let off = parse_offset_str(s.subrange(11 + time_len, s.len() as int));
            if date is Some && time is Some && off is Some && tz.len() > 0 {
                Some(
                    DateTimeS {
                        date: date->Some_0,
                        time: time->Some_0,
                        offset_min: off->Some_0,
                        tz: tz,
                    },
                )
            } else {
                None
            }
        } else {
            None
        }
    } else {
        None
    }
}

pub proof fn lemma_pow10_small()
    ensures
        pow10(2) == 100,
        pow10(3) == 1000,
        pow10(4) == 10000,
{
    assert(pow10(0) == 1);
    assert(pow10(1) == 10);
    assert(pow10(2) == 100);
    assert(pow10(3) == 1000);
    assert(pow10(4) == 10000);
}

/// Parsing the printed date yields the date again.
pub proof fn lemma_date_str_roundtrip(d: Date)
    requires
        wf_date(d),
    ensures
        parse_date_str(date_str(d)) == Some(d),
        date_str(d).len() == 10,
{
    let s = date_str(d);
    lemma_pow10_small();
    lemma_padded_digits_shape(d.year as nat, 4);
    lemma_padded_digits_shape(d.month as nat, 2);
    lemma_padded_digits_shape(d.day as nat, 2);
    assert(s.subrange(0, 4) =~= padded_digits(d.year as nat, 4));
    assert(s.subrange(5, 7) =~= padded_digits(d.month as nat, 2));
    assert(s.subrange(8, 10) =~= padded_digits(d.day as nat, 2));
    lemma_padded_digits_roundtrip(d.year as nat, 4);
    lemma_padded_digits_roundtrip(d.month as nat, 2);
    lemma_padded_digits_roundtrip(d.day as nat, 2);
}

/// Parsing the printed time yields the time again.
pub proof fn lemma_time_str_roundtrip(t: Time)
    requires
        wf_time(t),
    ensures
        parse_time_str(time_str(t)) == Some(t),
        time_str(t).len() == (if t.millis > 0 { 12int } else { 8int }),
{
    let s = time_str(t);
    lemma_pow10_small();
    lemma_padded_digits_shape(t.hour as nat, 2);
    lemma_padded_digits_shape(t.minute as nat, 2);
    lemma_padded_digits_shape(t.second as nat, 2);
    lemma_padded_digits_shape(t.millis as nat, 3);
    assert(s.subrange(0, 2) =~= padded_digits(t.hour as nat, 2));
    assert(s.subrange(3, 5) =~= padded_digits(t.minute as nat, 2));
    assert(s.subrange(6, 8) =~= padded_digits(t.second as nat, 2));
    if t.millis > 0 {
        assert(s.subrange(9, 12) =~= padded_digits(t.millis as nat, 3));
    }
    lemma_padded_digits_roundtrip(t.hour as nat, 2);
    lemma_padded_digits_roundtrip(t.minute as nat, 2);
    lemma_padded_digits_roundtrip(t.second as nat, 2);
    lemma_padded_digits_roundtrip(t.millis as nat, 3);
}

/// Parsing the printed offset yields the offset again.
pub proof fn lemma_offset_str_roundtrip(o: i32)
    requires
        -18 * 60 <= o <= 18 * 60,
    ensures
        parse_offset_str(offset_str(o)) == Some(o),
        offset_str(o).len() == (if o == 0 { 1int } else { 6int }),
{
    let s = offset_str(o);
    lemma_pow10_small();
    if o != 0 {
        let a = if o < 0 {
            -o as nat
        } else {
            o as nat
        };
        lemma_padded_digits_shape(a / 60, 2);
        lemma_padded_digits_shape(a % 60, 2);
        assert(s.subrange(1, 3) =~= padded_digits(a / 60, 2));
        assert(s.subrange(4, 6) =~= padded_digits(a % 60, 2));
        lemma_padded_digits_roundtrip(a / 60, 2);
        lemma_padded_digits_roundtrip(a % 60, 2);
        assert((a / 60) * 60 + a % 60 == a);
    }
}

/// Parsing the printed timestamp yields the timestamp again.
pub proof fn lemma_dt_str_roundtrip(d: DateTimeS)
    requires
        wf_datetime(d),
    ensures
        parse_dt_str(dt_str(d), d.tz) == Some(d),
{
    let s = dt_str(d);
    lemma_date_str_roundtrip(d.date);
    lemma_time_str_roundtrip(d.time);
    lemma_offset_str_roundtrip(d.offset_min);
    let time_len: int = if d.time.millis > 0 {
        12
    } else {
        8
    };
    assert(s[10] == 'T');
    assert(s.len() == 11 + time_len + (if d.offset_min == 0 { 1int } else { 6int }));
    assert(s.subrange(0, 10) =~= date_str(d.date));
    assert(s.subrange(11, 11 + time_len) =~= time_str(d.time));
    assert(s.subrange(11 + time_len, s.len() as int) =~= offset_str(d.offset_min));
}


/// `all_digits` of a range, restated on the extracted subrange.
pub proof fn lemma_all_digits_sub(s: Seq<char>, a: int, b: int)
    requires
        0 <= a <= b <= s.len(),
    ensures
        all_digits(s, a, b) == all_digits(s.subrange(a, b), 0, b - a),
{
    let t = s.subrange(a, b);
    if all_digits(s, a, b) {
        assert forall|m: int| 0 <= m < b - a implies is_digit(#[trigger] t[m]) by {
            assert(t[m] == s[a + m]);
        }
    }
    if all_digits(t, 0, b - a) {
        assert forall|m: int| a <= m < b implies is_digit(#[trigger] s[m]) by {
            assert(t[m - a] == s[m]);
        }
    }
}

} // verus!
