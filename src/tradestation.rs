use vstd::prelude::*;

use crate::data::{Bar, MarketData};

verus! {

/// An ASCII digit.
pub open spec fn is_digit(b: u8) -> bool {
    48 <= b <= 57
}

/// Every byte is an ASCII digit.
pub open spec fn all_digits(s: Seq<u8>) -> bool {
    forall|i: int| 0 <= i < s.len() ==> is_digit(#[trigger] s[i])
}

/// The number that a string of ASCII digits spells in base ten.
pub open spec fn digits_value(s: Seq<u8>) -> int
    decreases s.len(),
{
    if s.len() == 0 {
        0
    } else {
        digits_value(s.drop_last()) * 10 + (s.last() - 48)
    }
}

/// A whole number: one or more ASCII digits.
pub open spec fn whole_value(s: Seq<u8>) -> Option<int> {
    if s.len() > 0 && all_digits(s) {
        Some(digits_value(s))
    } else {
        None
    }
}

/// A decimal with at most two fraction digits, in hundredths: one or more
/// digits, then optionally a point and up to two digits.
pub open spec fn hundredths_value(s: Seq<u8>) -> Option<int> {
    let n = s.len() as int;
    if whole_value(s) is Some {
        Some(whole_value(s)->0 * 100)
    } else if n >= 2 && s[n - 1] == 46 && whole_value(s.take(n - 1)) is Some {
        Some(whole_value(s.take(n - 1))->0 * 100)
    } else if n >= 3 && s[n - 2] == 46 && is_digit(s[n - 1]) && whole_value(s.take(n - 2)) is Some {
        Some(whole_value(s.take(n - 2))->0 * 100 + (s[n - 1] - 48) * 10)
    } else if n >= 4 && s[n - 3] == 46 && is_digit(s[n - 2]) && is_digit(s[n - 1]) && whole_value(
        s.take(n - 3),
    ) is Some {
        Some(whole_value(s.take(n - 3))->0 * 100 + (s[n - 2] - 48) * 10 + (s[n - 1] - 48))
    } else {
        None
    }
}

/// A value that fits in 64 unsigned bits.
pub open spec fn as_u64(v: Option<int>) -> Option<u64> {
    match v {
        Some(x) => if 0 <= x <= u64::MAX {
            Some(x as u64)
        } else {
            None
        },
        None => None,
    }
}

proof fn lemma_digits_nonneg(s: Seq<u8>)
    requires
        all_digits(s),
    ensures
        0 <= digits_value(s),
    decreases s.len(),
{
    if s.len() > 0 {
        assert(all_digits(s.drop_last())) by {
            assert forall|i: int| 0 <= i < s.drop_last().len() implies is_digit(#[trigger] s.drop_last()[i]) by {
                assert(s.drop_last()[i] == s[i]);
            }
        }
        lemma_digits_nonneg(s.drop_last());
        assert(is_digit(s[s.len() - 1]));
    }
}

/// Reads the leading ASCII digits of `text`: how many there are, and their
/// value when it fits in 64 bits.
fn leading_digits(text: &[u8]) -> (r: (usize, Option<u64>))
    ensures
        r.0 <= text@.len(),
        all_digits(text@.take(r.0 as int)),
        r.0 < text@.len() ==> !is_digit(text@[r.0 as int]),
        r.1 == as_u64(Some(digits_value(text@.take(r.0 as int)))),
{
    let n = text.len();
    let mut i: usize = 0;
    let mut v: Option<u64> = Some(0);
    while i < n && 48 <= text[i] && text[i] <= 57
        invariant
            n == text@.len(),
            0 <= i <= n,
            all_digits(text@.take(i as int)),
            v == as_u64(Some(digits_value(text@.take(i as int)))),
        decreases n - i,
    {
        let d = text[i] - 48;
        proof {
            let s = text@.take(i + 1);
            assert(s.drop_last() =~= text@.take(i as int));
            assert(s.last() == text@[i as int]);
            assert(all_digits(s)) by {
                assert forall|k: int| 0 <= k < s.len() implies is_digit(#[trigger] s[k]) by {
                    if k < i {
                        assert(s[k] == text@.take(i as int)[k]);
                    }
                }
            }
            lemma_digits_nonneg(text@.take(i as int));
        }
        v = match v {
            Some(x) => match x.checked_mul(10) {
                Some(y) => y.checked_add(d as u64),
                None => None,
            },
            None => None,
        };
        i = i + 1;
    }
    (i, v)
}

/// The digits before a point (or the end) are exactly the leading digits.
proof fn lemma_whole_part(s: Seq<u8>, i: int, k: int)
    requires
        0 <= i <= s.len(),
        all_digits(s.take(i)),
        i < s.len() ==> !is_digit(s[i]),
        0 < k <= s.len(),
        all_digits(s.take(k)),
        k == s.len() || s[k] == 46,
    ensures
        k == i,
{
    if k > i {
        assert(s.take(k)[i] == s[i]);
        assert(is_digit(s.take(k)[i]));
    } else if k < i {
        assert(s.take(i)[k] == s[k]);
        assert(is_digit(s.take(i)[k]));
    }
}

/// Parses a decimal with at most two fraction digits into hundredths, as
/// [`hundredths_value`] reads it; `None` when the text is not such a decimal
/// or its value does not fit in 64 bits.
pub fn parse_hundredths(text: &[u8]) -> (r: Option<u64>)
    ensures
        r == as_u64(hundredths_value(text@)),
{
    let ghost s = text@;
    let n = text.len();
    let (i, whole) = leading_digits(text);
    let ghost w = digits_value(s.take(i as int));
    let ghost n_int = n as int;
    proof {
        lemma_digits_nonneg(s.take(i as int));
        // Any reading that succeeds has the leading digits as its whole part.
        if whole_value(s) is Some {
            assert(s.take(n_int) =~= s);
            lemma_whole_part(s, i as int, n_int);
        }
        if n_int >= 2 && s[n_int - 1] == 46 && whole_value(s.take(n_int - 1)) is Some {
            lemma_whole_part(s, i as int, n_int - 1);
        }
        if n_int >= 3 && s[n_int - 2] == 46 && whole_value(s.take(n_int - 2)) is Some {
            lemma_whole_part(s, i as int, n_int - 2);
        }
        if n_int >= 4 && s[n_int - 3] == 46 && whole_value(s.take(n_int - 3)) is Some {
            lemma_whole_part(s, i as int, n_int - 3);
        }
    }
    if i == 0 {
        return None;
    }
    let w64 = match whole {
        Some(x) => x,
        None => {
            proof {
                assert(w > u64::MAX);
                if i == n {
                    assert(s.take(n_int) =~= s);
                }
                assert(hundredths_value(s) matches Some(v) ==> v >= w * 100);
            }
            return None;
        },
    };
    if i == n {
        proof {
            assert(s.take(n_int) =~= s);
        }
        return w64.checked_mul(100);
    }
    if text[i] != 46 {
        return None;
    }
    let frac = n - i - 1;
    if frac == 0 {
        return w64.checked_mul(100);
    }
    if frac == 1 {
        let d = text[i + 1];
        if d < 48 || d > 57 {
            return None;
        }
        return match w64.checked_mul(100) {
            Some(h) => h.checked_add((d as u64 - 48) * 10),
            None => None,
        };
    }
    if frac == 2 {
        let d1 = text[i + 1];
        let d2 = text[i + 2];
        if d1 < 48 || d1 > 57 || d2 < 48 || d2 > 57 {
            return None;
        }
        return match w64.checked_mul(100) {
            Some(h) => match h.checked_add((d1 as u64 - 48) * 10) {
                Some(h1) => h1.checked_add(d2 as u64 - 48),
                None => None,
            },
            None => None,
        };
    }
    None
}

/// Parses a whole number of one or more ASCII digits, as [`whole_value`]
/// reads it; `None` when the text is not one or its value does not fit in
/// 64 bits.
pub fn parse_whole(text: &[u8]) -> (r: Option<u64>)
    ensures
        r == as_u64(whole_value(text@)),
{
    let (i, v) = leading_digits(text);
    if i > 0 && i == text.len() {
        proof {
            assert(text@.take(i as int) =~= text@);
        }
        v
    } else {
        proof {
            if i < text@.len() {
                assert(!is_digit(text@[i as int]));
            }
        }
        None
    }
}

/// The instant that a row's date and time fields give, in seconds since
/// 1970-01-01T00:00:00 read without a time zone, or `None` when they do not
/// read as a date `month/day/year` and a time `hour:minute`.
pub uninterp spec fn bar_time_of(date: Seq<u8>, time: Seq<u8>) -> Option<i64>;

/// Relies on chrono's `NaiveDateTime::parse_from_str` with the format
/// `%m/%d/%Y %H:%M`, applied to the two fields joined by a space, and on
/// `and_utc().timestamp()` for the seconds of what it read.
#[verifier::external_body]
fn parse_bar_time(date: &[u8], time: &[u8]) -> (r: Option<i64>)
    ensures
        r == bar_time_of(date@, time@),
{
    let date = std::str::from_utf8(date).ok()?;
    let time = std::str::from_utf8(time).ok()?;
    let text = format!("{} {}", date, time);
    match chrono::NaiveDateTime::parse_from_str(&text, "%m/%d/%Y %H:%M") {
        Ok(t) => Some(t.and_utc().timestamp()),
        Err(_) => None,
    }
}

/// The views of the fields of a row.
pub open spec fn field_views(fields: Seq<Vec<u8>>) -> Seq<Seq<u8>> {
    fields.map_values(|f: Vec<u8>| f@)
}

/// The bar of a TradeStation row whose date and time read as `date`: open,
/// high, low and close in hundredths at columns 2 to 5 (counting from 0),
/// the volume as a whole number at column 8. `None` when the row is shorter,
/// the date did not read, or a field does not.
pub open spec fn row_bar(date: Option<i64>, fields: Seq<Seq<u8>>) -> Option<Bar> {
    if fields.len() < 9 || date is None {
        None
    } else {
        let open = as_u64(hundredths_value(fields[2]));
        let high = as_u64(hundredths_value(fields[3]));
        let low = as_u64(hundredths_value(fields[4]));
        let close = as_u64(hundredths_value(fields[5]));
        let volume = as_u64(whole_value(fields[8]));
        if open is Some && high is Some && low is Some && close is Some && volume is Some {
            Some(
                Bar {
                    date: date->0,
                    open: open->0,
                    high: high->0,
                    low: low->0,
                    close: close->0,
                    volume: volume->0,
                },
            )
        } else {
            None
        }
    }
}

/// What the date and time fields of a row read as, if the row has them.
pub open spec fn row_time(fields: Seq<Seq<u8>>) -> Option<i64> {
    if fields.len() >= 2 {
        bar_time_of(fields[0], fields[1])
    } else {
        None
    }
}

/// Reads the rows of a TradeStation bar export: date, time, open, high, low,
/// close, two further columns, then the volume. Prices are taken in
/// hundredths of a point.
#[derive(Clone, Copy, Debug)]
pub struct TradeStationCSVRowParser {}

impl TradeStationCSVRowParser {
    pub fn new() -> Self {
        TradeStationCSVRowParser {}
    }

    /// Builds the bar of a row from its fields, given what its date and time
    /// read as.
    pub fn bar_from_fields(&self, date: Option<i64>, fields: &Vec<Vec<u8>>) -> (r: Option<MarketData>)
        ensures
            r == (match row_bar(date, field_views(fields@)) {
                Some(b) => Some(MarketData::Bar(b)),
                None => None,
            }),
    {
        let ghost views = field_views(fields@);
        if fields.len() < 9 {
            return None;
        }
        let t = match date {
            Some(t) => t,
            None => return None,
        };
        assert(views[2] == fields@[2]@ && views[3] == fields@[3]@ && views[4] == fields@[4]@);
        assert(views[5] == fields@[5]@ && views[8] == fields@[8]@);
        let open = parse_hundredths(fields[2].as_slice());
        let high = parse_hundredths(fields[3].as_slice());
        let low = parse_hundredths(fields[4].as_slice());
        let close = parse_hundredths(fields[5].as_slice());
        let volume = parse_whole(fields[8].as_slice());
        match (open, high, low, close, volume) {
            (Some(open), Some(high), Some(low), Some(close), Some(volume)) => Some(
                MarketData::Bar(Bar { date: t, open, high, low, close, volume }),
            ),
            _ => None,
        }
    }

    /// Parses one row of fields into a bar; `None` when the row is malformed.
    pub fn parse_row(&self, fields: &Vec<Vec<u8>>) -> (r: Option<MarketData>)
        ensures
            r == (match row_bar(row_time(field_views(fields@)), field_views(fields@)) {
                Some(b) => Some(MarketData::Bar(b)),
                None => None,
            }),
    {
        let ghost views = field_views(fields@);
        if fields.len() < 2 {
            return None;
        }
        assert(views[0] == fields@[0]@ && views[1] == fields@[1]@);
        let date = parse_bar_time(fields[0].as_slice(), fields[1].as_slice());
        self.bar_from_fields(date, fields)
    }
}

} // verus!
