//! The line parser.
//!
//! A log line has the outer shape `[<timestamp>] <tag> <rest>`.  When the
//! tag is `<chat>` or `<time>`, the rest has the inner shape
//! `[<from> (<payload>)] <trailing>`, where the payload runs to the last
//! `)]` of the line (so nicknames may contain parentheses and punctuation),
//! and for `<time>` the trailing text is a race duration `M:SS.CC`.  When
//! the tag is `Loading`, the whole rest is the track name, verbatim.
//!
//! Every malformed line — wrong outer shape, unknown tag, broken inner
//! shape, unreadable timestamp or duration — parses to `None` and is
//! simply skipped by callers; a single bad line never aborts a run.

use vstd::prelude::*;
use vstd::string::StrSliceExecFns;
use chrono::{Datelike, Timelike};

use crate::event::{Line, LineModel, Timestamp, option_line_view};
use crate::strutil::str_eq;

verus! {

/// Characters admitted inside the `[...]` timestamp field.
pub open spec fn is_ts_char(c: char) -> bool {
    ('0' <= c && c <= '9') || c == ' ' || c == '/' || c == ':'
}

/// A decimal digit.
pub open spec fn is_digit(c: char) -> bool {
    '0' <= c && c <= '9'
}

/// The numeric value of a decimal digit character.
pub open spec fn digit_value(c: char) -> nat {
    (c as int - '0' as int) as nat
}

/// The value of a string of decimal digits, most significant first.
pub open spec fn digits_val(s: Seq<char>) -> nat
    decreases s.len(),
{
    if s.len() == 0 {
        0
    } else {
        10 * digits_val(s.drop_last()) + digit_value(s.last())
    }
}

/// First position at or after `i` that ends the run of timestamp characters.
pub open spec fn ts_run_end(s: Seq<char>, i: int) -> int
    decreases s.len() - i,
{
    if 0 <= i < s.len() && is_ts_char(s[i]) {
        ts_run_end(s, i + 1)
    } else {
        i
    }
}

/// First position at or after `i` that ends the run of non-space characters.
pub open spec fn nonspace_run_end(s: Seq<char>, i: int) -> int
    decreases s.len() - i,
{
    if 0 <= i < s.len() && s[i] != ' ' {
        nonspace_run_end(s, i + 1)
    } else {
        i
    }
}

/// First position at or after `i` that ends the run of decimal digits.
pub open spec fn digit_run_end(s: Seq<char>, i: int) -> int
    decreases s.len() - i,
{
    if 0 <= i < s.len() && is_digit(s[i]) {
        digit_run_end(s, i + 1)
    } else {
        i
    }
}

/// The last position `p` in `lo..=i` with `s[p] == ')'` and `s[p+1] == ']'`,
/// searched from `i` downward.
pub open spec fn last_close_from(s: Seq<char>, lo: int, i: int) -> Option<int>
    decreases i - lo + 1,
{
    if i < lo || lo < 0 {
        None
    } else if s[i] == ')' && s[i + 1] == ']' {
        Some(i)
    } else {
        last_close_from(s, lo, i - 1)
    }
}

/// The three fields of the outer line shape `[<timestamp>] <tag> <rest>`.
pub ghost struct OuterParts {
    pub ts_text: Seq<char>,
    pub tag: Seq<char>,
    pub rest: Seq<char>,
}

/// Splits a line along the outer shape: a `[...]` timestamp of digits,
/// spaces, `/` and `:`, one space, a non-empty whitespace-free tag, one
/// space, and the remainder (which may be empty).
pub open spec fn outer_parse(s: Seq<char>) -> Option<OuterParts> {
    if s.len() == 0 || s[0] != '[' {
        None
    } else {
        let j = ts_run_end(s, 1);
        if !(j + 1 < s.len() && s[j] == ']' && s[j + 1] == ' ') {
            None
        } else {
            let k = nonspace_run_end(s, j + 2);
            if !(k > j + 2 && k < s.len() && s[k] == ' ') {
                None
            } else {
                Some(OuterParts {
                    ts_text: s.subrange(1, j),
                    tag: s.subrange(j + 2, k),
                    rest: s.subrange(k + 1, s.len() as int),
                })
            }
        }
    }
}

/// The three fields of the inner shape `[<from> (<payload>)] <trailing>`.
pub ghost struct InnerParts {
    pub from: Seq<char>,
    pub payload: Seq<char>,
    pub trailing: Seq<char>,
}

/// Splits the rest of a `<chat>` or `<time>` line: a `[`, a non-empty
/// whitespace-free sender, one space, a `(`, then the payload, which runs
/// to the last `)]` of the text (so it may itself hold parentheses,
/// colons and brackets), then at most one space, then the trailing text,
/// which may be empty but is never absent.
pub open spec fn inner_parse(r: Seq<char>) -> Option<InnerParts> {
    if r.len() == 0 || r[0] != '[' {
        None
    } else {
        let k = nonspace_run_end(r, 1);
        if !(k > 1 && k + 1 < r.len() && r[k] == ' ' && r[k + 1] == '(') {
            None
        } else {
            match last_close_from(r, k + 2, r.len() - 2) {
                None => None,
                Some(p) => {
                    let after = p + 2;
                    let trailing = if after < r.len() && r[after] == ' ' {
                        r.subrange(after + 1, r.len() as int)
                    } else {
                        r.subrange(after, r.len() as int)
                    };
                    Some(InnerParts { from: r.subrange(1, k), payload: r.subrange(k + 2, p), trailing })
                },
            }
        }
    }
}

/// Whether `t` has exactly the shape `M:SS.CC`: one or more minute digits,
/// `:`, two second digits, `.`, two hundredth digits, nothing after.
pub open spec fn duration_shape(t: Seq<char>) -> bool {
    let d1 = digit_run_end(t, 0);
    d1 >= 1 && t.len() == d1 + 6 && t[d1] == ':' && is_digit(t[d1 + 1]) && is_digit(t[d1 + 2])
        && t[d1 + 3] == '.' && is_digit(t[d1 + 4]) && is_digit(t[d1 + 5])
}

/// Milliseconds computed from a `M:SS.CC` duration reading.
pub open spec fn duration_millis(minutes: nat, seconds: nat, hundredths: nat) -> nat {
    1000 * (60 * minutes + seconds) + 10 * hundredths
}

/// The milliseconds a duration text denotes: `Some` exactly when the text
/// has the `M:SS.CC` shape and the value fits in a `u64`.
pub open spec fn duration_spec(t: Seq<char>) -> Option<u64> {
    if duration_shape(t) {
        let d1 = digit_run_end(t, 0);
        let ms = duration_millis(
            digits_val(t.subrange(0, d1)),
            digits_val(t.subrange(d1 + 1, d1 + 3)),
            digits_val(t.subrange(d1 + 4, d1 + 6)),
        );
        if ms <= u64::MAX { Some(ms as u64) } else { None }
    } else {
        None
    }
}

/// Names the result of `chrono`'s datetime parsing under the fixed format
/// `%Y/%m/%d %H:%M:%S`: `None` when the text is not a valid date and time
/// in that format, otherwise the calendar and clock fields read from it.
pub uninterp spec fn chrono_datetime_of(s: Seq<char>) -> Option<Timestamp>;

/// Relies on `chrono::NaiveDateTime::parse_from_str` and the field
/// accessors of `chrono::Datelike` and `chrono::Timelike`: whether the
/// text parses under the fixed format `%Y/%m/%d %H:%M:%S`, and the fields
/// read from it, depend on the text alone.
#[verifier::external_body]
fn parse_timestamp(s: &str) -> (r: Option<Timestamp>)
    ensures
        r == chrono_datetime_of(s@),
{
    match chrono::NaiveDateTime::parse_from_str(s, "%Y/%m/%d %H:%M:%S") {
        Ok(dt) => Some(Timestamp {
            year: dt.year(),
            month: dt.month(),
            day: dt.day(),
            hour: dt.hour(),
            minute: dt.minute(),
            second: dt.second(),
        }),
        Err(_) => None,
    }
}

/// The full meaning of one raw line: the typed event it denotes, or
/// `None` when it matches no known format.
pub open spec fn parse_line_spec(s: Seq<char>) -> Option<LineModel> {
    match outer_parse(s) {
        None => None,
        Some(o) => match chrono_datetime_of(o.ts_text) {
            None => None,
            Some(ts) => if o.tag == "<chat>"@ {
                match inner_parse(o.rest) {
                    None => None,
                    Some(i) => Some(LineModel::Chat {
                        ts,
                        from: i.from,
                        to: i.payload,
                        message: i.trailing,
                    }),
                }
            } else if o.tag == "<time>"@ {
                match inner_parse(o.rest) {
                    None => None,
                    Some(i) => match duration_spec(i.trailing) {
                        None => None,
                        Some(ms) => Some(LineModel::Time {
                            ts,
                            from: i.from,
                            nick: i.payload,
                            time: ms,
                        }),
                    },
                }
            } else if o.tag == "Loading"@ {
                Some(LineModel::Loading { ts, track: o.rest })
            } else {
                None
            },
        },
    }
}

fn ts_char(c: char) -> (r: bool)
    ensures
        r == is_ts_char(c),
{
    ('0' <= c && c <= '9') || c == ' ' || c == '/' || c == ':'
}

fn digit(c: char) -> (r: bool)
    ensures
        r == is_digit(c),
{
    '0' <= c && c <= '9'
}

fn scan_ts_run(s: &str, i: usize) -> (j: usize)
    requires
        i <= s@.len(),
    ensures
        j == ts_run_end(s@, i as int),
        i <= j <= s@.len(),
{
    let n = s.unicode_len();
    let mut j = i;
    while j < n && ts_char(s.get_char(j))
        invariant
            i <= j <= n,
            n == s@.len(),
            ts_run_end(s@, i as int) == ts_run_end(s@, j as int),
        decreases n - j,
    {
        j = j + 1;
    }
    j
}

fn scan_nonspace(s: &str, i: usize) -> (j: usize)
    requires
        i <= s@.len(),
    ensures
        j == nonspace_run_end(s@, i as int),
        i <= j <= s@.len(),
{
    let n = s.unicode_len();
    let mut j = i;
    while j < n && s.get_char(j) != ' '
        invariant
            i <= j <= n,
            n == s@.len(),
            nonspace_run_end(s@, i as int) == nonspace_run_end(s@, j as int),
        decreases n - j,
    {
        j = j + 1;
    }
    j
}

fn scan_digits(s: &str, i: usize) -> (j: usize)
    requires
        i <= s@.len(),
    ensures
        j == digit_run_end(s@, i as int),
        i <= j <= s@.len(),
{
    let n = s.unicode_len();
    let mut j = i;
    while j < n && digit(s.get_char(j))
        invariant
            i <= j <= n,
            n == s@.len(),
            digit_run_end(s@, i as int) == digit_run_end(s@, j as int),
        decreases n - j,
    {
        j = j + 1;
    }
    j
}

fn find_last_close(r: &str, lo: usize) -> (res: Option<usize>)
    requires
        r@.len() >= 2,
        lo <= r@.len(),
    ensures
        match res {
            Some(p) => last_close_from(r@, lo as int, r@.len() - 2) == Some(p as int),
            None => last_close_from(r@, lo as int, r@.len() - 2) is None,
        },
{
    let n = r.unicode_len();
    if lo > n - 2 {
        return None;
    }
    let mut j: usize = n - 2;
    loop
        invariant
            n == r@.len(),
            n >= lo + 2,
            lo <= j <= n - 2,
            last_close_from(r@, lo as int, r@.len() - 2) == last_close_from(r@, lo as int, j as int),
        decreases j,
    {
        if r.get_char(j) == ')' && r.get_char(j + 1) == ']' {
            return Some(j);
        }
        if j == lo {
            return None;
        }
        j = j - 1;
    }
}

/// A digit prefix never exceeds the value of the whole digit string.
proof fn lemma_digits_val_prefix(t: Seq<char>, m: int)
    requires
        0 <= m <= t.len(),
    ensures
        digits_val(t) >= digits_val(t.subrange(0, m)),
    decreases t.len() - m,
{
    if m == t.len() {
        assert(t.subrange(0, m) =~= t);
    } else {
        lemma_digits_val_prefix(t, m + 1);
        assert(t.subrange(0, m + 1).drop_last() =~= t.subrange(0, m));
        assert(t.subrange(0, m + 1).last() == t[m]);
    }
}

/// Reads the decimal digits of `s` in `lo..hi` as a number, or `None`
/// when the value does not fit in a `u64`.
fn parse_u64_digits(s: &str, lo: usize, hi: usize) -> (r: Option<u64>)
    requires
        lo <= hi <= s@.len(),
        forall|k: int| lo <= k < hi ==> is_digit(s@[k]),
    ensures
        match r {
            Some(v) => v as nat == digits_val(s@.subrange(lo as int, hi as int)),
            None => digits_val(s@.subrange(lo as int, hi as int)) > u64::MAX,
        },
{
    let mut acc: u64 = 0;
    let mut k = lo;
    proof {
        assert(s@.subrange(lo as int, lo as int) =~= Seq::<char>::empty());
    }
    while k < hi
        invariant
            lo <= k <= hi <= s@.len(),
            forall|q: int| lo <= q < hi ==> is_digit(s@[q]),
            acc as nat == digits_val(s@.subrange(lo as int, k as int)),
        decreases hi - k,
    {
        let c = s.get_char(k);
        assert(is_digit(s@[k as int]));
        let d: u64 = (c as u32 - '0' as u32) as u64;
        proof {
            assert(s@.subrange(lo as int, k as int + 1).drop_last() =~= s@.subrange(
                lo as int,
                k as int,
            ));
            assert(s@.subrange(lo as int, k as int + 1).last() == s@[k as int]);
            assert(d as nat == digit_value(s@[k as int]));
        }
        let step = match acc.checked_mul(10) {
            Some(m) => m.checked_add(d),
            None => None,
        };
        match step {
            Some(v) => {
                acc = v;
            },
            None => {
                proof {
                    assert(digits_val(s@.subrange(lo as int, k as int + 1)) > u64::MAX);
                    lemma_digits_val_prefix(
                        s@.subrange(lo as int, hi as int),
                        k as int + 1 - lo as int,
                    );
                    assert(s@.subrange(lo as int, hi as int).subrange(0, k as int + 1 - lo as int)
                        =~= s@.subrange(lo as int, k as int + 1));
                }
                return None;
            },
        }
        k = k + 1;
    }
    Some(acc)
}

/// Reads a race duration `M:SS.CC` as whole milliseconds,
/// `10*CC + 1000*(60*M + SS)`; yields `None` for any text not exactly of
/// that shape, and for values beyond `u64`.
pub fn parse_duration(s: &str) -> (r: Option<u64>)
    ensures
        r == duration_spec(s@),
{
    let n = s.unicode_len();
    let d1 = scan_digits(s, 0);
    if !(d1 >= 1 && n >= 7 && d1 == n - 6) {
        return None;
    }
    if !(s.get_char(d1) == ':' && digit(s.get_char(d1 + 1)) && digit(s.get_char(d1 + 2))
        && s.get_char(d1 + 3) == '.' && digit(s.get_char(d1 + 4)) && digit(s.get_char(d1 + 5))) {
        return None;
    }
    assert(duration_shape(s@));
    proof {
        lemma_digit_run_all_digits(s@, 0, d1 as int);
    }
    let minutes = match parse_u64_digits(s, 0, d1) {
        Some(v) => v,
        None => {
            proof {
                // the minutes alone exceed u64, so the milliseconds do too
                let d1i = d1 as int;
                let mv = digits_val(s@.subrange(0, d1i));
                let ssv = digits_val(s@.subrange(d1i + 1, d1i + 3));
                let ccv = digits_val(s@.subrange(d1i + 4, d1i + 6));
                assert(duration_millis(mv, ssv, ccv) >= mv) by (nonlinear_arith)
                    requires mv >= 0 && ssv >= 0 && ccv >= 0;
            }
            return None;
        },
    };
    let ss = parse_two_digits(s, d1 + 1);
    let cc = parse_two_digits(s, d1 + 4);
    let ms = match checked_duration_millis(minutes, ss, cc) {
        Some(v) => v,
        None => {
            return None;
        },
    };
    Some(ms)
}

/// All characters of a digit run are digits.
proof fn lemma_digit_run_all_digits(s: Seq<char>, i: int, e: int)
    requires
        0 <= i,
        e == digit_run_end(s, i),
        i <= e,
    ensures
        forall|k: int| i <= k < e ==> is_digit(s[k]),
    decreases e - i,
{
    if i < e {
        assert(is_digit(s[i]));
        lemma_digit_run_all_digits(s, i + 1, e);
    }
}

/// Reads exactly two digit characters at `i` as a number below one hundred.
fn parse_two_digits(s: &str, i: usize) -> (v: u64)
    requires
        i + 2 <= s@.len(),
        s@.len() <= usize::MAX,
        is_digit(s@[i as int]),
        is_digit(s@[i as int + 1]),
    ensures
        v as nat == digits_val(s@.subrange(i as int, i as int + 2)),
        v <= 99,
{
    let c0 = s.get_char(i);
    let c1 = s.get_char(i + 1);
    let v = 10 * ((c0 as u32 - '0' as u32) as u64) + ((c1 as u32 - '0' as u32) as u64);
    proof {
        reveal_with_fuel(digits_val, 3);
        let sub = s@.subrange(i as int, i as int + 2);
        assert(sub.last() == s@[i as int + 1]);
        assert(sub.drop_last() =~= s@.subrange(i as int, i as int + 1));
        assert(sub.drop_last().last() == s@[i as int]);
        assert(sub.drop_last().drop_last() =~= Seq::<char>::empty());
        assert(digits_val(sub) == 10 * digit_value(s@[i as int]) + digit_value(s@[i as int + 1]));
    }
    v
}

/// `10*cc + 1000*(60*minutes + ss)` when it fits in a `u64`.
fn checked_duration_millis(minutes: u64, ss: u64, cc: u64) -> (r: Option<u64>)
    requires
        ss <= 99,
        cc <= 99,
    ensures
        match r {
            Some(v) => v as nat == duration_millis(minutes as nat, ss as nat, cc as nat)
                && duration_millis(minutes as nat, ss as nat, cc as nat) <= u64::MAX,
            None => duration_millis(minutes as nat, ss as nat, cc as nat) > u64::MAX,
        },
{
    let total = match minutes.checked_mul(60) {
        Some(m) => m.checked_add(ss),
        None => None,
    };
    match total {
        Some(t) => match t.checked_mul(1000) {
            Some(m) => m.checked_add(10 * cc),
            None => None,
        },
        None => None,
    }
}

/// Splits the inner shape `[<from> (<payload>)] <trailing>` of a chat or
/// time line into its three fields.
fn parse_inner(r: &str) -> (res: Option<(String, String, String)>)
    ensures
        match (res, inner_parse(r@)) {
            (Some(t), Some(m)) => t.0@ == m.from && t.1@ == m.payload && t.2@ == m.trailing,
            (None, None) => true,
            _ => false,
        },
{
    let n = r.unicode_len();
    if n == 0 || r.get_char(0) != '[' {
        return None;
    }
    let k = scan_nonspace(r, 1);
    if k >= n {
        return None;
    }
    if !(k > 1 && k + 1 < n && r.get_char(k) == ' ' && r.get_char(k + 1) == '(') {
        return None;
    }
    let p = match find_last_close(r, k + 2) {
        Some(p) => p,
        None => {
            return None;
        },
    };
    proof {
        lemma_last_close_bounds(r@, k as int + 2, r@.len() - 2, p as int);
    }
    let from = r.substring_char(1, k).to_owned();
    let payload = r.substring_char(k + 2, p).to_owned();
    let after = p + 2;
    let trailing = if after < n && r.get_char(after) == ' ' {
        r.substring_char(after + 1, n).to_owned()
    } else {
        r.substring_char(after, n).to_owned()
    };
    Some((from, payload, trailing))
}

/// A found close position lies within the searched range.
proof fn lemma_last_close_bounds(s: Seq<char>, lo: int, i: int, p: int)
    requires
        last_close_from(s, lo, i) == Some(p),
    ensures
        lo <= p <= i,
    decreases i - lo + 1,
{
    if !(i < lo || lo < 0) && !(s[i] == ')' && s[i + 1] == ']') {
        lemma_last_close_bounds(s, lo, i - 1, p);
    }
}

/// Parses one raw log line into its typed event, or `None` when the line
/// matches no known format; a malformed line is never an error.
pub fn parse_line(line: String) -> (r: Option<Line>)
    ensures
        option_line_view(r) == parse_line_spec(line@),
{
    let s: &str = line.as_str();
    let n = s.unicode_len();
    if n == 0 || s.get_char(0) != '[' {
        return None;
    }
    let j = scan_ts_run(s, 1);
    if j >= n {
        return None;
    }
    if !(j + 1 < n && s.get_char(j) == ']' && s.get_char(j + 1) == ' ') {
        return None;
    }
    let k = scan_nonspace(s, j + 2);
    if !(k > j + 2 && k < n && s.get_char(k) == ' ') {
        return None;
    }
    let ts_text = s.substring_char(1, j);
    let tag = s.substring_char(j + 2, k);
    let rest = s.substring_char(k + 1, n);
    let ts = match parse_timestamp(ts_text) {
        Some(ts) => ts,
        None => {
            return None;
        },
    };
    if str_eq(tag, "<chat>") {
        match parse_inner(rest) {
            Some((from, to, message)) => Some(Line::Chat { ts, from, to, message }),
            None => None,
        }
    } else if str_eq(tag, "<time>") {
        match parse_inner(rest) {
            Some((from, nick, trailing)) => match parse_duration(trailing.as_str()) {
                Some(ms) => Some(Line::Time { ts, from, nick, time: ms }),
                None => None,
            },
            None => None,
        }
    } else if str_eq(tag, "Loading") {
        Some(Line::Loading { ts, track: rest.to_owned() })
    } else {
        None
    }
}

} // verus!
