//! Temperature reports as the printer writes them, and the proof that the
//! reply parser reads them back.
use vstd::prelude::*;
use crate::marlin::{
    lemma_decimal, lemma_digit_char, lemma_frac_step, lemma_pow10_small,
    lemma_run_to, number_at, space_run_end, temp_token_at,
};
use crate::text::{decimal, digit_char, digits_value, frac_scaled, is_digit, pow10};
use crate::types::{ProbePoint, Temperature};

verus! {

/// The letter a probe is reported under.
pub open spec fn probe_letter(p: ProbePoint) -> Option<char> {
    match p {
        ProbePoint::HOTEND => Some('T'),
        ProbePoint::BED => Some('B'),
        ProbePoint::CHAMBER => Some('C'),
        ProbePoint::PROBE => Some('P'),
        ProbePoint::COOLER => Some('L'),
        ProbePoint::REDUNDANT => Some('R'),
        ProbePoint::UNKNOWN => None,
    }
}

/// The prefix a heater's duty is reported under; only the hot end, the bed
/// and the chamber report one.
pub open spec fn duty_prefix(p: ProbePoint) -> Option<Seq<char>> {
    match p {
        ProbePoint::HOTEND => Some(seq!['@']),
        ProbePoint::BED => Some(seq!['B', '@']),
        ProbePoint::CHAMBER => Some(seq!['C', '@']),
        _ => None,
    }
}

/// A sensor index: none for index 0, else its digit.
pub open spec fn index_text(i: u32) -> Seq<char> {
    if i == 0 {
        Seq::empty()
    } else {
        seq![digit_char(i as int)]
    }
}

pub open spec fn three_digits(f: int) -> Seq<char> {
    seq![digit_char(f / 100), digit_char((f / 10) % 10), digit_char(f % 10)]
}

/// A value in thousandths, with three decimals.
pub open spec fn milli_text(v: u64) -> Seq<char> {
    decimal((v / 1000) as nat) + seq!['.'] + three_digits((v % 1000) as int)
}

/// One reading: `<letter><index>:<current> /<target>`.
pub open spec fn reading_text(t: Temperature) -> Seq<char> {
    seq![probe_letter(t.measured_from).unwrap()] + index_text(t.index) + seq![':'] + milli_text(
        t.current,
    ) + seq![' ', '/'] + milli_text(t.target)
}

/// The readings from the `k`-th on, each after a space.
pub open spec fn readings_from(ts: Seq<Temperature>, k: int) -> Seq<char>
    decreases ts.len() - k,
{
    if k < 0 || k >= ts.len() {
        Seq::empty()
    } else {
        seq![' '] + reading_text(ts[k]) + readings_from(ts, k + 1)
    }
}

/// One duty: `<prefix><index>:<duty>`.
pub open spec fn duty_text(t: Temperature) -> Seq<char> {
    duty_prefix(t.measured_from).unwrap() + index_text(t.index) + seq![':'] + decimal(
        t.power as nat,
    )
}

/// The duties of the heaters from the `k`-th reading on, each after a space.
pub open spec fn duties_from(ts: Seq<Temperature>, k: int) -> Seq<char>
    decreases ts.len() - k,
{
    if k < 0 || k >= ts.len() {
        Seq::empty()
    } else {
        (if duty_prefix(ts[k].measured_from) is Some {
            seq![' '] + duty_text(ts[k])
        } else {
            Seq::empty()
        }) + duties_from(ts, k + 1)
    }
}

pub open spec fn residency_text(w: Option<u32>) -> Seq<char> {
    seq![' ', 'W', ':'] + match w {
        None => seq!['?'],
        Some(n) => decimal(n as nat),
    }
}

/// A temperature report: the readings, the heaters' duties, the residency.
pub open spec fn temperature_report_text(ts: Seq<Temperature>, w: Option<u32>) -> Seq<char> {
    reading_text(ts[0]) + readings_from(ts, 1) + duties_from(ts, 0) + residency_text(w)
}

/// A reading the report can carry.
pub open spec fn reportable_reading(t: Temperature) -> bool {
    &&& probe_letter(t.measured_from) is Some
    &&& t.index <= 9
    &&& t.current < 1000000000000
    &&& t.target < 1000000000000
    &&& t.power <= 127
    &&& duty_prefix(t.measured_from) is None ==> t.power == 0
}

/// Readings a report can carry: the first is the hot end's, each can be
/// reported, and no two share a probe and an index.
pub open spec fn reportable_readings(ts: Seq<Temperature>) -> bool {
    &&& ts.len() >= 1
    &&& ts[0].measured_from == ProbePoint::HOTEND
    &&& ts[0].index == 0
    &&& forall|i: int| 0 <= i < ts.len() ==> reportable_reading(#[trigger] ts[i])
    &&& forall|i: int, j: int|
        0 <= i < j < ts.len() ==> !((#[trigger] ts[i]).measured_from == (#[trigger] ts[j]).measured_from
            && ts[i].index == ts[j].index)
}

pub open spec fn unpowered(t: Temperature) -> Temperature {
    Temperature { power: 0, ..t }
}

proof fn lemma_three_digits(f: int)
    requires
        0 <= f < 1000,
    ensures
        frac_scaled(three_digits(f), 3) == f,
        forall|i: int| 0 <= i < 3 ==> is_digit(#[trigger] three_digits(f)[i]),
{
    let d0 = f / 100;
    let d1 = (f / 10) % 10;
    let d2 = f % 10;
    lemma_digit_char(d0);
    lemma_digit_char(d1);
    lemma_digit_char(d2);
    let c0 = digit_char(d0);
    let c1 = digit_char(d1);
    let c2 = digit_char(d2);
    let s0 = Seq::<char>::empty();
    let s1 = seq![c2] + s0;
    let s2 = seq![c1] + s1;
    let s3 = seq![c0] + s2;
    assert(s3 =~= three_digits(f));
    lemma_pow10_small();
    assert(frac_scaled(s0, 0) == 0);
    lemma_frac_step(s0, c2, 0);
    lemma_frac_step(s1, c1, 1);
    lemma_frac_step(s2, c0, 2);
    assert(d0 * 100 + d1 * 10 + d2 == f) by (nonlinear_arith)
        requires d0 == f / 100, d1 == (f / 10) % 10, d2 == f % 10, 0 <= f < 1000;
    assert forall|i: int| 0 <= i < 3 implies is_digit(#[trigger] three_digits(f)[i]) by {
        if i == 0 {
        } else if i == 1 {
        } else {
        }
    }
}

/// A value with three decimals at `p`, followed by a non-digit or the end,
/// reads back as its value.
#[verifier::rlimit(50)]
proof fn lemma_milli_number(s: Seq<char>, p: int, a: u64)
    requires
        a < 1000000000000,
        0 <= p,
        p + milli_text(a).len() <= s.len(),
        s.subrange(p, p + milli_text(a).len()) == milli_text(a),
        p + milli_text(a).len() == s.len() || !is_digit(s[p + milli_text(a).len()]),
    ensures
        number_at(s, p, 3) == Some((a as int, p + milli_text(a).len())),
{
    let w: nat = (a / 1000) as nat;
    let f: int = (a % 1000) as int;
    let d = decimal(w);
    let fr = three_digits(f);
    let u = milli_text(a);
    lemma_decimal(w);
    lemma_three_digits(f);
    let e1 = p + d.len();
    let e2 = e1 + 4;
    assert(u.len() == d.len() + 4);
    assert forall|k: int| p <= k < e1 implies is_digit(#[trigger] s[k]) by {
        assert(s[k] == u[k - p]);
        assert(u[k - p] == d[k - p]);
    }
    assert(s[e1] == u[d.len() as int]);
    assert(s[e1] == '.');
    lemma_run_to(s, p, e1);
    assert forall|k: int| e1 + 1 <= k < e2 implies is_digit(#[trigger] s[k]) by {
        assert(s[k] == u[k - p]);
        assert(u[k - p] == fr[k - e1 - 1]);
    }
    lemma_run_to(s, e1 + 1, e2);
    assert(s.subrange(p, e1) =~= d) by {
        assert forall|k: int| 0 <= k < d.len() implies s.subrange(p, e1)[k] == d[k] by {
            assert(s[p + k] == u[k]);
        }
    }
    assert(s.subrange(e1 + 1, e2) =~= fr) by {
        assert forall|k: int| 0 <= k < 3 implies s.subrange(e1 + 1, e2)[k] == fr[k] by {
            assert(s[e1 + 1 + k] == u[d.len() + 1 + k]);
        }
    }
    lemma_pow10_small();
    assert(w * 1000 + f == a);
}


/// A reading written at `l.len()`, followed by nothing or a space, reads back
/// (without its duty, which is reported apart).
#[verifier::rlimit(80)]
proof fn lemma_reading_token(l: Seq<char>, t: Temperature, r: Seq<char>)
    requires
        reportable_reading(t),
        r.len() == 0 || r[0] == ' ',
    ensures
        temp_token_at(l + reading_text(t) + r, l.len() as int) == Some(
            (unpowered(t), (l + reading_text(t)).len() as int),
        ),
{
    let rt = reading_text(t);
    let s = l + rt + r;
    let i = l.len() as int;
    let it = index_text(t.index);
    let m1 = milli_text(t.current);
    let m2 = milli_text(t.target);
    let letter = probe_letter(t.measured_from).unwrap();
    assert(rt =~= seq![letter] + it + seq![':'] + m1 + seq![' ', '/'] + m2);
    let c = i + 1 + it.len();
    let e = c + 1 + m1.len();
    let end = e + 2 + m2.len();
    assert(end == i + rt.len());
    assert forall|k: int| i <= k < end implies s[k] == rt[k - i] by {}
    assert(s[i] == letter);
    assert(crate::marlin::probe_of(letter) == Some(t.measured_from));
    lemma_decimal((t.current / 1000) as nat);
    if t.index == 0 {
        assert(s[i + 1] == ':');
    } else {
        lemma_digit_char(t.index as int);
        assert(s[i + 1] == digit_char(t.index as int));
        assert(s[i + 2] == ':');
    }
    assert(s[c] == ':');
    // The current value.
    assert(s.subrange(c + 1, e) =~= m1) by {
        assert forall|k: int| 0 <= k < m1.len() implies s.subrange(c + 1, e)[k] == m1[k] by {
            assert(s[c + 1 + k] == rt[c + 1 + k - i]);
        }
    }
    assert(s[e] == ' ');
    lemma_milli_number(s, c + 1, t.current);
    // The separator.
    assert(s[e + 1] == '/');
    assert(space_run_end(s, e + 1) == e + 1);
    assert(space_run_end(s, e) == e + 1);
    // The target value.
    assert(s.subrange(e + 2, end) =~= m2) by {
        assert forall|k: int| 0 <= k < m2.len() implies s.subrange(e + 2, end)[k] == m2[k] by {
            assert(s[e + 2 + k] == rt[e + 2 + k - i]);
        }
    }
    if end < s.len() {
        assert(s[end] == r[0]);
    }
    lemma_milli_number(s, e + 2, t.target);
}


/// Every character of `t` satisfies `f`.
pub open spec fn all_chars(t: Seq<char>, f: spec_fn(char) -> bool) -> bool {
    forall|i: int| 0 <= i < t.len() ==> f(#[trigger] t[i])
}

proof fn lemma_all_concat(a: Seq<char>, b: Seq<char>, f: spec_fn(char) -> bool)
    requires
        all_chars(a, f),
        all_chars(b, f),
    ensures
        all_chars(a + b, f),
{
    assert forall|i: int| 0 <= i < (a + b).len() implies f(#[trigger] (a + b)[i]) by {
        if i < a.len() {
            assert((a + b)[i] == a[i]);
        } else {
            assert((a + b)[i] == b[i - a.len()]);
        }
    }
}

/// Characters of readings: probe letters, digits and punctuation.
pub open spec fn reading_char(c: char) -> bool {
    c == 'T' || c == 'B' || c == 'C' || c == 'P' || c == 'L' || c == 'R' || is_digit(c) || c == ':'
        || c == '.' || c == ' ' || c == '/'
}

/// Characters of duties and the residency.
pub open spec fn duty_char(c: char) -> bool {
    c == '@' || c == 'B' || c == 'C' || is_digit(c) || c == ':' || c == ' ' || c == 'W' || c == '?'
}

/// No duty token starts in `t`: no `@`, and a `B` or `C` is followed by
/// something other than `@`.
pub open spec fn no_duty_text(t: Seq<char>) -> bool {
    forall|i: int|
        0 <= i < t.len() ==> (#[trigger] t[i]) != '@' && ((t[i] == 'B' || t[i] == 'C') ==> i + 1
            < t.len() && t[i + 1] != '@')
}

/// No reading token starts in `t`: a probe letter is followed by `@`.
pub open spec fn quiet_text(t: Seq<char>) -> bool {
    forall|i: int|
        0 <= i < t.len() ==> crate::marlin::probe_of(#[trigger] t[i]) is None || (i + 1 < t.len()
            && t[i + 1] == '@')
}

proof fn lemma_no_duty_concat(a: Seq<char>, b: Seq<char>)
    requires
        no_duty_text(a),
        no_duty_text(b),
    ensures
        no_duty_text(a + b),
{
    assert forall|i: int| 0 <= i < (a + b).len() implies (#[trigger] (a + b)[i]) != '@' && (((a
        + b)[i] == 'B' || (a + b)[i] == 'C') ==> i + 1 < (a + b).len() && (a + b)[i + 1] != '@') by {
        if i < a.len() {
            assert((a + b)[i] == a[i]);
            if a[i] == 'B' || a[i] == 'C' {
                assert((a + b)[i + 1] == a[i + 1]);
            }
        } else {
            assert((a + b)[i] == b[i - a.len()]);
            if b[i - a.len()] == 'B' || b[i - a.len()] == 'C' {
                assert((a + b)[i + 1] == b[i + 1 - a.len()]);
            }
        }
    }
}

proof fn lemma_quiet_concat(a: Seq<char>, b: Seq<char>)
    requires
        quiet_text(a),
        quiet_text(b),
    ensures
        quiet_text(a + b),
{
    assert forall|i: int| 0 <= i < (a + b).len() implies crate::marlin::probe_of(
        #[trigger] (a + b)[i],
    ) is None || (i + 1 < (a + b).len() && (a + b)[i + 1] == '@') by {
        if i < a.len() {
            assert((a + b)[i] == a[i]);
            if crate::marlin::probe_of(a[i]) is Some {
                assert((a + b)[i + 1] == a[i + 1]);
            }
        } else {
            assert((a + b)[i] == b[i - a.len()]);
            if crate::marlin::probe_of(b[i - a.len()]) is Some {
                assert((a + b)[i + 1] == b[i + 1 - a.len()]);
            }
        }
    }
}

proof fn lemma_milli_chars(v: u64)
    ensures
        all_chars(milli_text(v), |c: char| is_digit(c) || c == '.'),
        no_duty_text(milli_text(v)),
{
    lemma_decimal((v / 1000) as nat);
    lemma_three_digits((v % 1000) as int);
    let d = decimal((v / 1000) as nat);
    let f = three_digits((v % 1000) as int);
    assert forall|i: int| 0 <= i < milli_text(v).len() implies (|c: char| is_digit(c) || c == '.')(
        #[trigger] milli_text(v)[i],
    ) by {
        if i < d.len() {
            assert(milli_text(v)[i] == d[i]);
        } else if i == d.len() {
        } else {
            assert(milli_text(v)[i] == f[i - d.len() - 1]);
        }
    }
}

proof fn lemma_reading_chars(t: Temperature)
    requires
        reportable_reading(t),
    ensures
        all_chars(reading_text(t), |c: char| reading_char(c)),
        no_duty_text(reading_text(t)),
        reading_text(t).len() > 0,
        is_digit(reading_text(t).last()),
{
    let it = index_text(t.index);
    let m1 = milli_text(t.current);
    let m2 = milli_text(t.target);
    let letter = probe_letter(t.measured_from).unwrap();
    let rt = reading_text(t);
    assert(rt =~= seq![letter] + it + seq![':'] + m1 + seq![' ', '/'] + m2);
    lemma_milli_chars(t.current);
    lemma_milli_chars(t.target);
    lemma_digit_char(t.index as int);
    lemma_three_digits((t.target % 1000) as int);
    assert(m2.last() == three_digits((t.target % 1000) as int)[2]);
    assert forall|i: int| 0 <= i < rt.len() implies reading_char(#[trigger] rt[i]) && rt[i] != '@'
        && ((rt[i] == 'B' || rt[i] == 'C') ==> i + 1 < rt.len() && rt[i + 1] != '@') by {
        let a = 1 + it.len();
        let b = a + 1 + m1.len();
        if i == 0 {
            assert(rt[1] == (if t.index == 0 { ':' } else { it[0] }));
        } else if i < a {
            assert(rt[i] == it[i - 1]);
        } else if i == a {
        } else if i < b {
            assert(rt[i] == m1[i - a - 1]);
        } else if i == b {
        } else if i == b + 1 {
        } else {
            assert(rt[i] == m2[i - b - 2]);
        }
    }
}


proof fn lemma_duty_chars(t: Temperature)
    requires
        reportable_reading(t),
        duty_prefix(t.measured_from) is Some,
    ensures
        all_chars(duty_text(t), |c: char| duty_char(c)),
        all_chars(duty_text(t), |c: char| c != 'W'),
        quiet_text(duty_text(t)),
        is_digit(duty_text(t).last()),
{
    let pre = duty_prefix(t.measured_from).unwrap();
    let it = index_text(t.index);
    let d = decimal(t.power as nat);
    let dt = duty_text(t);
    assert(dt =~= pre + it + seq![':'] + d);
    lemma_decimal(t.power as nat);
    lemma_digit_char(t.index as int);
    assert(dt.last() == d.last());
    assert forall|i: int| 0 <= i < dt.len() implies duty_char(#[trigger] dt[i]) && dt[i] != 'W' && (
    crate::marlin::probe_of(dt[i]) is None || (i + 1 < dt.len() && dt[i + 1] == '@')) by {
        let a = pre.len() + it.len();
        if i < pre.len() {
            assert(dt[i] == pre[i]);
            if pre.len() == 2 && i == 0 {
                assert(dt[1] == pre[1]);
            }
        } else if i < a {
            assert(dt[i] == it[i - pre.len()]);
        } else if i == a {
        } else {
            assert(dt[i] == d[i - a - 1]);
        }
    }
}

proof fn lemma_residency_chars(w: Option<u32>)
    ensures
        all_chars(residency_text(w), |c: char| duty_char(c)),
        quiet_text(residency_text(w)),
        no_duty_text(residency_text(w)),
        !crate::text::is_ws(residency_text(w).last()),
{
    let rt = residency_text(w);
    let tail = match w {
        None => seq!['?'],
        Some(n) => decimal(n as nat),
    };
    assert(rt =~= seq![' ', 'W', ':'] + tail);
    match w {
        Some(n) => lemma_decimal(n as nat),
        None => {},
    }
    assert(rt.last() == tail.last());
    assert forall|i: int| 0 <= i < rt.len() implies duty_char(#[trigger] rt[i])
        && crate::marlin::probe_of(rt[i]) is None && rt[i] != '@' && rt[i] != 'B' && rt[i] != 'C' by {
        if i >= 3 {
            assert(rt[i] == tail[i - 3]);
        }
    }
}

proof fn lemma_duties_chars(ts: Seq<Temperature>, k: int)
    requires
        forall|i: int| 0 <= i < ts.len() ==> reportable_reading(#[trigger] ts[i]),
        0 <= k,
    ensures
        all_chars(duties_from(ts, k), |c: char| duty_char(c)),
        all_chars(duties_from(ts, k), |c: char| c != 'W'),
        quiet_text(duties_from(ts, k)),
        duties_from(ts, k).len() > 0 ==> duties_from(ts, k)[0] == ' ',
    decreases ts.len() - k,
{
    if k < ts.len() {
        lemma_duties_chars(ts, k + 1);
        let rest = duties_from(ts, k + 1);
        if duty_prefix(ts[k].measured_from) is Some {
            lemma_duty_chars(ts[k]);
            let sp = seq![' '];
            assert(all_chars(sp, |c: char| duty_char(c)));
            assert(quiet_text(sp));
            assert(all_chars(sp, |c: char| c != 'W'));
            lemma_all_concat(sp, duty_text(ts[k]), |c: char| duty_char(c));
            lemma_all_concat(sp, duty_text(ts[k]), |c: char| c != 'W');
            lemma_quiet_concat(sp, duty_text(ts[k]));
            lemma_all_concat(sp + duty_text(ts[k]), rest, |c: char| duty_char(c));
            lemma_all_concat(sp + duty_text(ts[k]), rest, |c: char| c != 'W');
            lemma_quiet_concat(sp + duty_text(ts[k]), rest);
            assert(duties_from(ts, k) == sp + duty_text(ts[k]) + rest);
            assert((sp + duty_text(ts[k]) + rest)[0] == ' ');
        } else {
            assert(duties_from(ts, k) =~= Seq::<char>::empty() + rest);
        }
    }
}

proof fn lemma_readings_chars(ts: Seq<Temperature>, k: int)
    requires
        forall|i: int| 0 <= i < ts.len() ==> reportable_reading(#[trigger] ts[i]),
        0 <= k,
    ensures
        all_chars(readings_from(ts, k), |c: char| reading_char(c)),
        no_duty_text(readings_from(ts, k)),
    decreases ts.len() - k,
{
    if k < ts.len() {
        lemma_readings_chars(ts, k + 1);
        lemma_reading_chars(ts[k]);
        let sp = seq![' '];
        assert(all_chars(sp, |c: char| reading_char(c)));
        assert(no_duty_text(sp));
        lemma_all_concat(sp, reading_text(ts[k]), |c: char| reading_char(c));
        lemma_no_duty_concat(sp, reading_text(ts[k]));
        lemma_all_concat(sp + reading_text(ts[k]), readings_from(ts, k + 1), |c: char| reading_char(c));
        lemma_no_duty_concat(sp + reading_text(ts[k]), readings_from(ts, k + 1));
    }
}

/// A duty written at `l.len()`, followed by nothing or a space, reads back as
/// its heater, index and duty.
#[verifier::rlimit(80)]
proof fn lemma_duty_token(l: Seq<char>, t: Temperature, r: Seq<char>)
    requires
        reportable_reading(t),
        duty_prefix(t.measured_from) is Some,
        r.len() == 0 || r[0] == ' ',
    ensures
        crate::marlin::duty_token_at(l + duty_text(t) + r, l.len() as int) == Some(
            (t.measured_from, t.index as int, t.power as int, (l + duty_text(t)).len() as int),
        ),
{
    let dt = duty_text(t);
    let s = l + dt + r;
    let i = l.len() as int;
    let pre = duty_prefix(t.measured_from).unwrap();
    let it = index_text(t.index);
    let d = decimal(t.power as nat);
    assert(dt =~= pre + it + seq![':'] + d);
    let k = i + pre.len();
    let c = k + it.len();
    let end = c + 1 + d.len();
    assert(end == i + dt.len());
    assert forall|m: int| i <= m < end implies s[m] == dt[m - i] by {}
    lemma_decimal(t.power as nat);
    lemma_digit_char(t.index as int);
    if pre.len() == 2 {
        assert(s[i] == pre[0]);
        assert(s[i + 1] == '@');
    } else {
        assert(s[i] == '@');
    }
    if t.index == 0 {
        assert(s[k] == ':');
    } else {
        assert(s[k] == digit_char(t.index as int));
        assert(s[k + 1] == ':');
    }
    assert(s[c] == ':');
    assert forall|m: int| c + 1 <= m < end implies is_digit(#[trigger] s[m]) by {
        assert(s[m] == d[m - c - 1]);
    }
    if end < s.len() {
        assert(s[end] == r[0]);
    }
    lemma_run_to(s, c + 1, end);
    assert(s.subrange(c + 1, end) =~= d);
}


pub open spec fn unpowered_all(ts: Seq<Temperature>) -> Seq<Temperature> {
    ts.map_values(|t: Temperature| unpowered(t))
}

/// The readings with the duties of the first `k` applied.
pub open spec fn with_powers(ts: Seq<Temperature>, k: int) -> Seq<Temperature> {
    Seq::new(ts.len(), |j: int| if j < k { ts[j] } else { unpowered(ts[j]) })
}

proof fn lemma_temps_quiet(s: Seq<char>, j: int)
    requires
        0 <= j <= s.len(),
        forall|i: int|
            j <= i < s.len() ==> crate::marlin::probe_of(#[trigger] s[i]) is None || (i + 1 < s.len()
                && s[i + 1] == '@'),
    ensures
        crate::marlin::temps_from(s, j) == Seq::<Temperature>::empty(),
    decreases s.len() - j,
{
    if j < s.len() {
        assert(temp_token_at(s, j) is None) by {
            if crate::marlin::probe_of(s[j]) is Some {
                assert(s[j + 1] == '@');
            }
        }
        lemma_temps_quiet(s, j + 1);
    }
}

/// Scanning over a space and one reading yields that reading.
#[verifier::rlimit(80)]
proof fn lemma_reading_step(l: Seq<char>, t: Temperature, r: Seq<char>)
    requires
        reportable_reading(t),
        r.len() == 0 || r[0] == ' ',
    ensures
        crate::marlin::temps_from(l + seq![' '] + reading_text(t) + r, l.len() as int) == seq![
            unpowered(t),
        ] + crate::marlin::temps_from(
            l + seq![' '] + reading_text(t) + r,
            (l + seq![' '] + reading_text(t)).len() as int,
        ),
{
    let l1 = l + seq![' '];
    let rt = reading_text(t);
    let s = l1 + rt + r;
    let i = l.len() as int;
    assert(s[i] == ' ');
    assert(temp_token_at(s, i) is None);
    lemma_reading_token(l1, t, r);
    assert(crate::marlin::temps_from(s, i) == crate::marlin::temps_from(s, i + 1));
}

/// Scanning the readings from the `k`-th on yields them, without duties.
#[verifier::rlimit(100)]
proof fn lemma_scan_readings(l: Seq<char>, ts: Seq<Temperature>, k: int, tail: Seq<char>)
    requires
        forall|i: int| 0 <= i < ts.len() ==> reportable_reading(#[trigger] ts[i]),
        1 <= k <= ts.len(),
        tail.len() == 0 || tail[0] == ' ',
    ensures
        crate::marlin::temps_from(l + readings_from(ts, k) + tail, l.len() as int) == unpowered_all(
            ts.subrange(k, ts.len() as int),
        ) + crate::marlin::temps_from(
            l + readings_from(ts, k) + tail,
            (l + readings_from(ts, k)).len() as int,
        ),
    decreases ts.len() - k,
{
    let s = l + readings_from(ts, k) + tail;
    if k == ts.len() {
        assert(unpowered_all(ts.subrange(k, ts.len() as int)) =~= Seq::<Temperature>::empty());
        assert((l + readings_from(ts, k)).len() == l.len());
    } else {
        let t = ts[k];
        let rt = reading_text(t);
        let rest = readings_from(ts, k + 1);
        let r1 = rest + tail;
        assert(readings_from(ts, k) == seq![' '] + rt + rest);
        assert(s == l + seq![' '] + rt + r1) by {
            assert(s =~= l + seq![' '] + rt + r1);
        }
        if k + 1 < ts.len() {
            assert(rest[0] == ' ');
            assert(r1[0] == ' ');
        } else {
            assert(r1 =~= tail);
        }
        lemma_reading_step(l, t, r1);
        let l2 = l + seq![' '] + rt;
        assert(s == l2 + rest + tail) by {
            assert(s =~= l2 + rest + tail);
        }
        lemma_scan_readings(l2, ts, k + 1, tail);
        assert((l2 + rest).len() == (l + readings_from(ts, k)).len());
        assert(unpowered_all(ts.subrange(k, ts.len() as int)) =~= seq![unpowered(ts[k])]
            + unpowered_all(ts.subrange(k + 1, ts.len() as int)));
    }
}

proof fn lemma_first_reading(t: Seq<Temperature>, p: ProbePoint, d: int, j: int, k: int)
    requires
        0 <= j <= k < t.len(),
        t[k].measured_from == p && t[k].index as int == d,
        forall|m: int| j <= m < k ==> !((#[trigger] t[m]).measured_from == p && t[m].index as int == d),
    ensures
        crate::marlin::first_reading(t, p, d, j) == k,
    decreases k - j,
{
    if j < k {
        lemma_first_reading(t, p, d, j + 1, k);
    }
}

/// With no duty token between `j` and `m`, applying duties skips over them.
proof fn lemma_duties_skip(t: Seq<Temperature>, s: Seq<char>, j: int, m: int)
    requires
        0 <= j <= m <= s.len(),
        forall|i: int| j <= i < m ==> crate::marlin::duty_token_at(s, i) is None,
    ensures
        crate::marlin::apply_duties(t, s, j) == crate::marlin::apply_duties(t, s, m),
    decreases m - j,
{
    if j < m {
        assert(crate::marlin::duty_token_at(s, j) is None);
        lemma_duties_skip(t, s, j + 1, m);
    }
}

/// No duty token starts inside a text without one, placed at `a.len()`.
proof fn lemma_no_duty_in(a: Seq<char>, x: Seq<char>, b: Seq<char>)
    requires
        no_duty_text(x),
    ensures
        forall|i: int|
            a.len() <= i < a.len() + x.len() ==> crate::marlin::duty_token_at(
                #[trigger] (a + x + b).subrange(0, (a + x + b).len() as int),
                i,
            ) is None,
{
    let s = a + x + b;
    assert(s.subrange(0, s.len() as int) =~= s);
    assert forall|i: int| a.len() <= i < a.len() + x.len() implies crate::marlin::duty_token_at(
        #[trigger] s.subrange(0, s.len() as int),
        i,
    ) is None by {
        assert(s[i] == x[i - a.len()]);
        if s[i] == 'B' || s[i] == 'C' {
            assert(s[i + 1] == x[i + 1 - a.len()]);
        }
    }
}


/// Scanning over a space and one duty sets that heater's duty.
#[verifier::rlimit(80)]
proof fn lemma_duty_step(h: Seq<char>, t: Temperature, r: Seq<char>, cur: Seq<Temperature>)
    requires
        reportable_reading(t),
        duty_prefix(t.measured_from) is Some,
        r.len() == 0 || r[0] == ' ',
    ensures
        crate::marlin::apply_duties(cur, h + seq![' '] + duty_text(t) + r, h.len() as int)
            == crate::marlin::apply_duties(
            crate::marlin::set_power(cur, t.measured_from, t.index as int, t.power as int),
            h + seq![' '] + duty_text(t) + r,
            (h + seq![' '] + duty_text(t)).len() as int,
        ),
{
    let h1 = h + seq![' '];
    let s = h1 + duty_text(t) + r;
    let i = h.len() as int;
    assert(s[i] == ' ');
    assert(crate::marlin::duty_token_at(s, i) is None);
    lemma_duty_token(h1, t, r);
    assert(crate::marlin::apply_duties(cur, s, i) == crate::marlin::apply_duties(cur, s, i + 1));
}

/// Scanning the duties from the `k`-th reading on applies each to its reading.
proof fn lemma_scan_duties(h: Seq<char>, ts: Seq<Temperature>, k: int, w: Option<u32>)
    requires
        reportable_readings(ts),
        0 <= k <= ts.len(),
    ensures
        crate::marlin::apply_duties(
            with_powers(ts, k),
            h + duties_from(ts, k) + residency_text(w),
            h.len() as int,
        ) == crate::marlin::apply_duties(
            with_powers(ts, ts.len() as int),
            h + duties_from(ts, k) + residency_text(w),
            (h + duties_from(ts, k)).len() as int,
        ),
    decreases ts.len() - k,
{
    let res = residency_text(w);
    let s = h + duties_from(ts, k) + res;
    if k < ts.len() {
        let t = ts[k];
        assert(reportable_reading(t));
        let rest = duties_from(ts, k + 1);
        lemma_duties_chars(ts, k + 1);
        if duty_prefix(t.measured_from) is Some {
            let dt = duty_text(t);
            let r = rest + res;
            assert(duties_from(ts, k) == seq![' '] + dt + rest);
            assert(s == h + seq![' '] + dt + r) by {
                assert(s =~= h + seq![' '] + dt + r);
            }
            assert(r[0] == ' ');
            lemma_duty_step(h, t, r, with_powers(ts, k));
            let cur = with_powers(ts, k);
            assert forall|m: int| 0 <= m < k implies !((#[trigger] cur[m]).measured_from
                == t.measured_from && cur[m].index as int == t.index as int) by {
                assert(cur[m] == ts[m]);
            }
            lemma_first_reading(cur, t.measured_from, t.index as int, 0, k);
            assert(crate::marlin::set_power(cur, t.measured_from, t.index as int, t.power as int)
                =~= with_powers(ts, k + 1));
            let h2 = h + seq![' '] + dt;
            assert(s == h2 + rest + res) by {
                assert(s =~= h2 + rest + res);
            }
            lemma_scan_duties(h2, ts, k + 1, w);
            assert((h2 + rest).len() == (h + duties_from(ts, k)).len());
        } else {
            assert(duties_from(ts, k) =~= rest);
            assert(with_powers(ts, k) =~= with_powers(ts, k + 1));
            lemma_scan_duties(h, ts, k + 1, w);
        }
    }
}

/// The residency at the end of a report is read back.
proof fn lemma_residency_back(a: Seq<char>, w: Option<u32>)
    requires
        all_chars(a, |c: char| c != 'W'),
    ensures
        crate::marlin::residency_from(a + residency_text(w), 0) == w,
{
    let res = residency_text(w);
    let s = a + res;
    let m = a.len() as int + 1;
    let tail = match w {
        None => seq!['?'],
        Some(n) => decimal(n as nat),
    };
    assert(res =~= seq![' ', 'W', ':'] + tail);
    match w {
        Some(n) => lemma_decimal(n as nat),
        None => {},
    }
    assert(s.len() >= m + 3);
    lemma_residency_skip(s, 0, m);
    assert(s[m] == 'W');
    assert(s[m + 1] == ':');
    assert(s[m + 2] == tail[0]);
    match w {
        None => {},
        Some(n) => {
            assert forall|k: int| m + 2 <= k < s.len() implies is_digit(#[trigger] s[k]) by {
                assert(s[k] == tail[k - m - 2]);
            }
            lemma_run_to(s, m + 2, s.len() as int);
            assert(s.subrange(m + 2, s.len() as int) =~= tail);
        },
    }
}

proof fn lemma_residency_skip(s: Seq<char>, j: int, m: int)
    requires
        0 <= j <= m,
        m + 2 < s.len(),
        forall|i: int| j <= i < m ==> (#[trigger] s[i]) != 'W',
    ensures
        crate::marlin::residency_from(s, j) == crate::marlin::residency_from(s, m),
    decreases m - j,
{
    if j < m {
        lemma_residency_skip(s, j + 1, m);
    }
}


/// A temperature report is recognised as one.
proof fn lemma_temperature_recognised(s: Seq<char>)
    requires
        s.len() >= 2,
        s[0] == 'T',
        s[1] == ':',
        !crate::text::is_ws(s.last()),
        all_chars(s, |c: char| c != 'b'),
    ensures
        crate::marlin::trim(s) == s,
        !crate::job::has_prefix(s, crate::marlin::ok_tag()),
        !crate::marlin::contains(s, crate::marlin::busy_tag()),
        crate::job::has_prefix(s, crate::marlin::temp_tag()),
{
    assert(crate::job::trim_end(s) == s);
    assert(crate::marlin::trim_start(s) == s);
    if crate::marlin::contains(s, crate::marlin::busy_tag()) {
        let k = choose|k: int| crate::marlin::contains_at(s, crate::marlin::busy_tag(), k);
        assert(s.subrange(k, k + 5)[0] == s[k]);
        assert(false);
    }
    assert(s.subrange(0, 2)[0] == 'T');
    assert(s.subrange(0, 2) =~= crate::marlin::temp_tag());
}

/// Characters of readings are neither `b` nor `W`.
proof fn lemma_reading_chars_weaken(t: Seq<char>)
    requires
        all_chars(t, |c: char| reading_char(c)),
    ensures
        all_chars(t, |c: char| c != 'b'),
        all_chars(t, |c: char| c != 'W'),
{
    assert forall|i: int| 0 <= i < t.len() implies (|c: char| c != 'b')(#[trigger] t[i]) by {
        assert(reading_char(t[i]));
    }
    assert forall|i: int| 0 <= i < t.len() implies (|c: char| c != 'W')(#[trigger] t[i]) by {
        assert(reading_char(t[i]));
    }
}

proof fn lemma_duty_chars_weaken(t: Seq<char>)
    requires
        all_chars(t, |c: char| duty_char(c)),
    ensures
        all_chars(t, |c: char| c != 'b'),
{
    assert forall|i: int| 0 <= i < t.len() implies (|c: char| c != 'b')(#[trigger] t[i]) by {
        assert(duty_char(t[i]));
    }
}

/// The parts of a report: its readings, its duties, its residency.
proof fn lemma_report_parts(ts: Seq<Temperature>, w: Option<u32>)
    requires
        reportable_readings(ts),
    ensures
        temperature_report_text(ts, w) == reading_text(ts[0]) + readings_from(ts, 1) + (
        duties_from(ts, 0) + residency_text(w)),
        (duties_from(ts, 0) + residency_text(w)).len() > 0,
        (duties_from(ts, 0) + residency_text(w))[0] == ' ',
        readings_from(ts, 1) + duties_from(ts, 0) + residency_text(w) == readings_from(ts, 1) + (
        duties_from(ts, 0) + residency_text(w)),
        (readings_from(ts, 1) + duties_from(ts, 0) + residency_text(w))[0] == ' ',
{
    let more = readings_from(ts, 1);
    let duties = duties_from(ts, 0);
    let res = residency_text(w);
    let tail = duties + res;
    assert(temperature_report_text(ts, w) =~= reading_text(ts[0]) + more + tail);
    assert(more + duties + res =~= more + tail);
    lemma_duties_chars(ts, 0);
    if duties.len() > 0 {
        assert(tail[0] == duties[0]);
    } else {
        assert(tail[0] == res[0]);
    }
    if ts.len() > 1 {
        assert(more == seq![' '] + reading_text(ts[1]) + readings_from(ts, 2));
        assert((more + tail)[0] == more[0]);
    } else {
        assert(more =~= Seq::<char>::empty());
        assert((more + tail) =~= tail);
    }
}

/// The readings of a report, without their duties.
#[verifier::rlimit(80)]
proof fn lemma_report_readings(ts: Seq<Temperature>, w: Option<u32>)
    requires
        reportable_readings(ts),
    ensures
        crate::marlin::temps_from(temperature_report_text(ts, w), 0) == with_powers(ts, 0),
{
    let n = ts.len() as int;
    let rt0 = reading_text(ts[0]);
    let more = readings_from(ts, 1);
    let head = rt0 + more;
    let tail = duties_from(ts, 0) + residency_text(w);
    let s = temperature_report_text(ts, w);
    lemma_report_parts(ts, w);
    assert(reportable_reading(ts[0]));
    lemma_duties_chars(ts, 0);
    lemma_residency_chars(w);
    let after0 = more + tail;
    assert(s == Seq::<char>::empty() + rt0 + after0) by {
        assert(s =~= Seq::<char>::empty() + rt0 + after0);
    }
    assert(after0[0] == ' ');
    lemma_reading_token(Seq::<char>::empty(), ts[0], after0);
    let e0 = rt0.len() as int;
    assert(crate::marlin::temps_from(s, 0) == seq![unpowered(ts[0])] + crate::marlin::temps_from(s, e0));
    assert(s == rt0 + more + tail) by {
        assert(s =~= rt0 + more + tail);
    }
    lemma_scan_readings(rt0, ts, 1, tail);
    lemma_quiet_concat(duties_from(ts, 0), residency_text(w));
    assert forall|i: int| head.len() <= i < s.len() implies crate::marlin::probe_of(
        #[trigger] s[i],
    ) is None || (i + 1 < s.len() && s[i + 1] == '@') by {
        assert(s[i] == tail[i - head.len()]);
        if i + 1 < s.len() {
            assert(s[i + 1] == tail[i + 1 - head.len()]);
        }
    }
    lemma_temps_quiet(s, head.len() as int);
    assert(unpowered_all(ts) =~= seq![unpowered(ts[0])] + unpowered_all(ts.subrange(1, n)));
    assert(unpowered_all(ts) =~= with_powers(ts, 0));
}

/// The duties of a report, applied to its readings.
#[verifier::rlimit(80)]
proof fn lemma_report_duties(ts: Seq<Temperature>, w: Option<u32>)
    requires
        reportable_readings(ts),
    ensures
        crate::marlin::apply_duties(with_powers(ts, 0), temperature_report_text(ts, w), 0) == ts,
{
    let n = ts.len() as int;
    let rt0 = reading_text(ts[0]);
    let more = readings_from(ts, 1);
    let head = rt0 + more;
    let duties = duties_from(ts, 0);
    let res = residency_text(w);
    let tail = duties + res;
    let s = temperature_report_text(ts, w);
    lemma_report_parts(ts, w);
    assert(reportable_reading(ts[0]));
    lemma_reading_chars(ts[0]);
    lemma_readings_chars(ts, 1);
    lemma_residency_chars(w);
    lemma_no_duty_concat(rt0, more);
    lemma_no_duty_in(Seq::<char>::empty(), head, tail);
    assert((Seq::<char>::empty() + head + tail) =~= s);
    assert(s.subrange(0, s.len() as int) =~= s);
    lemma_duties_skip(with_powers(ts, 0), s, 0, head.len() as int);
    assert(s == head + duties + res) by {
        assert(s =~= head + duties + res);
    }
    lemma_scan_duties(head, ts, 0, w);
    assert(with_powers(ts, n) =~= ts);
    lemma_no_duty_in(head + duties, res, Seq::<char>::empty());
    assert((head + duties + res + Seq::<char>::empty()) =~= s);
    lemma_duties_skip(ts, s, (head + duties).len() as int, s.len() as int);
    assert(crate::marlin::apply_duties(ts, s, s.len() as int) == ts);
}

/// The residency of a report, and that the report is recognised as one.
#[verifier::rlimit(80)]
proof fn lemma_report_rest(ts: Seq<Temperature>, w: Option<u32>)
    requires
        reportable_readings(ts),
    ensures
        crate::marlin::residency_from(temperature_report_text(ts, w), 0) == w,
        crate::marlin::trim(temperature_report_text(ts, w)) == temperature_report_text(ts, w),
        !crate::job::has_prefix(temperature_report_text(ts, w), crate::marlin::ok_tag()),
        !crate::marlin::contains(temperature_report_text(ts, w), crate::marlin::busy_tag()),
        crate::job::has_prefix(temperature_report_text(ts, w), crate::marlin::temp_tag()),
{
    let rt0 = reading_text(ts[0]);
    let more = readings_from(ts, 1);
    let head = rt0 + more;
    let duties = duties_from(ts, 0);
    let res = residency_text(w);
    let s = temperature_report_text(ts, w);
    assert(s == head + duties + res) by {
        assert(s =~= head + duties + res);
    }
    assert(reportable_reading(ts[0]));
    lemma_reading_chars(ts[0]);
    lemma_readings_chars(ts, 1);
    lemma_duties_chars(ts, 0);
    lemma_residency_chars(w);
    lemma_reading_chars_weaken(rt0);
    lemma_reading_chars_weaken(more);
    lemma_all_concat(rt0, more, |c: char| c != 'W');
    lemma_all_concat(head, duties, |c: char| c != 'W');
    lemma_residency_back(head + duties, w);
    lemma_duty_chars_weaken(duties);
    lemma_duty_chars_weaken(res);
    lemma_all_concat(rt0, more, |c: char| c != 'b');
    lemma_all_concat(head, duties, |c: char| c != 'b');
    lemma_all_concat(head + duties, res, |c: char| c != 'b');
    assert(rt0[0] == 'T');
    assert(rt0[1] == ':');
    assert(s[0] == 'T');
    assert(s[1] == ':');
    assert(s.last() == res.last());
    lemma_temperature_recognised(s);
}

/// A temperature report reads back as the readings, with their duties, and
/// the residency it was written from.
pub proof fn lemma_temperature_report_round_trip(ts: Seq<Temperature>, w: Option<u32>)
    requires
        reportable_readings(ts),
    ensures
        crate::marlin::parse_rx_spec(temperature_report_text(ts, w)) == Ok::<
            crate::marlin::ResponseView,
            crate::types::ErrorKind,
        >(crate::marlin::ResponseView::TEMPERATURE(ts, w)),
{
    lemma_report_readings(ts, w);
    lemma_report_duties(ts, w);
    lemma_report_rest(ts, w);
}


fn push_milli(out: &mut Vec<char>, v: u64)
    ensures
        final(out)@ == old(out)@ + milli_text(v),
{
    let ghost start = out@;
    crate::text::push_decimal(out, v / 1000);
    let f = v % 1000;
    out.push('.');
    out.push(crate::text::digit_char_exec(f / 100));
    out.push(crate::text::digit_char_exec((f / 10) % 10));
    out.push(crate::text::digit_char_exec(f % 10));
    assert(out@ =~= start + milli_text(v));
}

fn probe_letter_exec(p: ProbePoint) -> (r: char)
    requires
        probe_letter(p) is Some,
    ensures
        r == probe_letter(p).unwrap(),
{
    match p {
        ProbePoint::HOTEND => 'T',
        ProbePoint::BED => 'B',
        ProbePoint::CHAMBER => 'C',
        ProbePoint::PROBE => 'P',
        ProbePoint::COOLER => 'L',
        _ => 'R',
    }
}

fn push_index(out: &mut Vec<char>, i: u32)
    requires
        i <= 9,
    ensures
        final(out)@ == old(out)@ + index_text(i),
{
    if i != 0 {
        out.push(crate::text::digit_char_exec(i as u64));
    }
    assert(final(out)@ =~= old(out)@ + index_text(i));
}

fn push_reading(out: &mut Vec<char>, t: Temperature)
    requires
        writable(t),
    ensures
        final(out)@ == old(out)@ + reading_text(t),
{
    let ghost start = out@;
    out.push(probe_letter_exec(t.measured_from));
    push_index(out, t.index);
    out.push(':');
    push_milli(out, t.current);
    out.push(' ');
    out.push('/');
    push_milli(out, t.target);
    assert(out@ =~= start + reading_text(t));
}

fn push_duty(out: &mut Vec<char>, t: Temperature)
    requires
        writable(t),
    ensures
        final(out)@ == old(out)@ + (if duty_prefix(t.measured_from) is Some {
            seq![' '] + duty_text(t)
        } else {
            Seq::<char>::empty()
        }),
{
    let ghost start = out@;
    let has = match t.measured_from {
        ProbePoint::HOTEND => {
            out.push(' ');
            out.push('@');
            true
        },
        ProbePoint::BED => {
            out.push(' ');
            out.push('B');
            out.push('@');
            true
        },
        ProbePoint::CHAMBER => {
            out.push(' ');
            out.push('C');
            out.push('@');
            true
        },
        _ => false,
    };
    if has {
        push_index(out, t.index);
        out.push(':');
        crate::text::push_decimal(out, t.power as u64);
        assert(out@ =~= start + (seq![' '] + duty_text(t)));
    } else {
        assert(out@ =~= start);
    }
}

/// Whether a reading can be written in a report: a known probe, and an
/// index of one digit.
pub open spec fn writable(t: Temperature) -> bool {
    probe_letter(t.measured_from) is Some && t.index <= 9
}

impl crate::marlin::Marlin {
    /// The temperature report for `ts` (the first one first) and residency
    /// `w`, as the printer writes it: the readings, then the duties of the
    /// hot end, bed and chamber heaters, then the residency.
    pub fn get_temperature_report(&self, ts: &Vec<Temperature>, w: Option<u32>) -> (r: String)
        requires
            ts@.len() >= 1,
            forall|i: int| 0 <= i < ts@.len() ==> writable(#[trigger] ts@[i]),
        ensures
            r@ == temperature_report_text(ts@, w),
    {
        let mut out: Vec<char> = Vec::new();
        let mut i: usize = 0;
        while i < ts.len()
            invariant
                0 <= i <= ts@.len(),
                ts@.len() >= 1,
                forall|j: int| 0 <= j < ts@.len() ==> writable(#[trigger] ts@[j]),
                i == 0 ==> out@ == Seq::<char>::empty(),
                i > 0 ==> out@ + readings_from(ts@, i as int) == reading_text(ts@[0]) + readings_from(ts@, 1),
            decreases ts@.len() - i,
        {
            let t = ts[i];
            assert(writable(ts@[i as int]));
            let ghost before = out@;
            if i > 0 {
                out.push(' ');
            }
            let ghost spaced = out@;
            push_reading(&mut out, t);
            proof {
                let rt = reading_text(t);
                if i == 0 {
                    assert(out@ =~= rt);
                    assert(out@ + readings_from(ts@, 1) =~= reading_text(ts@[0]) + readings_from(ts@, 1));
                } else {
                    assert(out@ =~= before + seq![' '] + rt);
                    assert(readings_from(ts@, i as int) == seq![' '] + rt + readings_from(ts@, i + 1));
                    assert(out@ + readings_from(ts@, i + 1) =~= before + readings_from(ts@, i as int));
                }
            }
            i = i + 1;
        }
        proof {
            assert(readings_from(ts@, i as int) =~= Seq::<char>::empty());
            assert(out@ =~= reading_text(ts@[0]) + readings_from(ts@, 1));
        }
        let ghost head = out@;
        let mut k: usize = 0;
        while k < ts.len()
            invariant
                0 <= k <= ts@.len(),
                forall|j: int| 0 <= j < ts@.len() ==> writable(#[trigger] ts@[j]),
                out@ + duties_from(ts@, k as int) == head + duties_from(ts@, 0),
            decreases ts@.len() - k,
        {
            let t = ts[k];
            assert(writable(ts@[k as int]));
            let ghost before = out@;
            push_duty(&mut out, t);
            proof {
                assert(duties_from(ts@, k as int) == (if duty_prefix(t.measured_from) is Some {
                    seq![' '] + duty_text(t)
                } else {
                    Seq::<char>::empty()
                }) + duties_from(ts@, k + 1));
                assert(out@ + duties_from(ts@, k + 1) =~= before + duties_from(ts@, k as int));
            }
            k = k + 1;
        }
        proof {
            assert(duties_from(ts@, k as int) =~= Seq::<char>::empty());
            assert(out@ =~= head + duties_from(ts@, 0));
        }
        let ghost mid = out@;
        out.push(' ');
        out.push('W');
        out.push(':');
        match w {
            None => out.push('?'),
            Some(n) => crate::text::push_decimal(&mut out, n as u64),
        }
        proof {
            assert(out@ =~= mid + residency_text(w));
            assert(out@ =~= temperature_report_text(ts@, w));
        }
        crate::text::string_of(&out)
    }
}

} // verus!
