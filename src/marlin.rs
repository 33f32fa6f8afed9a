//! The Marlin wire protocol: parsing printer replies, watching outgoing
//! commands for side effects, generating commands, and framing streamed lines.
use vstd::prelude::*;
use crate::text::{
    char_vec, digit_of, digit_run_end, digits_value, frac_scaled, frac_value, has_at, is_digit,
    is_ws, lemma_digit_run, pow10, scan_digits,
};
use crate::types::{Axis, AxisSet, ErrorKind, Position, ProbePoint, Temperature, TemperatureTarget};
use crate::job::has_prefix;

verus! {

/// Integer parts of wire numbers stay below this bound; a longer number is
/// not read as a value.
pub const NUMBER_CAP: u64 = 1000000000;

/// A printer reply.
#[derive(Debug, Clone, PartialEq)]
pub enum Response {
    NONE,
    BUSY,
    OK,
    TEMPERATURE(Vec<Temperature>, Option<u32>),
    POSITION(Position),
    NACK(u32),
}

pub enum ResponseView {
    NONE,
    BUSY,
    OK,
    TEMPERATURE(Seq<Temperature>, Option<u32>),
    POSITION(Position),
    NACK(u32),
}

impl View for Response {
    type V = ResponseView;

    open spec fn view(&self) -> ResponseView {
        match self {
            Response::NONE => ResponseView::NONE,
            Response::BUSY => ResponseView::BUSY,
            Response::OK => ResponseView::OK,
            Response::TEMPERATURE(t, w) => ResponseView::TEMPERATURE(t@, *w),
            Response::POSITION(p) => ResponseView::POSITION(*p),
            Response::NACK(n) => ResponseView::NACK(*n),
        }
    }
}

/// The view of a parse result.
pub open spec fn result_view(r: Result<Response, ErrorKind>) -> Result<ResponseView, ErrorKind> {
    match r {
        Ok(x) => Ok(x@),
        Err(e) => Err(e),
    }
}

// ---------------------------------------------------------------------------
// The grammar of replies
// ---------------------------------------------------------------------------

pub open spec fn trim_start(s: Seq<char>) -> Seq<char>
    decreases s.len(),
{
    if s.len() > 0 && is_ws(s[0]) {
        trim_start(s.skip(1))
    } else {
        s
    }
}

/// `s` without leading and trailing whitespace.
pub open spec fn trim(s: Seq<char>) -> Seq<char> {
    trim_start(crate::job::trim_end(s))
}

pub open spec fn contains_at(s: Seq<char>, p: Seq<char>, i: int) -> bool {
    0 <= i && i + p.len() <= s.len() && s.subrange(i, i + p.len()) == p
}

/// Whether `p` occurs in `s`.
pub open spec fn contains(s: Seq<char>, p: Seq<char>) -> bool {
    exists|i: int| contains_at(s, p, i)
}

/// A number `D+.D+` at `p`, in units of `10^-k`, and the index past it.
pub open spec fn number_at(s: Seq<char>, p: int, k: nat) -> Option<(int, int)> {
    let e1 = digit_run_end(s, p);
    if 0 <= p && e1 > p && e1 < s.len() && s[e1] == '.' && digits_value(s.subrange(p, e1))
        < NUMBER_CAP {
        let e2 = digit_run_end(s, e1 + 1);
        if e2 > e1 + 1 {
            Some(
                (
                    digits_value(s.subrange(p, e1)) * pow10(k) + frac_scaled(
                        s.subrange(e1 + 1, e2),
                        k,
                    ),
                    e2,
                ),
            )
        } else {
            None
        }
    } else {
        None
    }
}

pub open spec fn probe_of(c: char) -> Option<ProbePoint> {
    if c == 'T' {
        Some(ProbePoint::HOTEND)
    } else if c == 'B' {
        Some(ProbePoint::BED)
    } else if c == 'C' {
        Some(ProbePoint::CHAMBER)
    } else if c == 'P' {
        Some(ProbePoint::PROBE)
    } else if c == 'L' {
        Some(ProbePoint::COOLER)
    } else if c == 'R' {
        Some(ProbePoint::REDUNDANT)
    } else {
        None
    }
}

/// The end of the run of spaces that starts at `i`.
pub open spec fn space_run_end(s: Seq<char>, i: int) -> int
    decreases s.len() - i,
{
    if 0 <= i < s.len() && s[i] == ' ' {
        space_run_end(s, i + 1)
    } else {
        i
    }
}

/// A reading `[TBCPLR][0-9]?:<current> +/<target>` at `i`, and the index past it.
pub open spec fn temp_token_at(s: Seq<char>, i: int) -> Option<(Temperature, int)> {
    if !(0 <= i < s.len()) || probe_of(s[i]) is None {
        None
    } else {
        let has_d = i + 1 < s.len() && is_digit(s[i + 1]);
        let c = if has_d { i + 2 } else { i + 1 };
        let idx = if has_d { digit_of(s[i + 1]) } else { 0 };
        if !(c < s.len() && s[c] == ':') {
            None
        } else {
            match number_at(s, c + 1, 3) {
                None => None,
                Some((cur, e)) => {
                    let sp = space_run_end(s, e);
                    if sp == e || !(sp < s.len() && s[sp] == '/') {
                        None
                    } else {
                        match number_at(s, sp + 1, 3) {
                            None => None,
                            Some((tgt, e2)) => Some(
                                (
                                    Temperature {
                                        measured_from: probe_of(s[i]).unwrap(),
                                        index: idx as u32,
                                        power: 0,
                                        current: cur as u64,
                                        target: tgt as u64,
                                    },
                                    e2,
                                ),
                            ),
                        }
                    }
                },
            }
        }
    }
}

/// The readings of `s` from `i` on, scanning left to right without overlap.
pub open spec fn temps_from(s: Seq<char>, i: int) -> Seq<Temperature>
    decreases s.len() - i,
{
    if i < 0 || i >= s.len() {
        Seq::empty()
    } else {
        match temp_token_at(s, i) {
            Some((t, e)) => if i < e <= s.len() {
                seq![t] + temps_from(s, e)
            } else {
                temps_from(s, i + 1)
            },
            None => temps_from(s, i + 1),
        }
    }
}

/// A heater duty `[BC]?@[0-9]?:<int>` at `i`: the probe, its index, the duty
/// in steps of `1/127` (clamped to 127), and the index past it.
pub open spec fn duty_token_at(s: Seq<char>, i: int) -> Option<(ProbePoint, int, int, int)> {
    if !(0 <= i < s.len()) {
        None
    } else {
        let bc = (s[i] == 'B' || s[i] == 'C') && i + 1 < s.len() && s[i + 1] == '@';
        if !bc && s[i] != '@' {
            None
        } else {
            let probe = if !bc {
                ProbePoint::HOTEND
            } else if s[i] == 'B' {
                ProbePoint::BED
            } else {
                ProbePoint::CHAMBER
            };
            let k = if bc { i + 2 } else { i + 1 };
            let has_d = k < s.len() && is_digit(s[k]);
            let c = if has_d { k + 1 } else { k };
            let idx = if has_d { digit_of(s[k]) } else { 0 };
            let e = digit_run_end(s, c + 1);
            if c < s.len() && s[c] == ':' && e > c + 1 {
                let v = digits_value(s.subrange(c + 1, e));
                Some((probe, idx, if v > 127 { 127 } else { v }, e))
            } else {
                None
            }
        }
    }
}

/// The index of the first reading of probe `p` with index `d`, at or after `j`.
pub open spec fn first_reading(t: Seq<Temperature>, p: ProbePoint, d: int, j: int) -> int
    decreases t.len() - j,
{
    if j < 0 || j >= t.len() {
        t.len() as int
    } else if t[j].measured_from == p && t[j].index as int == d {
        j
    } else {
        first_reading(t, p, d, j + 1)
    }
}

/// `t` with the duty of the first reading of probe `p` and index `d` set to `v`.
pub open spec fn set_power(t: Seq<Temperature>, p: ProbePoint, d: int, v: int) -> Seq<Temperature> {
    let j = first_reading(t, p, d, 0);
    if j < t.len() {
        t.update(j, Temperature { power: v as u32, ..t[j] })
    } else {
        t
    }
}

/// The readings `t` with each duty of `s` from `i` on applied to the first
/// matching reading.
pub open spec fn apply_duties(t: Seq<Temperature>, s: Seq<char>, i: int) -> Seq<Temperature>
    decreases s.len() - i,
{
    if i < 0 || i >= s.len() {
        t
    } else {
        match duty_token_at(s, i) {
            Some((p, d, v, e)) => if i < e <= s.len() {
                apply_duties(set_power(t, p, d, v), s, e)
            } else {
                apply_duties(t, s, i + 1)
            },
            None => apply_duties(t, s, i + 1),
        }
    }
}

/// The residency countdown `W:<int>` first found from `i` on; `W:?` and an
/// out-of-range number give none.
pub open spec fn residency_from(s: Seq<char>, i: int) -> Option<u32>
    decreases s.len() - i,
{
    if i < 0 || i + 2 >= s.len() {
        None
    } else if s[i] == 'W' && s[i + 1] == ':' && (s[i + 2] == '?' || is_digit(s[i + 2])) {
        if s[i + 2] == '?' {
            None
        } else {
            let v = digits_value(s.subrange(i + 2, digit_run_end(s, i + 2)));
            if v <= u32::MAX {
                Some(v as u32)
            } else {
                None
            }
        }
    } else {
        residency_from(s, i + 1)
    }
}

pub open spec fn axis_of(c: char) -> Option<Axis> {
    if c == 'X' {
        Some(Axis::X)
    } else if c == 'Y' {
        Some(Axis::Y)
    } else if c == 'Z' {
        Some(Axis::Z)
    } else if c == 'E' {
        Some(Axis::E)
    } else {
        None
    }
}

/// A coordinate `[XYZE]:-?D+.D+` at `i`, in units of `10^-5`, and the index past it.
pub open spec fn pos_token_at(s: Seq<char>, i: int) -> Option<(Axis, int, int)> {
    if !(0 <= i && i + 1 < s.len()) || axis_of(s[i]) is None || s[i + 1] != ':' {
        None
    } else {
        let neg = i + 2 < s.len() && s[i + 2] == '-';
        let p = if neg { i + 3 } else { i + 2 };
        match number_at(s, p, 5) {
            Some((v, e)) => Some((axis_of(s[i]).unwrap(), if neg { -v } else { v }, e)),
            None => None,
        }
    }
}

/// `pos` with axis `a` set to `v`.
pub open spec fn set_axis(pos: Position, a: Axis, v: int) -> Position {
    match a {
        Axis::X => Position { x: v as i64, ..pos },
        Axis::Y => Position { y: v as i64, ..pos },
        Axis::Z => Position { z: v as i64, ..pos },
        Axis::E => Position { e: v as i64, ..pos },
    }
}

/// `pos` with each coordinate of `s` from `i` on applied, left to right.
pub open spec fn positions_from(s: Seq<char>, i: int, pos: Position) -> Position
    decreases s.len() - i,
{
    if i < 0 || i >= s.len() {
        pos
    } else {
        match pos_token_at(s, i) {
            Some((a, v, e)) => if i < e <= s.len() {
                positions_from(s, e, set_axis(pos, a, v))
            } else {
                positions_from(s, i + 1, pos)
            },
            None => positions_from(s, i + 1, pos),
        }
    }
}

pub open spec fn last_line_tag() -> Seq<char> {
    seq!['L', 'a', 's', 't', ' ', 'L', 'i', 'n', 'e', ':']
}

/// The line number of the first `Last Line: ?<int>` from `i` on.
pub open spec fn nack_from(s: Seq<char>, i: int) -> Option<int>
    decreases s.len() - i,
{
    if i < 0 || i >= s.len() {
        None
    } else if contains_at(s, last_line_tag(), i) {
        let k = i + 10;
        let p = if k < s.len() && s[k] == ' ' { k + 1 } else { k };
        let e = digit_run_end(s, p);
        if e > p {
            Some(digits_value(s.subrange(p, e)))
        } else {
            nack_from(s, i + 1)
        }
    } else {
        nack_from(s, i + 1)
    }
}

pub open spec fn ok_tag() -> Seq<char> {
    seq!['o', 'k']
}

pub open spec fn busy_tag() -> Seq<char> {
    seq!['b', 'u', 's', 'y', ':']
}

pub open spec fn temp_tag() -> Seq<char> {
    seq!['T', ':']
}

pub open spec fn pos_tag() -> Seq<char> {
    seq!['X', ':']
}

pub open spec fn resend_tag() -> Seq<char> {
    seq!['R', 'e', 's', 'e', 'n', 'd', ':']
}

/// What a received line means. Blank lines and `Resend:` lines mean nothing;
/// an unrecognised line, a temperature line without a reading, or a line
/// number out of range is `InvalidData`.
pub open spec fn parse_rx_spec(line: Seq<char>) -> Result<ResponseView, ErrorKind> {
    let t = trim(line);
    if t.len() == 0 {
        Ok(ResponseView::NONE)
    } else if has_prefix(t, ok_tag()) {
        Ok(ResponseView::OK)
    } else if contains(t, busy_tag()) {
        Ok(ResponseView::BUSY)
    } else if has_prefix(t, temp_tag()) {
        let temps = apply_duties(temps_from(line, 0), line, 0);
        if temps.len() == 0 {
            Err(ErrorKind::InvalidData)
        } else {
            Ok(ResponseView::TEMPERATURE(temps, residency_from(t, 0)))
        }
    } else if has_prefix(t, pos_tag()) {
        Ok(ResponseView::POSITION(positions_from(line, 0, Position { x: 0, y: 0, z: 0, e: 0 })))
    } else if nack_from(t, 0) is Some {
        let n = nack_from(t, 0).unwrap();
        if n + 1 <= u32::MAX {
            Ok(ResponseView::NACK((n + 1) as u32))
        } else {
            Err(ErrorKind::InvalidData)
        }
    } else if has_prefix(t, resend_tag()) {
        Ok(ResponseView::NONE)
    } else {
        Err(ErrorKind::InvalidData)
    }
}

} // verus!

verus! {

// ---------------------------------------------------------------------------
// Scanners for the reply grammar
// ---------------------------------------------------------------------------

fn pow10_exec(k: u32) -> (r: u64)
    requires
        k <= 5,
    ensures
        r == pow10(k as nat),
        r <= 100000,
{
    proof {
        reveal_with_fuel(pow10, 6);
    }
    if k == 0 {
        1
    } else if k == 1 {
        10
    } else if k == 2 {
        100
    } else if k == 3 {
        1000
    } else if k == 4 {
        10000
    } else {
        100000
    }
}

fn number_at_exec(s: &Vec<char>, p: usize, k: u32) -> (r: Option<(u64, usize)>)
    requires
        p <= s@.len(),
        k <= 5,
    ensures
        r is None <==> number_at(s@, p as int, k as nat) is None,
        r is Some ==> number_at(s@, p as int, k as nat) == Some(
            (r.unwrap().0 as int, r.unwrap().1 as int),
        ) && r.unwrap().0 < 1000000000 * 100001 && p < r.unwrap().1 <= s@.len(),
{
    proof {
        lemma_digit_run(s@, p as int);
    }
    let (e1, whole) = scan_digits(s, p, NUMBER_CAP);
    if e1 == p || e1 >= s.len() || s[e1] != '.' || whole >= NUMBER_CAP {
        return None;
    }
    proof {
        lemma_digit_run(s@, e1 + 1);
    }
    let (e2, _v) = scan_digits(s, e1 + 1, NUMBER_CAP);
    if e2 == e1 + 1 {
        return None;
    }
    let f = frac_value(s, e1 + 1, e2, k);
    let m = pow10_exec(k);
    assert(whole * m <= 1000000000 * 100000) by (nonlinear_arith)
        requires whole < 1000000000, m <= 100000;
    Some((whole * m + f, e2))
}

fn probe_of_exec(c: char) -> (r: Option<ProbePoint>)
    ensures
        r == probe_of(c),
{
    if c == 'T' {
        Some(ProbePoint::HOTEND)
    } else if c == 'B' {
        Some(ProbePoint::BED)
    } else if c == 'C' {
        Some(ProbePoint::CHAMBER)
    } else if c == 'P' {
        Some(ProbePoint::PROBE)
    } else if c == 'L' {
        Some(ProbePoint::COOLER)
    } else if c == 'R' {
        Some(ProbePoint::REDUNDANT)
    } else {
        None
    }
}

fn is_digit_exec(c: char) -> (r: bool)
    ensures
        r == is_digit(c),
{
    '0' <= c && c <= '9'
}

fn digit_exec(c: char) -> (r: u32)
    requires
        is_digit(c),
    ensures
        r == digit_of(c),
        r <= 9,
{
    c as u32 - '0' as u32
}

fn space_run_exec(s: &Vec<char>, i: usize) -> (r: usize)
    requires
        i <= s@.len(),
    ensures
        r == space_run_end(s@, i as int),
        i <= r <= s@.len(),
{
    let mut j = i;
    while j < s.len() && s[j] == ' '
        invariant
            i <= j <= s@.len(),
            space_run_end(s@, j as int) == space_run_end(s@, i as int),
        decreases s@.len() - j,
    {
        j = j + 1;
    }
    j
}

fn temp_token_exec(s: &Vec<char>, i: usize) -> (r: Option<(Temperature, usize)>)
    requires
        i < s@.len(),
    ensures
        r is None <==> temp_token_at(s@, i as int) is None,
        r is Some ==> temp_token_at(s@, i as int) == Some((r.unwrap().0, r.unwrap().1 as int)),
{
    let probe = match probe_of_exec(s[i]) {
        Some(p) => p,
        None => return None,
    };
    let has_d = s.len() - i > 1 && is_digit_exec(s[i + 1]);
    let c = if has_d { i + 2 } else { i + 1 };
    let idx: u32 = if has_d { digit_exec(s[i + 1]) } else { 0 };
    if !(c < s.len() && s[c] == ':') {
        return None;
    }
    let (cur, e) = match number_at_exec(s, c + 1, 3) {
        Some(x) => x,
        None => return None,
    };
    let sp = space_run_exec(s, e);
    if sp == e || !(sp < s.len() && s[sp] == '/') {
        return None;
    }
    let (tgt, e2) = match number_at_exec(s, sp + 1, 3) {
        Some(x) => x,
        None => return None,
    };
    Some((Temperature { measured_from: probe, index: idx, power: 0, current: cur, target: tgt }, e2))
}

fn duty_token_exec(s: &Vec<char>, i: usize) -> (r: Option<(ProbePoint, u32, u32, usize)>)
    requires
        i < s@.len(),
    ensures
        r is None <==> duty_token_at(s@, i as int) is None,
        r is Some ==> duty_token_at(s@, i as int) == Some(
            (r.unwrap().0, r.unwrap().1 as int, r.unwrap().2 as int, r.unwrap().3 as int),
        ),
{
    let bc = (s[i] == 'B' || s[i] == 'C') && s.len() - i > 1 && s[i + 1] == '@';
    if !bc && s[i] != '@' {
        return None;
    }
    let probe = if !bc {
        ProbePoint::HOTEND
    } else if s[i] == 'B' {
        ProbePoint::BED
    } else {
        ProbePoint::CHAMBER
    };
    let n = s.len();
    assert(bc ==> i + 2 <= n);
    let k = if bc { i + 2 } else { i + 1 };
    let has_d = k < s.len() && is_digit_exec(s[k]);
    let c = if has_d { k + 1 } else { k };
    let idx: u32 = if has_d { digit_exec(s[k]) } else { 0 };
    if !(c < s.len() && s[c] == ':') {
        return None;
    }
    proof {
        lemma_digit_run(s@, c + 1);
    }
    let (e, v) = scan_digits(s, c + 1, 128);
    if e == c + 1 {
        return None;
    }
    proof {
        lemma_digit_run(s@, c + 1);
        crate::text::lemma_digits_value_nonneg(s@.subrange(c + 1, e as int));
    }
    Some((probe, idx, if v > 127 { 127 } else { v as u32 }, e))
}

fn set_power_exec(t: &mut Vec<Temperature>, p: ProbePoint, d: u32, v: u32)
    ensures
        final(t)@ == set_power(old(t)@, p, d as int, v as int),
{
    let mut j: usize = 0;
    while j < t.len() && !(t[j].measured_from == p && t[j].index == d)
        invariant
            0 <= j <= t@.len(),
            t@ == old(t)@,
            first_reading(t@, p, d as int, j as int) == first_reading(t@, p, d as int, 0),
        decreases t@.len() - j,
    {
        j = j + 1;
    }
    if j < t.len() {
        let mut r = t[j];
        r.power = v;
        t.set(j, r);
    }
}

/// The readings in `s` with their duties applied.
fn temperatures_exec(s: &Vec<char>) -> (r: Vec<Temperature>)
    ensures
        r@ == apply_duties(temps_from(s@, 0), s@, 0),
{
    let mut acc: Vec<Temperature> = Vec::new();
    let mut i: usize = 0;
    while i < s.len()
        invariant
            0 <= i <= s@.len(),
            acc@ + temps_from(s@, i as int) == temps_from(s@, 0),
        decreases s@.len() - i,
    {
        match temp_token_exec(s, i) {
            Some((t, e)) => {
                if i < e && e <= s.len() {
                    proof {
                        assert(temps_from(s@, i as int) == seq![t] + temps_from(s@, e as int));
                    }
                    let ghost a0 = acc@;
                    acc.push(t);
                    proof {
                        assert(acc@ + temps_from(s@, e as int) =~= a0 + temps_from(s@, i as int));
                    }
                    i = e;
                } else {
                    i = i + 1;
                }
            },
            None => {
                i = i + 1;
            },
        }
    }
    proof {
        assert(acc@ =~= temps_from(s@, 0));
    }
    let ghost base = acc@;
    let mut i: usize = 0;
    while i < s.len()
        invariant
            0 <= i <= s@.len(),
            base == temps_from(s@, 0),
            apply_duties(acc@, s@, i as int) == apply_duties(base, s@, 0),
        decreases s@.len() - i,
    {
        match duty_token_exec(s, i) {
            Some((p, d, v, e)) => {
                if i < e && e <= s.len() {
                    proof {
                        assert(apply_duties(acc@, s@, i as int) == apply_duties(
                            set_power(acc@, p, d as int, v as int),
                            s@,
                            e as int,
                        ));
                    }
                    set_power_exec(&mut acc, p, d, v);
                    i = e;
                } else {
                    proof {
                        assert(apply_duties(acc@, s@, i as int) == apply_duties(acc@, s@, i + 1));
                    }
                    i = i + 1;
                }
            },
            None => {
                proof {
                    assert(apply_duties(acc@, s@, i as int) == apply_duties(acc@, s@, i + 1));
                }
                i = i + 1;
            },
        }
    }
    acc
}

fn residency_exec(s: &Vec<char>) -> (r: Option<u32>)
    ensures
        r == residency_from(s@, 0),
{
    let mut i: usize = 0;
    while s.len() > 2 && i < s.len() - 2
        invariant
            0 <= i,
            i <= s@.len(),
            residency_from(s@, i as int) == residency_from(s@, 0),
        decreases s@.len() - i,
    {
        if s[i] == 'W' && s[i + 1] == ':' && (s[i + 2] == '?' || is_digit_exec(s[i + 2])) {
            if s[i + 2] == '?' {
                return None;
            }
            proof {
                lemma_digit_run(s@, i + 2);
            }
            let (_e, v) = scan_digits(s, i + 2, 4294967296);
            if v <= 4294967295 {
                return Some(v as u32);
            } else {
                return None;
            }
        }
        i = i + 1;
    }
    None
}

fn axis_of_exec(c: char) -> (r: Option<Axis>)
    ensures
        r == axis_of(c),
{
    if c == 'X' {
        Some(Axis::X)
    } else if c == 'Y' {
        Some(Axis::Y)
    } else if c == 'Z' {
        Some(Axis::Z)
    } else if c == 'E' {
        Some(Axis::E)
    } else {
        None
    }
}

fn position_exec(s: &Vec<char>) -> (r: Position)
    ensures
        r == positions_from(s@, 0, Position { x: 0, y: 0, z: 0, e: 0 }),
{
    let mut pos = Position { x: 0, y: 0, z: 0, e: 0 };
    let mut i: usize = 0;
    while i < s.len()
        invariant
            0 <= i <= s@.len(),
            positions_from(s@, i as int, pos) == positions_from(
                s@,
                0,
                Position { x: 0, y: 0, z: 0, e: 0 },
            ),
        decreases s@.len() - i,
    {
        let mut next = i + 1;
        let ghost before = pos;
        if s.len() - i > 1 && s[i + 1] == ':' {
            if let Some(a) = axis_of_exec(s[i]) {
                let neg = s.len() - i > 2 && s[i + 2] == '-';
                let p = if neg { i + 3 } else { i + 2 };
                if p <= s.len() {
                    if let Some((v, e)) = number_at_exec(s, p, 5) {
                        if i < e && e <= s.len() {
                            let sv: i64 = if neg { -(v as i64) } else { v as i64 };
                            match a {
                                Axis::X => pos.x = sv,
                                Axis::Y => pos.y = sv,
                                Axis::Z => pos.z = sv,
                                Axis::E => pos.e = sv,
                            }
                            next = e;
                            proof {
                                assert(pos_token_at(s@, i as int) == Some((a, sv as int, e as int)));
                                assert(pos == set_axis(before, a, sv as int));
                            }
                        }
                    }
                }
            }
        }
        i = next;
    }
    pos
}

fn nack_exec(s: &Vec<char>) -> (r: Option<u64>)
    ensures
        r is None <==> nack_from(s@, 0) is None,
        r is Some && nack_from(s@, 0).unwrap() <= u32::MAX ==> r.unwrap() == nack_from(
            s@,
            0,
        ).unwrap(),
        r is Some && nack_from(s@, 0).unwrap() > u32::MAX ==> r.unwrap() == 4294967296u64,
{
    let tag = char_vec("Last Line:");
    proof {
        reveal_strlit("Last Line:");
        assert(tag@ =~= last_line_tag());
    }
    let mut i: usize = 0;
    while i < s.len()
        invariant
            0 <= i <= s@.len(),
            tag@ == last_line_tag(),
            nack_from(s@, i as int) == nack_from(s@, 0),
        decreases s@.len() - i,
    {
        if has_at(s, i, &tag) {
            let k = i + 10;
            let p = if k < s.len() && s[k] == ' ' { k + 1 } else { k };
            proof {
                lemma_digit_run(s@, p as int);
            }
            let (e, v) = scan_digits(s, p, 4294967296);
            if e > p {
                proof {
                    crate::text::lemma_digits_value_nonneg(s@.subrange(p as int, e as int));
                }
                return Some(v);
            }
        }
        i = i + 1;
    }
    None
}

} // verus!

verus! {

// ---------------------------------------------------------------------------
// Whole replies
// ---------------------------------------------------------------------------

/// Trimming the start keeps a suffix.
pub proof fn lemma_trim_start(s: Seq<char>)
    ensures
        trim_start(s).len() <= s.len(),
        trim_start(s) == s.subrange(s.len() - trim_start(s).len(), s.len() as int),
    decreases s.len(),
{
    if s.len() > 0 && is_ws(s[0]) {
        lemma_trim_start(s.skip(1));
        assert(s.skip(1).subrange(
            s.skip(1).len() - trim_start(s).len(),
            s.skip(1).len() as int,
        ) =~= s.subrange(s.len() - trim_start(s).len(), s.len() as int));
    } else {
        assert(s.subrange(0, s.len() as int) =~= s);
    }
}

fn is_ws_exec(c: char) -> (r: bool)
    ensures
        r == is_ws(c),
{
    c == ' ' || c == '\t' || c == '\n' || c == '\r' || c == '\x0B' || c == '\x0C'
}

/// `v` without leading and trailing whitespace.
fn trim_exec(v: &Vec<char>) -> (r: Vec<char>)
    ensures
        r@ == trim(v@),
{
    let mut b = v.len();
    proof {
        assert(v@.subrange(0, b as int) =~= v@);
    }
    while b > 0 && is_ws_exec(v[b - 1])
        invariant
            0 <= b <= v@.len(),
            crate::job::trim_end(v@.subrange(0, b as int)) == crate::job::trim_end(v@),
        decreases b,
    {
        assert(v@.subrange(0, b as int).drop_last() =~= v@.subrange(0, b - 1));
        b = b - 1;
    }
    let ghost x = v@.subrange(0, b as int);
    proof {
        assert(crate::job::trim_end(x) == x);
        assert(x.subrange(0, x.len() as int) =~= x);
    }
    let mut a: usize = 0;
    while a < b && is_ws_exec(v[a])
        invariant
            0 <= a <= b <= v@.len(),
            x == v@.subrange(0, b as int),
            trim_start(x.subrange(a as int, b as int)) == trim_start(x),
        decreases b - a,
    {
        assert(x.subrange(a as int, b as int).skip(1) =~= x.subrange(a + 1, b as int));
        a = a + 1;
    }
    let mut out: Vec<char> = Vec::new();
    let mut i = a;
    while i < b
        invariant
            a <= i <= b <= v@.len(),
            out@ == v@.subrange(a as int, i as int),
        decreases b - i,
    {
        out.push(v[i]);
        i = i + 1;
        assert(out@ =~= v@.subrange(a as int, i as int));
    }
    proof {
        assert(x.subrange(a as int, b as int) =~= v@.subrange(a as int, b as int));
        let y = x.subrange(a as int, b as int);
        assert(y.len() == 0 || !is_ws(y[0]));
    }
    out
}

/// Whether `p` occurs in `s`.
fn contains_exec(s: &Vec<char>, p: &Vec<char>) -> (r: bool)
    ensures
        r == contains(s@, p@),
{
    let mut i: usize = 0;
    while i < s.len()
        invariant
            0 <= i <= s@.len(),
            forall|j: int| 0 <= j < i ==> !contains_at(s@, p@, j),
        decreases s@.len() - i,
    {
        if has_at(s, i, p) {
            assert(contains_at(s@, p@, i as int));
            return true;
        }
        i = i + 1;
    }
    if has_at(s, i, p) {
        assert(contains_at(s@, p@, i as int));
        return true;
    }
    assert forall|j: int| !contains_at(s@, p@, j) by {
        if 0 <= j && j + p@.len() <= s@.len() && j > s@.len() {
        }
    }
    false
}

/// The Marlin dialect of the printer protocol. It holds no state.
pub struct Marlin {}

impl Marlin {
    /// Interprets one line received from the printer.
    pub fn parse_rx_line(&self, line: &str) -> (r: Result<Response, ErrorKind>)
        ensures
            result_view(r) == parse_rx_spec(line@),
    {
        let v = char_vec(line);
        let t = trim_exec(&v);
        if t.len() == 0 {
            return Ok(Response::NONE);
        }
        let ok = char_vec("ok");
        let busy = char_vec("busy:");
        let tt = char_vec("T:");
        let xt = char_vec("X:");
        let resend = char_vec("Resend:");
        proof {
            reveal_strlit("ok");
            reveal_strlit("busy:");
            reveal_strlit("T:");
            reveal_strlit("X:");
            reveal_strlit("Resend:");
            assert(ok@ =~= ok_tag());
            assert(busy@ =~= busy_tag());
            assert(tt@ =~= temp_tag());
            assert(xt@ =~= pos_tag());
            assert(resend@ =~= resend_tag());
        }
        if has_at(&t, 0, &ok) {
            return Ok(Response::OK);
        }
        if contains_exec(&t, &busy) {
            return Ok(Response::BUSY);
        }
        if has_at(&t, 0, &tt) {
            let temps = temperatures_exec(&v);
            if temps.len() == 0 {
                return Err(ErrorKind::InvalidData);
            }
            let w = residency_exec(&t);
            return Ok(Response::TEMPERATURE(temps, w));
        }
        if has_at(&t, 0, &xt) {
            return Ok(Response::POSITION(position_exec(&v)));
        }
        match nack_exec(&t) {
            Some(n) => {
                if n <= 4294967294 {
                    return Ok(Response::NACK((n + 1) as u32));
                } else {
                    return Err(ErrorKind::InvalidData);
                }
            },
            None => {},
        }
        if has_at(&t, 0, &resend) {
            return Ok(Response::NONE);
        }
        Err(ErrorKind::InvalidData)
    }
}

} // verus!

verus! {

// ---------------------------------------------------------------------------
// The outbound tap
// ---------------------------------------------------------------------------

#[derive(Debug, Clone, Copy, PartialEq, Eq, Structural)]
pub enum PositionMode {
    ABSOLUTE,
    RELATIVE,
}

#[derive(Debug, Clone, Copy, PartialEq, Eq, Structural)]
pub enum PositionModeCmd {
    All(PositionMode),
    ExtruderOnly(PositionMode),
}

/// A side effect of an outgoing command that the printer core mirrors
/// locally. A fan speed is `(index, speed in steps of 1/255)`.
#[derive(Debug, Clone, Copy, PartialEq, Eq, Structural)]
pub enum OutgoingCmd {
    PositionModeChange(PositionModeCmd),
    FanSpeedChange(u32, u32),
    HomeAxes(AxisSet),
}

/// The first space in `s` at or after `i`, or `s.len()`.
pub open spec fn next_space(s: Seq<char>, i: int) -> int
    decreases s.len() - i,
{
    if i < 0 || i >= s.len() {
        s.len() as int
    } else if s[i] == ' ' {
        i
    } else {
        next_space(s, i + 1)
    }
}

/// The number after a segment's first letter, or zero when it is not a
/// plain decimal that fits in 32 bits.
pub open spec fn uint_after(seg: Seq<char>) -> int {
    let t = seg.skip(1);
    if seg.len() > 1 && digit_run_end(t, 0) == t.len() && digits_value(t) <= u32::MAX {
        digits_value(t)
    } else {
        0
    }
}

pub open spec fn fan_segment(seg: Seq<char>, idx: int, speed: int) -> (int, int) {
    if seg.len() > 0 && seg[0] == 'P' {
        (uint_after(seg), speed)
    } else if seg.len() > 0 && seg[0] == 'S' {
        (idx, if uint_after(seg) > 255 { 255 } else { uint_after(seg) })
    } else {
        (idx, speed)
    }
}

/// The fan index (`P`) and speed (`S`, at most 255) of a fan command, read
/// segment by segment from `i`; later segments override earlier ones.
pub open spec fn fan_from(s: Seq<char>, i: int, idx: int, speed: int) -> (int, int)
    decreases s.len() - i,
{
    if i < 0 || i > s.len() {
        (idx, speed)
    } else {
        let e = next_space(s, i);
        let r = fan_segment(s.subrange(i, e), idx, speed);
        if e >= s.len() || e < i {
            r
        } else {
            fan_from(s, e + 1, r.0, r.1)
        }
    }
}

pub open spec fn xyz_set() -> AxisSet {
    AxisSet { x: true, y: true, z: true, e: false }
}

pub open spec fn home_segment(seg: Seq<char>, a: AxisSet) -> AxisSet {
    if seg == seq!['X'] || seg == seq!['x'] {
        AxisSet { x: true, ..a }
    } else if seg == seq!['Y'] || seg == seq!['y'] {
        AxisSet { y: true, ..a }
    } else if seg == seq!['Z'] || seg == seq!['z'] {
        AxisSet { z: true, ..a }
    } else if seg == seq!['0'] {
        AxisSet { x: true, y: true, z: true, ..a }
    } else {
        a
    }
}

/// The axes a home command names, segment by segment from `i`.
pub open spec fn home_from(s: Seq<char>, i: int, a: AxisSet) -> AxisSet
    decreases s.len() - i,
{
    if i < 0 || i > s.len() {
        a
    } else {
        let e = next_space(s, i);
        let r = home_segment(s.subrange(i, e), a);
        if e >= s.len() || e < i {
            r
        } else {
            home_from(s, e + 1, r)
        }
    }
}

/// The axes a home command homes: all three when it names none.
pub open spec fn home_axes_spec(s: Seq<char>) -> AxisSet {
    if crate::job::trim_end(s) == seq!['G', '2', '8'] {
        xyz_set()
    } else {
        home_from(s, 0, AxisSet { x: false, y: false, z: false, e: false })
    }
}

/// The side effect an outgoing command has: a mode change, a fan speed, or homed axes.
pub open spec fn outgoing_spec(cmd: Seq<char>) -> Option<OutgoingCmd> {
    if has_prefix(cmd, seq!['G', '9', '0']) {
        Some(OutgoingCmd::PositionModeChange(PositionModeCmd::All(PositionMode::ABSOLUTE)))
    } else if has_prefix(cmd, seq!['G', '9', '1']) {
        Some(OutgoingCmd::PositionModeChange(PositionModeCmd::All(PositionMode::RELATIVE)))
    } else if has_prefix(cmd, seq!['M', '8', '2']) {
        Some(
            OutgoingCmd::PositionModeChange(PositionModeCmd::ExtruderOnly(PositionMode::ABSOLUTE)),
        )
    } else if has_prefix(cmd, seq!['M', '8', '3']) {
        Some(
            OutgoingCmd::PositionModeChange(PositionModeCmd::ExtruderOnly(PositionMode::RELATIVE)),
        )
    } else if has_prefix(cmd, seq!['M', '1', '0', '6']) || has_prefix(cmd, seq!['M', '1', '0', '7']) {
        let f = fan_from(cmd, 0, 0, 0);
        Some(OutgoingCmd::FanSpeedChange(f.0 as u32, f.1 as u32))
    } else if has_prefix(cmd, seq!['G', '2', '8']) {
        Some(OutgoingCmd::HomeAxes(home_axes_spec(cmd)))
    } else {
        None
    }
}

fn next_space_exec(s: &Vec<char>, i: usize) -> (r: usize)
    requires
        i <= s@.len(),
    ensures
        r == next_space(s@, i as int),
        i <= r <= s@.len(),
{
    let mut j = i;
    while j < s.len() && s[j] != ' '
        invariant
            i <= j <= s@.len(),
            next_space(s@, j as int) == next_space(s@, i as int),
        decreases s@.len() - j,
    {
        j = j + 1;
    }
    j
}

fn copy_range(s: &Vec<char>, from: usize, to: usize) -> (r: Vec<char>)
    requires
        from <= to <= s@.len(),
    ensures
        r@ == s@.subrange(from as int, to as int),
{
    let mut out: Vec<char> = Vec::new();
    let mut i = from;
    while i < to
        invariant
            from <= i <= to <= s@.len(),
            out@ == s@.subrange(from as int, i as int),
        decreases to - i,
    {
        out.push(s[i]);
        i = i + 1;
        assert(out@ =~= s@.subrange(from as int, i as int));
    }
    out
}

fn uint_after_exec(seg: &Vec<char>) -> (r: u32)
    ensures
        r == uint_after(seg@),
{
    if seg.len() <= 1 {
        return 0;
    }
    proof {
        lemma_digit_run(seg@, 1);
        crate::text::lemma_run_shift(seg@, 1, 1);
        assert(seg@.skip(1) =~= seg@.subrange(1, seg@.len() as int));
    }
    let (e, v) = scan_digits(seg, 1, 4294967296);
    proof {
        assert(seg@.subrange(1, e as int) =~= seg@.skip(1).subrange(0, e - 1));
        if e == seg@.len() {
            assert(seg@.skip(1).subrange(0, e - 1) =~= seg@.skip(1));
        }
    }
    if e == seg.len() && v <= 4294967295 {
        v as u32
    } else {
        0
    }
}

impl Marlin {
    /// The fan index and speed (in steps of `1/255`) a fan command sets.
    pub fn parse_fan_speed(&self, in_str: &str) -> (r: (u32, u32))
        ensures
            (r.0 as int, r.1 as int) == fan_from(in_str@, 0, 0, 0),
    {
        let s = char_vec(in_str);
        let mut idx: u32 = 0;
        let mut speed: u32 = 0;
        let mut i: usize = 0;
        loop
            invariant
                0 <= i <= s@.len(),
                s@ == in_str@,
                speed <= 255,
                fan_from(s@, i as int, idx as int, speed as int) == fan_from(s@, 0, 0, 0),
            decreases s@.len() - i,
        {
            let e = next_space_exec(&s, i);
            let seg = copy_range(&s, i, e);
            if seg.len() > 0 && seg[0] == 'P' {
                idx = uint_after_exec(&seg);
            } else if seg.len() > 0 && seg[0] == 'S' {
                let v = uint_after_exec(&seg);
                speed = if v > 255 { 255 } else { v };
            }
            if e >= s.len() {
                return (idx, speed);
            }
            i = e + 1;
        }
    }

    /// The axes a home command homes.
    pub fn parse_home_cmd(&self, in_str: &str) -> (r: AxisSet)
        ensures
            r == home_axes_spec(in_str@),
    {
        let s = char_vec(in_str);
        let g28 = char_vec("G28");
        proof {
            reveal_strlit("G28");
            assert(g28@ =~= seq!['G', '2', '8']);
        }
        if trim_end_is(&s, &g28) {
            return AxisSet::xyz();
        }
        let mut a = AxisSet::empty();
        let mut i: usize = 0;
        assert(home_axes_spec(in_str@) == home_from(
            s@,
            0,
            AxisSet { x: false, y: false, z: false, e: false },
        ));
        loop
            invariant
                0 <= i <= s@.len(),
                s@ == in_str@,
                home_axes_spec(in_str@) == home_from(
                    s@,
                    0,
                    AxisSet { x: false, y: false, z: false, e: false },
                ),
                home_from(s@, i as int, a) == home_from(
                    s@,
                    0,
                    AxisSet { x: false, y: false, z: false, e: false },
                ),
            decreases s@.len() - i,
        {
            let e = next_space_exec(&s, i);
            let seg = copy_range(&s, i, e);
            let ghost a0 = a;
            proof {
                lemma_single_char(seg@, 'X');
                lemma_single_char(seg@, 'x');
                lemma_single_char(seg@, 'Y');
                lemma_single_char(seg@, 'y');
                lemma_single_char(seg@, 'Z');
                lemma_single_char(seg@, 'z');
                lemma_single_char(seg@, '0');
            }
            if seg.len() == 1 {
                let c = seg[0];
                proof {
                    assert(seg@ =~= seq![c]);
                }
                if c == 'X' || c == 'x' {
                    a.x = true;
                } else if c == 'Y' || c == 'y' {
                    a.y = true;
                } else if c == 'Z' || c == 'z' {
                    a.z = true;
                } else if c == '0' {
                    a.x = true;
                    a.y = true;
                    a.z = true;
                }
            }
            proof {
                assert(a == home_segment(seg@, a0));
                assert(home_from(s@, i as int, a0) == (if e >= s@.len() {
                    home_segment(seg@, a0)
                } else {
                    home_from(s@, e + 1, home_segment(seg@, a0))
                }));
            }
            if e >= s.len() {
                return a;
            }
            i = e + 1;
        }
    }

    /// The side effect an outgoing command has on the printer's state, if any.
    pub fn parse_outgoing_cmd(&self, out_cmd: &str) -> (r: Option<OutgoingCmd>)
        ensures
            r == outgoing_spec(out_cmd@),
    {
        let s = char_vec(out_cmd);
        let g90 = char_vec("G90");
        let g91 = char_vec("G91");
        let m82 = char_vec("M82");
        let m83 = char_vec("M83");
        let m106 = char_vec("M106");
        let m107 = char_vec("M107");
        let g28 = char_vec("G28");
        proof {
            reveal_strlit("G90");
            reveal_strlit("G91");
            reveal_strlit("M82");
            reveal_strlit("M83");
            reveal_strlit("M106");
            reveal_strlit("M107");
            reveal_strlit("G28");
            assert(g90@ =~= seq!['G', '9', '0']);
            assert(g91@ =~= seq!['G', '9', '1']);
            assert(m82@ =~= seq!['M', '8', '2']);
            assert(m83@ =~= seq!['M', '8', '3']);
            assert(m106@ =~= seq!['M', '1', '0', '6']);
            assert(m107@ =~= seq!['M', '1', '0', '7']);
            assert(g28@ =~= seq!['G', '2', '8']);
        }
        if has_at(&s, 0, &g90) {
            Some(OutgoingCmd::PositionModeChange(PositionModeCmd::All(PositionMode::ABSOLUTE)))
        } else if has_at(&s, 0, &g91) {
            Some(OutgoingCmd::PositionModeChange(PositionModeCmd::All(PositionMode::RELATIVE)))
        } else if has_at(&s, 0, &m82) {
            Some(
                OutgoingCmd::PositionModeChange(
                    PositionModeCmd::ExtruderOnly(PositionMode::ABSOLUTE),
                ),
            )
        } else if has_at(&s, 0, &m83) {
            Some(
                OutgoingCmd::PositionModeChange(
                    PositionModeCmd::ExtruderOnly(PositionMode::RELATIVE),
                ),
            )
        } else if has_at(&s, 0, &m106) || has_at(&s, 0, &m107) {
            let (i, v) = self.parse_fan_speed(out_cmd);
            Some(OutgoingCmd::FanSpeedChange(i, v))
        } else if has_at(&s, 0, &g28) {
            Some(OutgoingCmd::HomeAxes(self.parse_home_cmd(out_cmd)))
        } else {
            None
        }
    }
}

proof fn lemma_single_char(seg: Seq<char>, c: char)
    ensures
        seg == seq![c] <==> (seg.len() == 1 && seg[0] == c),
{
    if seg.len() == 1 && seg[0] == c {
        assert(seg =~= seq![c]);
    }
}

/// Whether `s` without its trailing whitespace is `p`.
fn trim_end_is(s: &Vec<char>, p: &Vec<char>) -> (r: bool)
    ensures
        r == (crate::job::trim_end(s@) == p@),
{
    let mut b = s.len();
    proof {
        assert(s@.subrange(0, b as int) =~= s@);
    }
    while b > 0 && is_ws_exec(s[b - 1])
        invariant
            0 <= b <= s@.len(),
            crate::job::trim_end(s@.subrange(0, b as int)) == crate::job::trim_end(s@),
        decreases b,
    {
        assert(s@.subrange(0, b as int).drop_last() =~= s@.subrange(0, b - 1));
        b = b - 1;
    }
    proof {
        assert(crate::job::trim_end(s@.subrange(0, b as int)) == s@.subrange(0, b as int));
    }
    if b != p.len() {
        return false;
    }
    let r = has_at(s, 0, p);
    proof {
        if r {
            assert(s@.subrange(0, b as int) =~= p@);
        } else {
            assert(s@.subrange(0, b as int) != p@);
        }
    }
    r
}

} // verus!

verus! {

// ---------------------------------------------------------------------------
// Command generation and framing
// ---------------------------------------------------------------------------

/// `G28` followed by the letters of the homed axes among X, Y and Z; no
/// letter means all axes.
pub open spec fn home_cmd_text(a: AxisSet) -> Seq<char> {
    seq!['G', '2', '8'] + (if a.x { seq![' ', 'X'] } else { Seq::empty() }) + (if a.y {
        seq![' ', 'Y']
    } else {
        Seq::empty()
    }) + (if a.z { seq![' ', 'Z'] } else { Seq::empty() })
}

/// A target in thousandths of a degree, rounded to whole degrees; negative
/// targets give zero.
pub open spec fn round_milli(t: int) -> int {
    if t <= 0 { 0 } else { (t + 500) / 1000 }
}

/// The code that sets the target of a heater, for the heaters that have one.
pub open spec fn heater_code(p: ProbePoint) -> Option<Seq<char>> {
    match p {
        ProbePoint::HOTEND => Some(seq!['M', '1', '0', '4']),
        ProbePoint::BED => Some(seq!['M', '1', '4', '0']),
        ProbePoint::CHAMBER => Some(seq!['M', '1', '4', '1']),
        ProbePoint::COOLER => Some(seq!['M', '1', '4', '3']),
        _ => None,
    }
}

/// The command that sets heater `index` to `target` thousandths of a degree.
pub open spec fn set_temperature_text(code: Seq<char>, index: u32, target: i64) -> Seq<char> {
    code + seq![' ', 'T'] + crate::text::decimal(index as nat) + seq![' ', 'S']
        + crate::text::decimal(round_milli(target as int) as nat)
}

pub open spec fn mode_all_text(m: PositionMode) -> Seq<char> {
    match m {
        PositionMode::ABSOLUTE => seq!['G', '9', '0'],
        PositionMode::RELATIVE => seq!['G', '9', '1'],
    }
}

pub open spec fn mode_extruder_text(m: PositionMode) -> Seq<char> {
    match m {
        PositionMode::ABSOLUTE => seq!['M', '8', '2'],
        PositionMode::RELATIVE => seq!['M', '8', '3'],
    }
}

/// A move of all four axes with five decimals each.
pub open spec fn move_text(p: Position) -> Seq<char> {
    seq!['G', '1', ' ', 'E'] + crate::text::fixed5(p.e as int) + seq![' ', 'X']
        + crate::text::fixed5(p.x as int) + seq![' ', 'Y'] + crate::text::fixed5(p.y as int)
        + seq![' ', 'Z'] + crate::text::fixed5(p.z as int)
}

/// A move of X, Y and Z with five decimals each.
pub open spec fn xyz_move_text(p: Position) -> Seq<char> {
    seq!['G', '1', ' ', 'X'] + crate::text::fixed5(p.x as int) + seq![' ', 'Y']
        + crate::text::fixed5(p.y as int) + seq![' ', 'Z'] + crate::text::fixed5(p.z as int)
}

/// The wire speed of a fan target in thousandths: `round(min(1, s) * 255)`.
pub open spec fn fan_wire_speed(s: int) -> int {
    ((if s > 1000 { 1000 } else { s }) * 255 + 500) / 1000
}

/// The command that sets fan `index` to `speed` thousandths (off at zero or less).
pub open spec fn fan_cmd_text(index: u32, speed: i64) -> Seq<char> {
    if speed <= 0 {
        seq!['M', '1', '0', '7', ' ', 'P'] + crate::text::decimal(index as nat)
    } else {
        seq!['M', '1', '0', '6', ' ', 'P'] + crate::text::decimal(index as nat) + seq![' ', 'S']
            + crate::text::decimal(fan_wire_speed(speed as int) as nat)
    }
}

/// The XOR of all bytes.
pub open spec fn xor_all(b: Seq<u8>) -> u8
    decreases b.len(),
{
    if b.len() == 0 {
        0
    } else {
        xor_all(b.drop_last()) ^ b.last()
    }
}

pub open spec fn frame_prefix(line_no: u32, cmd: Seq<char>) -> Seq<char> {
    seq!['N'] + crate::text::decimal(line_no as nat) + seq![' '] + cmd
}

/// The framed form `N<line_no> <cmd>*<checksum>`, the checksum being the
/// XOR of the UTF-8 bytes before the `*`, in decimal.
pub open spec fn frame_text(line_no: u32, cmd: Seq<char>) -> Seq<char> {
    let p = frame_prefix(line_no, cmd);
    p + seq!['*'] + crate::text::decimal(xor_all(vstd::utf8::encode_utf8(p)) as nat)
}

fn text_of(v: &Vec<char>) -> (r: String)
    ensures
        r@ == v@,
{
    crate::text::string_of(v)
}

fn literal(s: &str) -> (r: String)
    ensures
        r@ == s@,
{
    s.to_owned()
}

impl Marlin {
    /// Enables the printer's automatic temperature reports every `interval_secs` seconds.
    pub fn get_enable_temperature_updates_cmds(&self, interval_secs: u64) -> (r: Vec<String>)
        ensures
            r@.len() == 1,
            r@[0]@ == seq!['M', '1', '5', '5', ' ', 'S'] + crate::text::decimal(interval_secs as nat),
    {
        let mut out: Vec<char> = Vec::new();
        crate::text::push_str(&mut out, "M155 S");
        crate::text::push_decimal(&mut out, interval_secs);
        proof {
            reveal_strlit("M155 S");
        }
        let mut r: Vec<String> = Vec::new();
        r.push(text_of(&out));
        proof {
            assert(r@[0]@ =~= seq!['M', '1', '5', '5', ' ', 'S'] + crate::text::decimal(interval_secs as nat));
        }
        r
    }

    /// Resets the printer's line counter to `line_no`.
    pub fn get_reset_line_no_cmd(&self, line_no: u32) -> (r: String)
        ensures
            r@ == seq!['M', '1', '1', '0', ' ', 'N'] + crate::text::decimal(line_no as nat),
    {
        let mut out: Vec<char> = Vec::new();
        crate::text::push_str(&mut out, "M110 N");
        crate::text::push_decimal(&mut out, line_no as u64);
        proof {
            reveal_strlit("M110 N");
            assert(out@ =~= seq!['M', '1', '1', '0', ' ', 'N'] + crate::text::decimal(line_no as nat));
        }
        text_of(&out)
    }

    /// Stops the printer: an emergency stop, or an end to the current wait.
    pub fn get_stop_cmd(&self, emergency: bool) -> (r: String)
        ensures
            emergency ==> r@ == seq!['M', '1', '1', '2'],
            !emergency ==> r@ == seq!['M', '1', '0', '8'],
    {
        proof {
            reveal_strlit("M112");
            reveal_strlit("M108");
        }
        if emergency {
            literal("M112")
        } else {
            literal("M108")
        }
    }

    /// Enables the steppers, then homes the X, Y and Z axes of `axes`
    /// (all of them when it names none of those).
    pub fn get_home_cmds(&self, axes: &AxisSet) -> (r: Vec<String>)
        ensures
            r@.len() == 2,
            r@[0]@ == seq!['M', '1', '7'],
            r@[1]@ == home_cmd_text(*axes),
    {
        let mut out: Vec<char> = Vec::new();
        out.push('G');
        out.push('2');
        out.push('8');
        let ghost s0 = out@;
        if axes.x {
            out.push(' ');
            out.push('X');
        }
        let ghost s1 = out@;
        if axes.y {
            out.push(' ');
            out.push('Y');
        }
        let ghost s2 = out@;
        if axes.z {
            out.push(' ');
            out.push('Z');
        }
        proof {
            reveal_strlit("M17");
            assert(out@ =~= home_cmd_text(*axes));
        }
        let mut r: Vec<String> = Vec::new();
        r.push(literal("M17"));
        r.push(text_of(&out));
        proof {
            assert(r@[0]@ =~= seq!['M', '1', '7']);
        }
        r
    }

    /// Sets a heater's target: one command for a heater that has one, none otherwise.
    pub fn get_set_temperature_cmds(&self, new_t: &TemperatureTarget) -> (r: Vec<String>)
        ensures
            heater_code(new_t.to_set) is None ==> r@.len() == 0,
            heater_code(new_t.to_set) is Some ==> r@.len() == 1 && r@[0]@ == set_temperature_text(
                heater_code(new_t.to_set).unwrap(),
                match new_t.index {
                    Some(i) => i,
                    None => 0u32,
                },
                new_t.target,
            ),
    {
        let mut out: Vec<char> = Vec::new();
        match new_t.to_set {
            ProbePoint::HOTEND => crate::text::push_str(&mut out, "M104"),
            ProbePoint::BED => crate::text::push_str(&mut out, "M140"),
            ProbePoint::CHAMBER => crate::text::push_str(&mut out, "M141"),
            ProbePoint::COOLER => crate::text::push_str(&mut out, "M143"),
            _ => {
                return Vec::new();
            },
        }
        proof {
            reveal_strlit("M104");
            reveal_strlit("M140");
            reveal_strlit("M141");
            reveal_strlit("M143");
            assert(out@ =~= heater_code(new_t.to_set).unwrap());
        }
        let index: u32 = match new_t.index {
            Some(i) => i,
            None => 0,
        };
        let rounded: u64 = if new_t.target <= 0 {
            0
        } else {
            ((new_t.target as u64) + 500) / 1000
        };
        let ghost code = out@;
        out.push(' ');
        out.push('T');
        crate::text::push_decimal(&mut out, index as u64);
        out.push(' ');
        out.push('S');
        crate::text::push_decimal(&mut out, rounded);
        proof {
            assert(out@ =~= set_temperature_text(code, index, new_t.target));
        }
        let mut r: Vec<String> = Vec::new();
        r.push(text_of(&out));
        r
    }

    /// Both position modes: one command for the X, Y and Z axes, one for the extruder.
    pub fn get_set_position_mode(&self, xyz: &PositionMode, e: &PositionMode) -> (r: Vec<String>)
        ensures
            r@.len() == 2,
            r@[0]@ == mode_all_text(*xyz),
            r@[1]@ == mode_extruder_text(*e),
    {
        proof {
            reveal_strlit("G90");
            reveal_strlit("G91");
            reveal_strlit("M82");
            reveal_strlit("M83");
        }
        let a = match xyz {
            PositionMode::ABSOLUTE => literal("G90"),
            PositionMode::RELATIVE => literal("G91"),
        };
        let b = match e {
            PositionMode::ABSOLUTE => literal("M82"),
            PositionMode::RELATIVE => literal("M83"),
        };
        proof {
            assert(a@ =~= mode_all_text(*xyz));
            assert(b@ =~= mode_extruder_text(*e));
        }
        let mut r: Vec<String> = Vec::new();
        r.push(a);
        r.push(b);
        r
    }

    /// A relative move: switch to relative mode, move by `new_pos` with five
    /// decimals per axis, then restore the previous mode of the X, Y and Z
    /// axes and, separately, of the extruder.
    pub fn get_move_cmds(&self, new_pos: &Position, cur_pos_mode_az_e: (PositionMode, PositionMode)) -> (r: Vec<String>)
        ensures
            r@.len() == 4,
            r@[0]@ == seq!['G', '9', '1'],
            r@[1]@ == move_text(*new_pos),
            r@[2]@ == mode_all_text(cur_pos_mode_az_e.0),
            r@[3]@ == mode_extruder_text(cur_pos_mode_az_e.1),
    {
        let mut out: Vec<char> = Vec::new();
        out.push('G');
        out.push('1');
        out.push(' ');
        out.push('E');
        crate::text::push_fixed5(&mut out, new_pos.e);
        out.push(' ');
        out.push('X');
        crate::text::push_fixed5(&mut out, new_pos.x);
        out.push(' ');
        out.push('Y');
        crate::text::push_fixed5(&mut out, new_pos.y);
        out.push(' ');
        out.push('Z');
        crate::text::push_fixed5(&mut out, new_pos.z);
        proof {
            assert(out@ =~= move_text(*new_pos));
            reveal_strlit("G91");
        }
        let mut r: Vec<String> = Vec::new();
        let g91 = literal("G91");
        proof {
            assert(g91@ =~= seq!['G', '9', '1']);
        }
        r.push(g91);
        r.push(text_of(&out));
        let restore = self.get_set_position_mode(&cur_pos_mode_az_e.0, &cur_pos_mode_az_e.1);
        r.push(restore[0].clone());
        r.push(restore[1].clone());
        r
    }

    /// An absolute move of X, Y and Z to `pos`; the extruder stays.
    pub fn get_absolute_move_cmd(&self, pos: &Position) -> (r: String)
        ensures
            r@ == xyz_move_text(*pos),
    {
        let mut out: Vec<char> = Vec::new();
        out.push('G');
        out.push('1');
        out.push(' ');
        out.push('X');
        crate::text::push_fixed5(&mut out, pos.x);
        out.push(' ');
        out.push('Y');
        crate::text::push_fixed5(&mut out, pos.y);
        out.push(' ');
        out.push('Z');
        crate::text::push_fixed5(&mut out, pos.z);
        proof {
            assert(out@ =~= xyz_move_text(*pos));
        }
        text_of(&out)
    }

    /// Sets fan `index` to `speed` thousandths of full speed; a speed of zero
    /// or less turns it off.
    pub fn get_fan_speed_cmd(&self, index: u32, speed: i64) -> (r: String)
        ensures
            r@ == fan_cmd_text(index, speed),
    {
        let mut out: Vec<char> = Vec::new();
        out.push('M');
        out.push('1');
        out.push('0');
        if speed <= 0 {
            out.push('7');
            out.push(' ');
            out.push('P');
            crate::text::push_decimal(&mut out, index as u64);
        } else {
            out.push('6');
            out.push(' ');
            out.push('P');
            crate::text::push_decimal(&mut out, index as u64);
            out.push(' ');
            out.push('S');
            let s: u64 = if speed > 1000 { 1000 } else { speed as u64 };
            crate::text::push_decimal(&mut out, (s * 255 + 500) / 1000);
        }
        proof {
            assert(out@ =~= fan_cmd_text(index, speed));
        }
        text_of(&out)
    }

    /// Saves the current position in the printer.
    pub fn get_save_position_cmd(&self) -> (r: String)
        ensures
            r@ == seq!['G', '6', '0'],
    {
        proof {
            reveal_strlit("G60");
        }
        let r = literal("G60");
        assert(r@ =~= seq!['G', '6', '0']);
        r
    }

    /// Returns to the saved position.
    pub fn get_restore_position_cmd(&self) -> (r: String)
        ensures
            r@ == seq!['G', '6', '1', ' ', 'X', ' ', 'Y', ' ', 'Z'],
    {
        proof {
            reveal_strlit("G61 X Y Z");
        }
        let r = literal("G61 X Y Z");
        assert(r@ =~= seq!['G', '6', '1', ' ', 'X', ' ', 'Y', ' ', 'Z']);
        r
    }

    /// Asks the printer to report its position.
    pub fn get_report_position_cmd(&self) -> (r: String)
        ensures
            r@ == seq!['M', '1', '1', '4'],
    {
        proof {
            reveal_strlit("M114");
        }
        let r = literal("M114");
        assert(r@ =~= seq!['M', '1', '1', '4']);
        r
    }

    /// Retracts the filament before a pause.
    pub fn get_retract_extruder_cmd(&self) -> (r: String)
        ensures
            r@ == seq!['G', '1', '0'],
    {
        proof {
            reveal_strlit("G10");
        }
        let r = literal("G10");
        assert(r@ =~= seq!['G', '1', '0']);
        r
    }

    /// Recovers the filament retracted before a pause.
    pub fn get_recover_extruder_cmd(&self) -> (r: String)
        ensures
            r@ == seq!['G', '1', '1'],
    {
        proof {
            reveal_strlit("G11");
        }
        let r = literal("G11");
        assert(r@ =~= seq!['G', '1', '1']);
        r
    }

    /// Frames a streamed command with its line number and checksum.
    pub fn add_message_frame(&self, line_no: u32, cmd: &str) -> (r: String)
        ensures
            r@ == frame_text(line_no, cmd@),
    {
        let mut out: Vec<char> = Vec::new();
        out.push('N');
        crate::text::push_decimal(&mut out, line_no as u64);
        out.push(' ');
        crate::text::push_str(&mut out, cmd);
        proof {
            assert(out@ =~= frame_prefix(line_no, cmd@));
        }
        let prefix = text_of(&out);
        let bytes = prefix.as_str().as_bytes();
        let mut sum: u8 = 0;
        let mut i: usize = 0;
        while i < bytes.len()
            invariant
                0 <= i <= bytes@.len(),
                bytes@ == vstd::utf8::encode_utf8(out@),
                sum == xor_all(bytes@.subrange(0, i as int)),
            decreases bytes@.len() - i,
        {
            assert(bytes@.subrange(0, i + 1).drop_last() =~= bytes@.subrange(0, i as int));
            sum = sum ^ bytes[i];
            i = i + 1;
        }
        proof {
            assert(bytes@.subrange(0, bytes@.len() as int) =~= bytes@);
        }
        out.push('*');
        crate::text::push_decimal(&mut out, sum as u64);
        text_of(&out)
    }
}

} // verus!

verus! {

// ---------------------------------------------------------------------------
// Position reports
// ---------------------------------------------------------------------------

/// One coordinate of a position report: `A:<value with five decimals>`.
pub open spec fn coord_text(a: char, v: i64) -> Seq<char> {
    seq![a, ':'] + crate::text::fixed5(v as int)
}

/// A position report `X:<x> Y:<y> Z:<z> E:<e>`, as the printer sends it.
pub open spec fn position_report_text(p: Position) -> Seq<char> {
    coord_text('X', p.x) + seq![' '] + coord_text('Y', p.y) + seq![' '] + coord_text('Z', p.z)
        + seq![' '] + coord_text('E', p.e)
}

/// Coordinates whose integer part a report can carry.
pub open spec fn reportable(v: i64) -> bool {
    -100000000000000 < v < 100000000000000
}

impl Marlin {
    /// The position report for `p`.
    pub fn get_position_report(&self, p: &Position) -> (r: String)
        ensures
            r@ == position_report_text(*p),
    {
        let mut out: Vec<char> = Vec::new();
        out.push('X');
        out.push(':');
        crate::text::push_fixed5(&mut out, p.x);
        out.push(' ');
        out.push('Y');
        out.push(':');
        crate::text::push_fixed5(&mut out, p.y);
        out.push(' ');
        out.push('Z');
        out.push(':');
        crate::text::push_fixed5(&mut out, p.z);
        out.push(' ');
        out.push('E');
        out.push(':');
        crate::text::push_fixed5(&mut out, p.e);
        proof {
            assert(out@ =~= position_report_text(*p));
        }
        text_of(&out)
    }
}

/// A digit character has the value it was made from.
pub proof fn lemma_digit_char(d: int)
    requires
        0 <= d <= 9,
    ensures
        is_digit(crate::text::digit_char(d)),
        digit_of(crate::text::digit_char(d)) == d,
{
}

/// A decimal rendering is a non-empty run of digits worth `n`.
pub proof fn lemma_decimal(n: nat)
    ensures
        crate::text::decimal(n).len() >= 1,
        forall|i: int| 0 <= i < crate::text::decimal(n).len() ==> is_digit(
            #[trigger] crate::text::decimal(n)[i],
        ),
        digits_value(crate::text::decimal(n)) == n,
    decreases n,
{
    let c = crate::text::digit_char((n % 10) as int);
    lemma_digit_char((n % 10) as int);
    if n < 10 {
        assert(crate::text::decimal(n) == seq![c]);
        assert(seq![c].drop_last() =~= Seq::<char>::empty());
        assert(digits_value(seq![c]) == digits_value(Seq::<char>::empty()) * 10 + digit_of(c));
    } else {
        lemma_decimal(n / 10);
        let d = crate::text::decimal(n / 10);
        assert(crate::text::decimal(n) == d.push(c));
        crate::text::lemma_digits_value_push(d, c);
        assert forall|i: int| 0 <= i < d.push(c).len() implies is_digit(#[trigger] d.push(c)[i]) by {
            if i < d.len() {
                assert(d.push(c)[i] == d[i]);
            }
        }
    }
}

/// The digits of a fraction `f < 100000`, five of them.
pub open spec fn five_digits(f: int) -> Seq<char> {
    seq![
        crate::text::digit_char(f / 10000),
        crate::text::digit_char((f / 1000) % 10),
        crate::text::digit_char((f / 100) % 10),
        crate::text::digit_char((f / 10) % 10),
        crate::text::digit_char(f % 10),
    ]
}

/// The unsigned part of a fixed-point rendering.
pub open spec fn unsigned5(a: nat) -> Seq<char> {
    crate::text::decimal(a / 100000) + seq!['.'] + five_digits((a % 100000) as int)
}

/// A run of digits from `p` up to a non-digit (or the end) at `q`.
pub proof fn lemma_run_to(s: Seq<char>, p: int, q: int)
    requires
        0 <= p <= q <= s.len(),
        forall|k: int| p <= k < q ==> is_digit(#[trigger] s[k]),
        q == s.len() || !is_digit(s[q]),
    ensures
        digit_run_end(s, p) == q,
    decreases q - p,
{
    if p < q {
        lemma_run_to(s, p + 1, q);
    }
}

proof fn lemma_five_digit_sum(f: int)
    requires
        0 <= f < 100000,
    ensures
        (f / 10000) * 10000 + ((f / 1000) % 10) * 1000 + ((f / 100) % 10) * 100 + ((f / 10) % 10)
            * 10 + f % 10 == f,
{
    assert((f / 10000) * 10000 + ((f / 1000) % 10) * 1000 + ((f / 100) % 10) * 100 + ((f / 10)
        % 10) * 10 + f % 10 == f) by (nonlinear_arith)
        requires 0 <= f < 100000;
}

/// The first powers of ten.
pub proof fn lemma_pow10_small()
    ensures
        pow10(0) == 1,
        pow10(1) == 10,
        pow10(2) == 100,
        pow10(3) == 1000,
        pow10(4) == 10000,
        pow10(5) == 100000,
{
    assert(pow10(0) == 1);
    assert(pow10(1) == 10 * pow10(0));
    assert(pow10(2) == 10 * pow10(1));
    assert(pow10(3) == 10 * pow10(2));
    assert(pow10(4) == 10 * pow10(3));
    assert(pow10(5) == 10 * pow10(4));
}

/// Scaling a fraction peels off its first digit.
pub proof fn lemma_frac_step(t: Seq<char>, c: char, k: nat)
    ensures
        frac_scaled(seq![c] + t, k + 1) == digit_of(c) * pow10(k) + frac_scaled(t, k),
{
    assert((seq![c] + t).skip(1) =~= t);
    assert((seq![c] + t)[0] == c);
}

proof fn lemma_five_digits(f: int)
    requires
        0 <= f < 100000,
    ensures
        frac_scaled(five_digits(f), 5) == f,
        forall|i: int| 0 <= i < 5 ==> is_digit(#[trigger] five_digits(f)[i]),
{
    let d0 = f / 10000;
    let d1 = (f / 1000) % 10;
    let d2 = (f / 100) % 10;
    let d3 = (f / 10) % 10;
    let d4 = f % 10;
    lemma_digit_char(d0);
    lemma_digit_char(d1);
    lemma_digit_char(d2);
    lemma_digit_char(d3);
    lemma_digit_char(d4);
    let c0 = crate::text::digit_char(d0);
    let c1 = crate::text::digit_char(d1);
    let c2 = crate::text::digit_char(d2);
    let c3 = crate::text::digit_char(d3);
    let c4 = crate::text::digit_char(d4);
    let s0 = Seq::<char>::empty();
    let s1 = seq![c4] + s0;
    let s2 = seq![c3] + s1;
    let s3 = seq![c2] + s2;
    let s4 = seq![c1] + s3;
    let s5 = seq![c0] + s4;
    assert(s5 =~= five_digits(f));
    lemma_pow10_small();
    assert(frac_scaled(s0, 0) == 0);
    lemma_frac_step(s0, c4, 0);
    lemma_frac_step(s1, c3, 1);
    lemma_frac_step(s2, c2, 2);
    lemma_frac_step(s3, c1, 3);
    lemma_frac_step(s4, c0, 4);
    lemma_five_digit_sum(f);
    assert forall|i: int| 0 <= i < 5 implies is_digit(#[trigger] five_digits(f)[i]) by {
        if i == 0 {
        } else if i == 1 {
        } else if i == 2 {
        } else if i == 3 {
        } else {
        }
    }
}

/// An unsigned fixed-point rendering at `p`, followed by a non-digit or the
/// end, reads back as its value.
#[verifier::rlimit(50)]
proof fn lemma_unsigned_number(s: Seq<char>, p: int, a: nat)
    requires
        a < 100000000000000,
        0 <= p,
        p + unsigned5(a).len() <= s.len(),
        s.subrange(p, p + unsigned5(a).len()) == unsigned5(a),
        p + unsigned5(a).len() == s.len() || !is_digit(s[p + unsigned5(a).len()]),
    ensures
        number_at(s, p, 5) == Some((a as int, p + unsigned5(a).len())),
{
    let w: nat = a / 100000;
    let f: int = (a % 100000) as int;
    let d = crate::text::decimal(w);
    let fr = five_digits(f);
    let u = unsigned5(a);
    lemma_decimal(w);
    lemma_five_digits(f);
    let e1 = p + d.len();
    let e2 = e1 + 6;
    assert(u.len() == d.len() + 6);
    assert forall|k: int| p <= k < e1 implies is_digit(#[trigger] s[k]) by {
        assert(s[k] == u[k - p]);
        assert(u[k - p] == d[k - p]);
    }
    assert(s[e1] == u[d.len() as int]);
    assert(s[e1] == '.');
    lemma_run_to(s, p, e1);
    assert forall|k: int| e1 + 1 <= k < e2 implies is_digit(#[trigger] s[k]) by {
        assert(s[k] == u[k - p]);
        assert(u[k - p] == fr[k - e1 - 1]);
    }
    lemma_run_to(s, e1 + 1, e2);
    assert(s.subrange(p, e1) =~= d) by {
        assert forall|k: int| 0 <= k < d.len() implies s.subrange(p, e1)[k] == d[k] by {
            assert(s[p + k] == u[k]);
        }
    }
    assert(s.subrange(e1 + 1, e2) =~= fr) by {
        assert forall|k: int| 0 <= k < 5 implies s.subrange(e1 + 1, e2)[k] == fr[k] by {
            assert(s[e1 + 1 + k] == u[d.len() + 1 + k]);
        }
    }
    assert(w < NUMBER_CAP);
    lemma_pow10_small();
    assert(w * 100000 + f == a);
}

/// A coordinate written at `l.len()`, followed by nothing or a space, reads
/// back as its axis and value.
#[verifier::rlimit(50)]
proof fn lemma_coord_token(l: Seq<char>, a: char, v: i64, r: Seq<char>)
    requires
        axis_of(a) is Some,
        reportable(v),
        r.len() == 0 || r[0] == ' ',
    ensures
        pos_token_at(l + coord_text(a, v) + r, l.len() as int) == Some(
            (axis_of(a).unwrap(), v as int, (l + coord_text(a, v)).len() as int),
        ),
{
    let s = l + coord_text(a, v) + r;
    let i = l.len() as int;
    let av: nat = (if v < 0 { -v } else { v as int }) as nat;
    let u = unsigned5(av);
    let sign = if v < 0 { seq!['-'] } else { Seq::<char>::empty() };
    assert(crate::text::fixed5(v as int) =~= sign + u);
    let c = coord_text(a, v);
    assert(c =~= seq![a, ':'] + sign + u);
    let p = i + 2 + sign.len();
    let q = p + u.len();
    lemma_decimal(av / 100000);
    assert(s[i] == c[0]);
    assert(s[i + 1] == c[1]);
    assert(u[0] == crate::text::decimal(av / 100000)[0]);
    assert(v < 0 ==> s[i + 2] == '-');
    assert(v >= 0 ==> s[i + 2] == u[0]);
    assert(s.subrange(p, q) =~= u) by {
        assert forall|k: int| 0 <= k < u.len() implies s.subrange(p, q)[k] == u[k] by {
            assert(s[p + k] == c[2 + sign.len() + k]);
        }
    }
    assert(q == (l + c).len());
    if q < s.len() {
        assert(s[q] == r[0]);
    }
    lemma_unsigned_number(s, p, av);
}

/// Scanning a report over a coordinate sets that coordinate and moves past
/// the space after it.
proof fn lemma_scan_coord(l: Seq<char>, a: char, v: i64, r: Seq<char>, pos: Position)
    requires
        axis_of(a) is Some,
        reportable(v),
        r.len() == 0 || r[0] == ' ',
    ensures
        r.len() == 0 ==> positions_from(l + coord_text(a, v) + r, l.len() as int, pos) == set_axis(
            pos,
            axis_of(a).unwrap(),
            v as int,
        ),
        r.len() > 0 ==> positions_from(l + coord_text(a, v) + r, l.len() as int, pos)
            == positions_from(
            l + coord_text(a, v) + r,
            (l + coord_text(a, v)).len() as int + 1,
            set_axis(pos, axis_of(a).unwrap(), v as int),
        ),
{
    let s = l + coord_text(a, v) + r;
    let e = (l + coord_text(a, v)).len() as int;
    lemma_coord_token(l, a, v, r);
    let moved = set_axis(pos, axis_of(a).unwrap(), v as int);
    assert(positions_from(s, l.len() as int, pos) == positions_from(s, e, moved));
    if r.len() > 0 {
        assert(s[e] == ' ');
        assert(pos_token_at(s, e) is None);
        assert(positions_from(s, e, moved) == positions_from(s, e + 1, moved));
    } else {
        assert(e == s.len());
    }
}

/// `t` holds no `b`.
pub open spec fn no_b(t: Seq<char>) -> bool {
    forall|i: int| 0 <= i < t.len() ==> (#[trigger] t[i]) != 'b'
}

/// Joining two texts without `b` gives one without `b`.
pub proof fn lemma_no_b_concat(a: Seq<char>, b: Seq<char>)
    requires
        no_b(a),
        no_b(b),
    ensures
        no_b(a + b),
{
    assert forall|i: int| 0 <= i < (a + b).len() implies (#[trigger] (a + b)[i]) != 'b' by {
        if i < a.len() {
            assert((a + b)[i] == a[i]);
        } else {
            assert((a + b)[i] == b[i - a.len()]);
        }
    }
}

proof fn lemma_coord_no_b(a: char, v: i64)
    requires
        a != 'b',
    ensures
        no_b(coord_text(a, v)),
{
    let av: nat = (if v < 0 { -v } else { v as int }) as nat;
    let d = crate::text::decimal(av / 100000);
    let fr = five_digits((av % 100000) as int);
    let sign = if v < 0 { seq!['-'] } else { Seq::<char>::empty() };
    lemma_decimal(av / 100000);
    lemma_five_digits((av % 100000) as int);
    assert(no_b(d));
    assert(no_b(fr));
    assert(no_b(sign));
    assert(no_b(seq![a, ':']));
    assert(no_b(seq!['.']));
    lemma_no_b_concat(seq![a, ':'], sign);
    lemma_no_b_concat(seq![a, ':'] + sign, d);
    lemma_no_b_concat(seq![a, ':'] + sign + d, seq!['.']);
    lemma_no_b_concat(seq![a, ':'] + sign + d + seq!['.'], fr);
    assert(coord_text(a, v) =~= seq![a, ':'] + sign + d + seq!['.'] + fr);
}

/// A fixed-point rendering ends in a digit.
proof fn lemma_fixed5_last(v: i64)
    ensures
        crate::text::fixed5(v as int).len() > 0,
        is_digit(crate::text::fixed5(v as int).last()),
{
    let av: int = if v < 0 { -v } else { v as int };
    lemma_digit_char(av % 100000 % 10);
}

/// A position report is recognised as one.
proof fn lemma_report_recognised(s: Seq<char>)
    requires
        s.len() >= 2,
        s[0] == 'X',
        s[1] == ':',
        !is_ws(s.last()),
        no_b(s),
    ensures
        trim(s) == s,
        !has_prefix(s, ok_tag()),
        !contains(s, busy_tag()),
        !has_prefix(s, temp_tag()),
        has_prefix(s, pos_tag()),
{
    assert(crate::job::trim_end(s) == s);
    assert(trim_start(s) == s);
    if contains(s, busy_tag()) {
        let k = choose|k: int| contains_at(s, busy_tag(), k);
        assert(s.subrange(k, k + 5)[0] == s[k]);
        assert(false);
    }
    assert(s.subrange(0, 2)[0] == 'X');
    assert(s.subrange(0, 2) =~= pos_tag());
}

/// A position report reads back as the position it was written from.
#[verifier::rlimit(50)]
pub proof fn lemma_position_report_round_trip(p: Position)
    requires
        reportable(p.x),
        reportable(p.y),
        reportable(p.z),
        reportable(p.e),
    ensures
        parse_rx_spec(position_report_text(p)) == Ok::<ResponseView, ErrorKind>(
            ResponseView::POSITION(p),
        ),
{
    let tx = coord_text('X', p.x);
    let ty = coord_text('Y', p.y);
    let tz = coord_text('Z', p.z);
    let te = coord_text('E', p.e);
    let sp = seq![' '];
    let s = position_report_text(p);
    let o = Position { x: 0, y: 0, z: 0, e: 0 };
    let with_x = set_axis(o, Axis::X, p.x as int);
    let with_xy = set_axis(with_x, Axis::Y, p.y as int);
    let with_xyz = set_axis(with_xy, Axis::Z, p.z as int);
    let with_all = set_axis(with_xyz, Axis::E, p.e as int);
    let e = Seq::<char>::empty();
    let r0 = sp + ty + sp + tz + sp + te;
    assert(s =~= e + tx + r0);
    lemma_scan_coord(e, 'X', p.x, r0, o);
    let l1 = tx + sp;
    let r1 = sp + tz + sp + te;
    assert(s =~= l1 + ty + r1);
    assert((e + tx).len() + 1 == l1.len());
    lemma_scan_coord(l1, 'Y', p.y, r1, with_x);
    let l2 = l1 + ty + sp;
    let r2 = sp + te;
    assert(s =~= l2 + tz + r2);
    lemma_scan_coord(l2, 'Z', p.z, r2, with_xy);
    let l3 = l2 + tz + sp;
    assert(s =~= l3 + te + e);
    lemma_scan_coord(l3, 'E', p.e, e, with_xyz);
    assert(positions_from(s, 0, o) == with_all);
    assert(with_all == p);
    lemma_coord_no_b('X', p.x);
    lemma_coord_no_b('Y', p.y);
    lemma_coord_no_b('Z', p.z);
    lemma_coord_no_b('E', p.e);
    assert(no_b(sp));
    lemma_no_b_concat(tx, sp);
    lemma_no_b_concat(tx + sp, ty);
    lemma_no_b_concat(tx + sp + ty, sp);
    lemma_no_b_concat(tx + sp + ty + sp, tz);
    lemma_no_b_concat(tx + sp + ty + sp + tz, sp);
    lemma_no_b_concat(tx + sp + ty + sp + tz + sp, te);
    lemma_fixed5_last(p.e);
    assert(s.last() == te.last());
    lemma_report_recognised(s);
}

} // verus!
