//! Character-level helpers shared by the wire protocol and the job reader:
//! digit runs, decimal rendering and fixed-point numbers.
use vstd::prelude::*;
use vstd::std_specs::iter::IteratorSpec;

verus! {

/// The characters of `s`, in order.
pub fn char_vec(s: &str) -> (r: Vec<char>)
    ensures
        r@ == s@,
{
    broadcast use vstd::string::axiom_spec_iter, vstd::string::next_postcondition;

    let mut it = s.chars();
    let mut out: Vec<char> = Vec::new();
    loop
        invariant
            out@ + IteratorSpec::remaining(&it) == s@,
            IteratorSpec::decrease(&it) is Some,
        decreases IteratorSpec::decrease(&it)->0,
    {
        let ghost before = IteratorSpec::remaining(&it);
        match it.next() {
            Some(c) => {
                out.push(c);
                assert(out@ + IteratorSpec::remaining(&it) =~= s@) by {
                    assert(before =~= seq![c] + before.drop_first());
                }
            },
            None => {
                assert(out@ =~= s@);
                return out;
            },
        }
    }
}

/// Relies on `FromIterator<char>` for `String`: the string made of `v`'s characters.
#[verifier::external_body]
pub(crate) fn string_of(v: &Vec<char>) -> (r: String)
    ensures
        r@ == v@,
{
    v.iter().collect()
}

pub open spec fn is_digit(c: char) -> bool {
    '0' <= c && c <= '9'
}

pub open spec fn digit_of(c: char) -> int {
    c as int - '0' as int
}

/// The ASCII whitespace characters that the wire and the job files use.
pub open spec fn is_ws(c: char) -> bool {
    c == ' ' || c == '\t' || c == '\n' || c == '\r' || c == '\x0B' || c == '\x0C'
}

/// The value of a sequence of decimal digits.
pub open spec fn digits_value(s: Seq<char>) -> int
    decreases s.len(),
{
    if s.len() == 0 {
        0
    } else {
        digits_value(s.drop_last()) * 10 + digit_of(s.last())
    }
}

/// The end of the run of digits that starts at `i`.
pub open spec fn digit_run_end(s: Seq<char>, i: int) -> int
    decreases s.len() - i,
{
    if 0 <= i < s.len() && is_digit(s[i]) {
        digit_run_end(s, i + 1)
    } else {
        i
    }
}

pub open spec fn pow10(k: nat) -> nat
    decreases k,
{
    if k == 0 {
        1
    } else {
        10 * pow10((k - 1) as nat)
    }
}

/// The first `k` fractional digits `f`, as an integer in units of `10^-k`
/// (missing digits count as zero, further digits are dropped).
pub open spec fn frac_scaled(f: Seq<char>, k: nat) -> int
    decreases k,
{
    if k == 0 {
        0
    } else {
        let d = if f.len() > 0 { digit_of(f[0]) } else { 0 };
        d * pow10((k - 1) as nat) + frac_scaled(if f.len() > 0 { f.skip(1) } else { f }, (k - 1) as nat)
    }
}

pub open spec fn digit_char(d: int) -> char {
    if d == 0 { '0' }
    else if d == 1 { '1' }
    else if d == 2 { '2' }
    else if d == 3 { '3' }
    else if d == 4 { '4' }
    else if d == 5 { '5' }
    else if d == 6 { '6' }
    else if d == 7 { '7' }
    else if d == 8 { '8' }
    else { '9' }
}

/// The decimal rendering of `n`, without leading zeros.
pub open spec fn decimal(n: nat) -> Seq<char>
    decreases n,
{
    if n < 10 {
        seq![digit_char(n as int)]
    } else {
        decimal(n / 10).push(digit_char((n % 10) as int))
    }
}

/// A fixed-point value in units of `10^-5`, rendered with exactly five decimals.
pub open spec fn fixed5(v: int) -> Seq<char> {
    let a: int = if v < 0 { -v } else { v };
    let f: int = a % 100000;
    (if v < 0 { seq!['-'] } else { Seq::<char>::empty() }) + decimal((a / 100000) as nat) + seq![
        '.',
        digit_char(f / 10000),
        digit_char((f / 1000) % 10),
        digit_char((f / 100) % 10),
        digit_char((f / 10) % 10),
        digit_char(f % 10),
    ]
}

pub fn digit_char_exec(d: u64) -> (c: char)
    requires
        d < 10,
    ensures
        c == digit_char(d as int),
{
    if d == 0 { '0' }
    else if d == 1 { '1' }
    else if d == 2 { '2' }
    else if d == 3 { '3' }
    else if d == 4 { '4' }
    else if d == 5 { '5' }
    else if d == 6 { '6' }
    else if d == 7 { '7' }
    else if d == 8 { '8' }
    else { '9' }
}

/// Appends the decimal rendering of `n` to `out`.
pub fn push_decimal(out: &mut Vec<char>, n: u64)
    ensures
        final(out)@ == old(out)@ + decimal(n as nat),
    decreases n,
{
    if n < 10 {
        out.push(digit_char_exec(n));
    } else {
        push_decimal(out, n / 10);
        out.push(digit_char_exec(n % 10));
    }
}

/// Appends the characters of `s` to `out`.
pub fn push_str(out: &mut Vec<char>, s: &str)
    ensures
        final(out)@ == old(out)@ + s@,
{
    let v = char_vec(s);
    let mut i: usize = 0;
    while i < v.len()
        invariant
            0 <= i <= v@.len(),
            v@ == s@,
            out@ == old(out)@ + v@.subrange(0, i as int),
        decreases v@.len() - i,
    {
        out.push(v[i]);
        i = i + 1;
        assert(v@.subrange(0, i as int) == v@.subrange(0, i - 1).push(v@[i - 1]));
    }
    assert(v@.subrange(0, v@.len() as int) == v@);
}

/// Appends a fixed-point value in units of `10^-5` with five decimals.
pub fn push_fixed5(out: &mut Vec<char>, v: i64)
    ensures
        final(out)@ == old(out)@ + fixed5(v as int),
{
    let a: u64 = if v < 0 {
        (0i128 - v as i128) as u64
    } else {
        v as u64
    };
    let f = a % 100000;
    let ghost start = out@;
    if v < 0 {
        out.push('-');
    }
    push_decimal(out, a / 100000);
    out.push('.');
    out.push(digit_char_exec(f / 10000));
    out.push(digit_char_exec((f / 1000) % 10));
    out.push(digit_char_exec((f / 100) % 10));
    out.push(digit_char_exec((f / 10) % 10));
    out.push(digit_char_exec(f % 10));
    assert(out@ =~= start + fixed5(v as int));
}

pub proof fn lemma_digits_value_push(s: Seq<char>, c: char)
    ensures
        digits_value(s.push(c)) == digits_value(s) * 10 + digit_of(c),
{
    assert(s.push(c).drop_last() =~= s);
}

pub proof fn lemma_digits_value_nonneg(s: Seq<char>)
    requires
        forall|i: int| 0 <= i < s.len() ==> is_digit(#[trigger] s[i]),
    ensures
        digits_value(s) >= 0,
    decreases s.len(),
{
    if s.len() > 0 {
        lemma_digits_value_nonneg(s.drop_last());
    }
}

/// The end of a digit run lies at or after its start, and everything in between is a digit.
pub proof fn lemma_digit_run(s: Seq<char>, i: int)
    requires
        0 <= i <= s.len(),
    ensures
        i <= digit_run_end(s, i) <= s.len(),
        forall|k: int| i <= k < digit_run_end(s, i) ==> is_digit(#[trigger] s[k]),
        digit_run_end(s, i) < s.len() ==> !is_digit(s[digit_run_end(s, i)]),
    decreases s.len() - i,
{
    if i < s.len() && is_digit(s[i]) {
        lemma_digit_run(s, i + 1);
    }
}

/// Scans a digit run from `i`; returns its end and its value capped at `cap`
/// (the cap is reached exactly when the value is at least `cap`).
pub fn scan_digits(s: &Vec<char>, i: usize, cap: u64) -> (r: (usize, u64))
    requires
        i <= s@.len(),
        cap < u64::MAX / 16,
    ensures
        r.0 == digit_run_end(s@, i as int),
        digits_value(s@.subrange(i as int, r.0 as int)) >= cap ==> r.1 == cap,
        digits_value(s@.subrange(i as int, r.0 as int)) < cap ==> r.1 == digits_value(
            s@.subrange(i as int, r.0 as int),
        ),
{
    proof {
        lemma_digit_run(s@, i as int);
    }
    let mut j = i;
    let mut val: u64 = 0;
    while j < s.len() && '0' <= s[j] && s[j] <= '9'
        invariant
            i <= j <= s@.len(),
            digit_run_end(s@, j as int) == digit_run_end(s@, i as int),
            cap < u64::MAX / 16,
            val <= cap,
            forall|k: int| i <= k < j ==> is_digit(#[trigger] s@[k]),
            digits_value(s@.subrange(i as int, j as int)) >= cap ==> val == cap,
            digits_value(s@.subrange(i as int, j as int)) < cap ==> val == digits_value(
                s@.subrange(i as int, j as int),
            ),
        decreases s@.len() - j,
    {
        let d = (s[j] as u32 - '0' as u32) as u64;
        let ghost prev = s@.subrange(i as int, j as int);
        proof {
            lemma_digits_value_push(prev, s@[j as int]);
            assert(s@.subrange(i as int, j + 1) =~= prev.push(s@[j as int]));
            lemma_digits_value_nonneg(prev);
        }
        let next = val * 10 + d;
        val = if next >= cap { cap } else { next };
        j = j + 1;
    }
    (j, val)
}

} // verus!

verus! {

/// The characters of `v` from `from` up to `to`, as a string.
pub fn sub_string(v: &Vec<char>, from: usize, to: usize) -> (r: String)
    requires
        from <= to <= v@.len(),
    ensures
        r@ == v@.subrange(from as int, to as int),
{
    let mut out: Vec<char> = Vec::new();
    let mut i = from;
    while i < to
        invariant
            from <= i <= to <= v@.len(),
            out@ == v@.subrange(from as int, i as int),
        decreases to - i,
    {
        out.push(v[i]);
        i = i + 1;
        assert(out@ =~= v@.subrange(from as int, i as int));
    }
    string_of(&out)
}

/// Whether `v` holds the characters of `p` at position `at`.
pub fn has_at(v: &Vec<char>, at: usize, p: &Vec<char>) -> (r: bool)
    ensures
        r == (at + p@.len() <= v@.len() && v@.subrange(at as int, at + p@.len()) == p@),
{
    if at > v.len() || p.len() > v.len() - at {
        return false;
    }
    let mut k: usize = 0;
    while k < p.len()
        invariant
            at as int + p@.len() <= v@.len(),
            v@.len() <= usize::MAX,
            0 <= k <= p@.len(),
            forall|j: int| 0 <= j < k ==> v@[at + j] == p@[j],
        decreases p@.len() - k,
    {
        if v[at + k] != p[k] {
            assert(v@.subrange(at as int, at + p@.len())[k as int] != p@[k as int]);
            return false;
        }
        k = k + 1;
    }
    assert(v@.subrange(at as int, at + p@.len()) =~= p@);
    true
}


/// The first `k` digits between `from` and `to` as a fraction (see `frac_scaled`).
pub fn frac_value(s: &Vec<char>, from: usize, to: usize, k: u32) -> (r: u64)
    requires
        from <= to <= s@.len(),
        k <= 5,
        forall|i: int| from <= i < to ==> is_digit(#[trigger] s@[i]),
    ensures
        r == frac_scaled(s@.subrange(from as int, to as int), k as nat),
        r < pow10(k as nat),
    decreases k,
{
    if k == 0 {
        return 0;
    }
    let ghost f = s@.subrange(from as int, to as int);
    let mut p: u64 = 1;
    let mut j: u32 = 1;
    while j < k
        invariant
            1 <= j <= k <= 5,
            p == pow10((j - 1) as nat),
            p <= 10000,
        decreases k - j,
    {
        proof {
            if j == 1 { } else if j == 2 { } else if j == 3 { } else { }
            assert(pow10(j as nat) == 10 * pow10((j - 1) as nat));
            assert(pow10(0) == 1);
            assert(pow10(1) == 10) by { reveal_with_fuel(pow10, 2); }
            assert(pow10(2) == 100) by { reveal_with_fuel(pow10, 3); }
            assert(pow10(3) == 1000) by { reveal_with_fuel(pow10, 4); }
        }
        p = p * 10;
        j = j + 1;
    }
    let d: u64 = if from < to { (s[from] as u32 - '0' as u32) as u64 } else { 0 };
    let next_from = if from < to { from + 1 } else { from };
    let rest = frac_value(s, next_from, to, k - 1);
    proof {
        if from < to {
            assert(f.skip(1) =~= s@.subrange(next_from as int, to as int));
        } else {
            assert(f =~= s@.subrange(next_from as int, to as int));
        }
        assert(pow10(k as nat) == 10 * pow10((k - 1) as nat));
        assert(d <= 9);
        assert(d * p + rest < pow10(k as nat)) by (nonlinear_arith)
            requires d <= 9, p == pow10((k - 1) as nat), rest < p,
                pow10(k as nat) == 10 * pow10((k - 1) as nat);
    }
    d * p + rest
}

/// A digit run read inside a suffix ends where it ends in the whole sequence.
pub proof fn lemma_run_shift(s: Seq<char>, from: int, i: int)
    requires
        0 <= from <= i <= s.len(),
    ensures
        digit_run_end(s.subrange(from, s.len() as int), i - from) == digit_run_end(s, i) - from,
    decreases s.len() - i,
{
    let t = s.subrange(from, s.len() as int);
    if i < s.len() && is_digit(s[i]) {
        assert(t[i - from] == s[i]);
        lemma_run_shift(s, from, i + 1);
    } else if i < s.len() {
        assert(t[i - from] == s[i]);
    }
}

} // verus!
