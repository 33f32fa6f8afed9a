//! The firmware's capability report (the reply to `M115`) and the check that
//! the firmware is one this library speaks to.
use vstd::prelude::*;
use crate::text::{char_vec, string_of};
use crate::types::PrinterInfo;
use crate::job::{has_prefix, trim_end};

verus! {

pub type Entries = Seq<(Seq<char>, Seq<char>)>;

/// The key/value pairs of a capability list.
pub open spec fn info_view(info: PrinterInfo) -> Entries {
    info.values@.map_values(|p: (String, String)| (p.0@, p.1@))
}

pub open spec fn firmware_key() -> Seq<char> {
    seq!['F', 'I', 'R', 'M', 'W', 'A', 'R', 'E', '_', 'N', 'A', 'M', 'E']
}

/// The index of the first entry with key `k` at or after `i`, or `m.len()`.
pub open spec fn find_key(m: Entries, k: Seq<char>, i: int) -> int
    decreases m.len() - i,
{
    if i < 0 || i >= m.len() {
        m.len() as int
    } else if m[i].0 == k {
        i
    } else {
        find_key(m, k, i + 1)
    }
}

/// The firmware name in a capability list.
pub open spec fn firmware_of(m: Entries) -> Option<Seq<char>> {
    let i = find_key(m, firmware_key(), 0);
    if i < m.len() {
        Some(m[i].1)
    } else {
        None
    }
}

/// `marlin` in any mix of upper and lower case, at `i`.
pub open spec fn marlin_at(s: Seq<char>, i: int) -> bool {
    &&& 0 <= i && i + 6 <= s.len()
    &&& (s[i] == 'm' || s[i] == 'M')
    &&& (s[i + 1] == 'a' || s[i + 1] == 'A')
    &&& (s[i + 2] == 'r' || s[i + 2] == 'R')
    &&& (s[i + 3] == 'l' || s[i + 3] == 'L')
    &&& (s[i + 4] == 'i' || s[i + 4] == 'I')
    &&& (s[i + 5] == 'n' || s[i + 5] == 'N')
}

pub open spec fn names_marlin(s: Seq<char>) -> bool {
    exists|i: int| marlin_at(s, i)
}

/// `m` with key `k` set to `v`: the entry is replaced in place when the key
/// is there, else appended.
pub open spec fn upsert(m: Entries, k: Seq<char>, v: Seq<char>) -> Entries {
    let i = find_key(m, k, 0);
    if i < m.len() {
        m.update(i, (k, v))
    } else {
        m.push((k, v))
    }
}

pub open spec fn upsert_all(m: Entries, es: Entries) -> Entries
    decreases es.len(),
{
    if es.len() == 0 {
        m
    } else {
        upsert(upsert_all(m, es.drop_last()), es.last().0, es.last().1)
    }
}

pub open spec fn is_upper(c: char) -> bool {
    'A' <= c && c <= 'Z'
}

pub open spec fn upper_run_end(s: Seq<char>, i: int) -> int
    decreases s.len() - i,
{
    if 0 <= i < s.len() && is_upper(s[i]) {
        upper_run_end(s, i + 1)
    } else {
        i
    }
}

/// A key token `[A-Z]+(_[A-Z]+)*:` at `i`: the index past its colon.
pub open spec fn key_at(s: Seq<char>, i: int) -> Option<int>
    decreases s.len() - i,
{
    if !(0 <= i < s.len()) || !is_upper(s[i]) {
        None
    } else {
        let j = upper_run_end(s, i);
        if j <= i {
            None
        } else if j < s.len() && s[j] == ':' {
            Some(j + 1)
        } else if j + 1 < s.len() && s[j] == '_' && is_upper(s[j + 1]) {
            key_at(s, j + 1)
        } else {
            None
        }
    }
}

/// The key tokens of `s` from `i` on, as `(start, past the colon)`, scanning
/// left to right without overlap.
pub open spec fn key_tokens(s: Seq<char>, i: int) -> Seq<(int, int)>
    decreases s.len() - i,
{
    if i < 0 || i >= s.len() {
        Seq::empty()
    } else {
        match key_at(s, i) {
            Some(e) => if i < e <= s.len() {
                seq![(i, e)] + key_tokens(s, e)
            } else {
                key_tokens(s, i + 1)
            },
            None => key_tokens(s, i + 1),
        }
    }
}

/// The pairs of the report's first line: each key runs to its colon, and its
/// value to the next key (or the end of the line), without trailing whitespace.
pub open spec fn first_line_entries(s: Seq<char>) -> Entries {
    let ks = key_tokens(s, 0);
    Seq::new(
        ks.len(),
        |k: int|
            (
                s.subrange(ks[k].0, ks[k].1 - 1),
                trim_end(
                    s.subrange(ks[k].1, if k + 1 < ks.len() { ks[k + 1].0 } else { s.len() as int }),
                ),
            ),
    )
}

pub open spec fn first_colon(s: Seq<char>, i: int) -> int
    decreases s.len() - i,
{
    if i < 0 || i >= s.len() {
        s.len() as int
    } else if s[i] == ':' {
        i
    } else {
        first_colon(s, i + 1)
    }
}

pub open spec fn cap_prefix() -> Seq<char> {
    seq!['C', 'a', 'p', ':']
}

/// A `Cap:<key>:<value>` line with exactly one colon after the prefix.
pub open spec fn cap_entry(l: Seq<char>) -> Option<(Seq<char>, Seq<char>)> {
    if has_prefix(l, cap_prefix()) {
        let rest = l.subrange(4, l.len() as int);
        let c = first_colon(rest, 0);
        if c < rest.len() && first_colon(rest, c + 1) == rest.len() {
            Some((rest.subrange(0, c), rest.subrange(c + 1, rest.len() as int)))
        } else {
            None
        }
    } else {
        None
    }
}

pub open spec fn cap_entries(ls: Seq<Seq<char>>) -> Entries
    decreases ls.len(),
{
    if ls.len() == 0 {
        Seq::empty()
    } else {
        let prev = cap_entries(ls.drop_last());
        match cap_entry(ls.last()) {
            Some(e) => prev.push(e),
            None => prev,
        }
    }
}

pub open spec fn first_newline(s: Seq<char>, i: int) -> int
    decreases s.len() - i,
{
    if i < 0 || i >= s.len() {
        s.len() as int
    } else if s[i] == '\n' {
        i
    } else {
        first_newline(s, i + 1)
    }
}

pub open spec fn strip_cr(l: Seq<char>) -> Seq<char> {
    if l.len() > 0 && l.last() == '\r' {
        l.drop_last()
    } else {
        l
    }
}

/// The lines of `s` from `i` on: split at `\n`, a `\r` before the `\n`
/// dropped, no empty line after a final `\n`.
pub open spec fn lines_from(s: Seq<char>, i: int) -> Seq<Seq<char>>
    decreases s.len() - i,
{
    if i < 0 || i >= s.len() {
        Seq::empty()
    } else {
        let k = first_newline(s, i);
        if k >= s.len() || k < i {
            seq![s.subrange(i, s.len() as int)]
        } else {
            seq![strip_cr(s.subrange(i, k))] + lines_from(s, k + 1)
        }
    }
}

/// The pairs of a capability report, in order.
pub open spec fn report_entries(s: Seq<char>) -> Entries {
    let ls = lines_from(s, 0);
    if ls.len() == 0 {
        Seq::empty()
    } else {
        first_line_entries(ls[0]) + cap_entries(ls.skip(1))
    }
}

/// The capability list a report gives: its pairs, a later one with the same
/// key replacing an earlier one.
pub open spec fn report_info(s: Seq<char>) -> Entries {
    upsert_all(Seq::empty(), report_entries(s))
}

} // verus!

verus! {

pub open spec fn entries_view(v: Seq<(String, String)>) -> Entries {
    v.map_values(|p: (String, String)| (p.0@, p.1@))
}

pub open spec fn lines_view(v: Seq<Vec<char>>) -> Seq<Seq<char>> {
    v.map_values(|l: Vec<char>| l@)
}

/// A copy of a capability list.
pub fn copy_info(info: &PrinterInfo) -> (r: PrinterInfo)
    ensures
        info_view(r) == info_view(*info),
{
    let mut out: Vec<(String, String)> = Vec::new();
    let mut i: usize = 0;
    while i < info.values.len()
        invariant
            0 <= i <= info.values@.len(),
            out@ == info.values@.subrange(0, i as int),
        decreases info.values@.len() - i,
    {
        let k = info.values[i].0.clone();
        let v = info.values[i].1.clone();
        out.push((k, v));
        i = i + 1;
        assert(out@ =~= info.values@.subrange(0, i as int));
    }
    assert(info.values@.subrange(0, i as int) =~= info.values@);
    PrinterInfo { values: out }
}

fn key_index(m: &Vec<(String, String)>, k: &String) -> (r: usize)
    ensures
        r == find_key(entries_view(m@), k@, 0),
{
    let mut i: usize = 0;
    while i < m.len() && !(m[i].0 == *k)
        invariant
            0 <= i <= m@.len(),
            find_key(entries_view(m@), k@, i as int) == find_key(entries_view(m@), k@, 0),
        decreases m@.len() - i,
    {
        i = i + 1;
    }
    i
}

/// Whether `s` names `marlin` in any case.
fn names_marlin_exec(s: &Vec<char>) -> (r: bool)
    ensures
        r == names_marlin(s@),
{
    let mut i: usize = 0;
    while i < s.len()
        invariant
            0 <= i <= s@.len(),
            forall|j: int| 0 <= j < i ==> !marlin_at(s@, j),
        decreases s@.len() - i,
    {
        if s.len() - i >= 6 && (s[i] == 'm' || s[i] == 'M') && (s[i + 1] == 'a' || s[i + 1]
            == 'A') && (s[i + 2] == 'r' || s[i + 2] == 'R') && (s[i + 3] == 'l' || s[i + 3]
            == 'L') && (s[i + 4] == 'i' || s[i + 4] == 'I') && (s[i + 5] == 'n' || s[i + 5]
            == 'N') {
            assert(marlin_at(s@, i as int));
            return true;
        }
        i = i + 1;
    }
    false
}

/// Whether the capability list names a Marlin firmware: a `FIRMWARE_NAME`
/// whose value holds `marlin` in any case.
pub fn is_marlin(info: &PrinterInfo) -> (r: bool)
    ensures
        r == (firmware_of(info_view(*info)) is Some && names_marlin(
            firmware_of(info_view(*info)).unwrap(),
        )),
{
    let key = "FIRMWARE_NAME".to_owned();
    proof {
        reveal_strlit("FIRMWARE_NAME");
        assert(key@ =~= firmware_key());
    }
    let i = key_index(&info.values, &key);
    if i >= info.values.len() {
        return false;
    }
    let v = char_vec(info.values[i].1.as_str());
    names_marlin_exec(&v)
}

/// Sets key `k` to `v` (see `upsert`).
fn upsert_exec(m: &mut Vec<(String, String)>, k: String, v: String)
    ensures
        entries_view(final(m)@) == upsert(entries_view(old(m)@), k@, v@),
{
    let i = key_index(m, &k);
    if i < m.len() {
        m.set(i, (k, v));
        proof {
            assert(entries_view(m@) =~= upsert(entries_view(old(m)@), k@, v@));
        }
    } else {
        m.push((k, v));
        proof {
            assert(entries_view(m@) =~= upsert(entries_view(old(m)@), k@, v@));
        }
    }
}

fn split_lines(s: &Vec<char>) -> (r: Vec<Vec<char>>)
    ensures
        lines_view(r@) == lines_from(s@, 0),
{
    let mut out: Vec<Vec<char>> = Vec::new();
    let mut i: usize = 0;
    while i < s.len()
        invariant
            0 <= i <= s@.len(),
            lines_view(out@) + lines_from(s@, i as int) == lines_from(s@, 0),
        decreases s@.len() - i,
    {
        let mut k = i;
        while k < s.len() && s[k] != '\n'
            invariant
                i <= k <= s@.len(),
                first_newline(s@, k as int) == first_newline(s@, i as int),
            decreases s@.len() - k,
        {
            k = k + 1;
        }
        let ghost before = lines_view(out@);
        if k >= s.len() {
            let piece = copy_chars(s, i, k);
            out.push(piece);
            proof {
                assert(lines_from(s@, i as int) == seq![s@.subrange(i as int, s@.len() as int)]);
                assert(lines_from(s@, k as int) =~= Seq::<Seq<char>>::empty());
                assert(lines_view(out@) =~= before + seq![s@.subrange(i as int, s@.len() as int)]);
                assert(lines_view(out@) + lines_from(s@, k as int) =~= lines_from(s@, 0));
            }
            i = k;
        } else {
            let end = if k > i && s[k - 1] == '\r' { k - 1 } else { k };
            let piece = copy_chars(s, i, end);
            out.push(piece);
            proof {
                let l = s@.subrange(i as int, k as int);
                if k > i && s@[k - 1] == '\r' {
                    assert(l.drop_last() =~= s@.subrange(i as int, end as int));
                }
                assert(strip_cr(l) =~= s@.subrange(i as int, end as int));
                assert(lines_from(s@, i as int) == seq![strip_cr(l)] + lines_from(s@, k + 1));
                assert(lines_view(out@) =~= before + seq![strip_cr(l)]);
                assert(lines_view(out@) + lines_from(s@, k + 1) =~= lines_from(s@, 0));
            }
            i = k + 1;
        }
    }
    proof {
        assert(lines_view(out@) + lines_from(s@, i as int) =~= lines_view(out@));
    }
    out
}

fn copy_chars(s: &Vec<char>, from: usize, to: usize) -> (r: Vec<char>)
    requires
        from <= to <= s@.len(),
    ensures
        r@ == s@.subrange(from as int, to as int),
{
    let mut out: Vec<char> = Vec::new();
    let mut i = from;
    while i < to
        invariant
            from <= i <= to <= s@.len(),
            out@ == s@.subrange(from as int, i as int),
        decreases to - i,
    {
        out.push(s[i]);
        i = i + 1;
        assert(out@ =~= s@.subrange(from as int, i as int));
    }
    out
}

fn is_upper_exec(c: char) -> (r: bool)
    ensures
        r == is_upper(c),
{
    'A' <= c && c <= 'Z'
}

fn key_at_exec(s: &Vec<char>, i: usize) -> (r: Option<usize>)
    requires
        i < s@.len(),
    ensures
        r is None <==> key_at(s@, i as int) is None,
        r is Some ==> key_at(s@, i as int) == Some(r.unwrap() as int),
{
    let mut p = i;
    loop
        invariant
            i <= p < s@.len(),
            key_at(s@, p as int) == key_at(s@, i as int),
        decreases s@.len() - p,
    {
        if !is_upper_exec(s[p]) {
            return None;
        }
        let mut j = p;
        while j < s.len() && is_upper_exec(s[j])
            invariant
                p <= j <= s@.len(),
                upper_run_end(s@, j as int) == upper_run_end(s@, p as int),
            decreases s@.len() - j,
        {
            j = j + 1;
        }
        if j < s.len() && s[j] == ':' {
            return Some(j + 1);
        }
        if s.len() - j > 1 && s[j] == '_' && is_upper_exec(s[j + 1]) {
            p = j + 1;
        } else {
            return None;
        }
    }
}

/// The pairs of the report's first line.
fn first_line_exec(s: &Vec<char>) -> (r: Vec<(String, String)>)
    ensures
        entries_view(r@) == first_line_entries(s@),
{
    let mut ks: Vec<(usize, usize)> = Vec::new();
    let mut i: usize = 0;
    while i < s.len()
        invariant
            0 <= i <= s@.len(),
            ks@.map_values(|p: (usize, usize)| (p.0 as int, p.1 as int)) + key_tokens(s@, i as int)
                == key_tokens(s@, 0),
            forall|k: int| 0 <= k < ks@.len() ==> (#[trigger] ks@[k]).0 < ks@[k].1 && ks@[k].1 <= i,
            forall|k: int, l: int| 0 <= k < l < ks@.len() ==> (#[trigger] ks@[k]).1 <= (#[trigger] ks@[l]).0,
        decreases s@.len() - i,
    {
        match key_at_exec(s, i) {
            Some(e) => {
                if i < e && e <= s.len() {
                    let ghost before = ks@.map_values(|p: (usize, usize)| (p.0 as int, p.1 as int));
                    let ghost ks0 = ks@;
                    assert(forall|k: int| 0 <= k < ks0.len() ==> (#[trigger] ks0[k]).1 <= i);
                    ks.push((i, e));
                    proof {
                        assert forall|k: int| 0 <= k < ks@.len() implies (#[trigger] ks@[k]).0 < ks@[k].1 && ks@[k].1 <= e by {
                            if k < ks0.len() {
                                assert(ks@[k] == ks0[k]);
                            }
                        }
                        assert forall|k: int, l: int| 0 <= k < l < ks@.len() implies (#[trigger] ks@[k]).1 <= (#[trigger] ks@[l]).0 by {
                            if l < ks0.len() {
                                assert(ks@[k] == ks0[k]);
                                assert(ks@[l] == ks0[l]);
                            } else {
                                assert(ks@[k] == ks0[k]);
                                assert(ks0[k].1 <= i);
                            }
                        }
                        assert(key_tokens(s@, i as int) == seq![(i as int, e as int)] + key_tokens(s@, e as int));
                        assert(ks@.map_values(|p: (usize, usize)| (p.0 as int, p.1 as int)) =~= before.push((i as int, e as int)));
                        assert(ks@.map_values(|p: (usize, usize)| (p.0 as int, p.1 as int)) + key_tokens(s@, e as int)
                            =~= before + key_tokens(s@, i as int));
                    }
                    i = e;
                } else {
                    i = i + 1;
                }
            },
            None => {
                i = i + 1;
            },
        }
    }
    let ghost kv = ks@.map_values(|p: (usize, usize)| (p.0 as int, p.1 as int));
    proof {
        assert(kv + key_tokens(s@, i as int) =~= kv);
        assert(kv == key_tokens(s@, 0));
    }
    let mut out: Vec<(String, String)> = Vec::new();
    let mut k: usize = 0;
    while k < ks.len()
        invariant
            0 <= k <= ks@.len(),
            kv == key_tokens(s@, 0),
            kv == ks@.map_values(|p: (usize, usize)| (p.0 as int, p.1 as int)),
            forall|a: int| 0 <= a < ks@.len() ==> (#[trigger] ks@[a]).0 < ks@[a].1 && ks@[a].1 <= s@.len(),
            forall|a: int, b: int| 0 <= a < b < ks@.len() ==> (#[trigger] ks@[a]).1 <= (#[trigger] ks@[b]).0,
            entries_view(out@) == first_line_entries(s@).subrange(0, k as int),
        decreases ks@.len() - k,
    {
        let (st, en) = ks[k];
        let next = if k + 1 < ks.len() { ks[k + 1].0 } else { s.len() };
        let key = string_of(&copy_chars(s, st, en - 1));
        let mut vend = next;
        let ghost raw = s@.subrange(en as int, next as int);
        proof {
            assert(raw.subrange(0, raw.len() as int) =~= raw);
        }
        while vend > en && (s[vend - 1] == ' ' || s[vend - 1] == '\t' || s[vend - 1] == '\n' || s[vend - 1]
            == '\r' || s[vend - 1] == '\x0B' || s[vend - 1] == '\x0C')
            invariant
                en <= vend <= next <= s@.len(),
                raw == s@.subrange(en as int, next as int),
                trim_end(s@.subrange(en as int, vend as int)) == trim_end(raw),
            decreases vend,
        {
            assert(s@.subrange(en as int, vend as int).drop_last() =~= s@.subrange(en as int, vend - 1));
            vend = vend - 1;
        }
        proof {
            let c = s@.subrange(en as int, vend as int);
            assert(c.len() == 0 || !crate::text::is_ws(c.last()));
            assert(trim_end(c) == c);
        }
        let value = string_of(&copy_chars(s, en, vend));
        proof {
            assert(kv[k as int] == (st as int, en as int));
            if k + 1 < ks@.len() {
                assert(kv[k + 1].0 == next as int);
            }
        }
        let ghost out0 = entries_view(out@);
        out.push((key, value));
        proof {
            assert(entries_view(out@) =~= out0.push((key@, value@)));
        }
        k = k + 1;
        proof {
            assert(entries_view(out@) =~= first_line_entries(s@).subrange(0, k as int));
        }
    }
    proof {
        assert(first_line_entries(s@).subrange(0, k as int) =~= first_line_entries(s@));
    }
    out
}

fn cap_entry_exec(l: &Vec<char>) -> (r: Option<(String, String)>)
    ensures
        r is None <==> cap_entry(l@) is None,
        r is Some ==> cap_entry(l@) == Some((r.unwrap().0@, r.unwrap().1@)),
{
    let p = char_vec("Cap:");
    proof {
        reveal_strlit("Cap:");
        assert(p@ =~= cap_prefix());
    }
    if !crate::text::has_at(l, 0, &p) {
        return None;
    }
    let rest = copy_chars(l, 4, l.len());
    let mut c: usize = 0;
    while c < rest.len() && rest[c] != ':'
        invariant
            0 <= c <= rest@.len(),
            first_colon(rest@, c as int) == first_colon(rest@, 0),
        decreases rest@.len() - c,
    {
        c = c + 1;
    }
    if c >= rest.len() {
        return None;
    }
    let mut d = c + 1;
    while d < rest.len() && rest[d] != ':'
        invariant
            c + 1 <= d <= rest@.len(),
            first_colon(rest@, d as int) == first_colon(rest@, c + 1),
        decreases rest@.len() - d,
    {
        d = d + 1;
    }
    if d < rest.len() {
        return None;
    }
    let key = string_of(&copy_chars(&rest, 0, c));
    let value = string_of(&copy_chars(&rest, c + 1, rest.len()));
    Some((key, value))
}

/// Reads a capability report: the `KEY:value` pairs of its first line, then
/// one pair per `Cap:<key>:<value>` line. A later pair replaces an earlier
/// one with the same key.
pub fn parse_fw_info(m115_reply: &str) -> (r: PrinterInfo)
    ensures
        info_view(r) == report_info(m115_reply@),
{
    let s = char_vec(m115_reply);
    let lines = split_lines(&s);
    let mut es: Vec<(String, String)> = Vec::new();
    if lines.len() > 0 {
        es = first_line_exec(&lines[0]);
        proof {
            assert(lines_view(lines@)[0] == lines@[0]@);
        }
        let ghost ls = lines_view(lines@).skip(1);
        let ghost base = entries_view(es@);
        let mut i: usize = 1;
        while i < lines.len()
            invariant
                1 <= i <= lines@.len(),
                ls == lines_view(lines@).skip(1),
                base == first_line_entries(lines_view(lines@)[0]),
                entries_view(es@) == base + cap_entries(ls.subrange(0, i - 1)),
            decreases lines@.len() - i,
        {
            let ghost before = entries_view(es@);
            proof {
                assert(ls.subrange(0, i as int).drop_last() =~= ls.subrange(0, i - 1));
                assert(ls.subrange(0, i as int).last() == lines@[i as int]@);
            }
            match cap_entry_exec(&lines[i]) {
                Some(e) => {
                    es.push(e);
                    proof {
                        assert(entries_view(es@) =~= before.push((e.0@, e.1@)));
                    }
                },
                None => {},
            }
            i = i + 1;
            proof {
                assert(entries_view(es@) =~= base + cap_entries(ls.subrange(0, i - 1)));
            }
        }
        proof {
            assert(ls.subrange(0, i - 1) =~= ls);
        }
    }
    let ghost all = entries_view(es@);
    proof {
        assert(all == report_entries(m115_reply@));
    }
    let mut out: Vec<(String, String)> = Vec::new();
    let mut k: usize = 0;
    while k < es.len()
        invariant
            0 <= k <= es@.len(),
            all == entries_view(es@),
            entries_view(out@) == upsert_all(Seq::empty(), all.subrange(0, k as int)),
        decreases es@.len() - k,
    {
        let key = es[k].0.clone();
        let value = es[k].1.clone();
        proof {
            assert(all.subrange(0, k + 1).drop_last() =~= all.subrange(0, k as int));
        }
        upsert_exec(&mut out, key, value);
        k = k + 1;
    }
    proof {
        assert(all.subrange(0, k as int) =~= all);
    }
    PrinterInfo { values: out }
}

} // verus!
