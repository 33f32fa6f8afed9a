//! Job files: the lazy stream of command lines with comment stripping and
//! resend support, and the remaining-time estimator.
use vstd::prelude::*;
use crate::text::{
    char_vec, digit_run_end, digits_value, frac_scaled, frac_value, has_at, is_ws,
    lemma_digit_run, lemma_run_shift, pow10, scan_digits, string_of, sub_string,
};

verus! {

/// The directory under the data directory that holds job files.
pub const GCODE_DIR: &'static str = "gcode";

// ---------------------------------------------------------------------------
// Remaining-time estimation
// ---------------------------------------------------------------------------

/// A sequence of `(physical line, elapsed milliseconds)` timepoints ordered by line.
pub open spec fn sorted_points(p: Seq<(u32, u64)>) -> bool {
    forall|i: int, j: int| 0 <= i < j < p.len() ==> p[i].0 <= p[j].0
}

/// Where a timepoint at line `l` is inserted: before the first point with a larger line.
pub open spec fn insert_pos(p: Seq<(u32, u64)>, l: u32, from: int) -> int
    decreases p.len() - from,
{
    if from < 0 || from >= p.len() {
        p.len() as int
    } else if l < p[from].0 {
        from
    } else {
        insert_pos(p, l, from + 1)
    }
}

/// The active timepoint index after advancing from `idx` past every point
/// whose line lies before `cur`.
pub open spec fn advance(p: Seq<(u32, u64)>, idx: int, cur: int) -> int
    decreases p.len() - idx,
{
    if 0 <= idx < p.len() && cur > p[idx].0 {
        advance(p, idx + 1, cur)
    } else {
        idx
    }
}

pub open spec fn sat_sub(a: int, b: int) -> int {
    if a >= b { a - b } else { 0 }
}

/// The elapsed time expected at line `cur`, interpolated linearly between the
/// point before `idx` (or the origin) and the point at `idx`.
pub open spec fn expected_at(p: Seq<(u32, u64)>, idx: int, cur: int) -> int {
    let l1: int = if idx == 0 { 0 } else { p[idx - 1].0 as int };
    let t1: int = if idx == 0 { 0 } else { p[idx - 1].1 as int };
    let l2: int = p[idx].0 as int;
    let t2: int = p[idx].1 as int;
    if l2 <= l1 {
        t2
    } else {
        sat_sub(t2, sat_sub(t2, t1) * sat_sub(l2, cur) / (l2 - l1))
    }
}

/// The remaining time at line `cur` with `t` elapsed: the time left on the
/// schedule, lengthened by how late or shortened by how early the print runs,
/// never below zero.
pub open spec fn remaining_at(p: Seq<(u32, u64)>, idx: int, cur: int, t: int) -> int {
    let expected = expected_at(p, idx, cur);
    let base = sat_sub(p.last().1 as int, expected);
    if t >= expected {
        let r = base + (t - expected);
        if r > u64::MAX { u64::MAX as int } else { r }
    } else {
        sat_sub(base, expected - t)
    }
}

/// The remaining time a job reports at physical line `cur` with `t` elapsed,
/// the active timepoint being `active`: none without timepoints, zero past
/// the last one.
pub open spec fn job_remaining(p: Seq<(u32, u64)>, active: int, cur: int, t: u64) -> Option<u64> {
    if p.len() == 0 {
        None
    } else if advance(p, active, cur) < p.len() {
        Some(remaining_at(p, advance(p, active, cur), cur, t as int) as u64)
    } else {
        Some(0u64)
    }
}

/// Estimates the remaining print time from the timepoints a job file declares.
pub struct PrintDurationEstimator {
    line_no_elapsed: Vec<(u32, u64)>,
    this_line_no_elapsed_idx: usize,
}

impl PrintDurationEstimator {
    pub closed spec fn points(&self) -> Seq<(u32, u64)> {
        self.line_no_elapsed@
    }

    pub closed spec fn active(&self) -> int {
        self.this_line_no_elapsed_idx as int
    }

    pub closed spec fn wf(&self) -> bool {
        &&& self.this_line_no_elapsed_idx <= self.line_no_elapsed@.len()
        &&& sorted_points(self.line_no_elapsed@)
    }

    pub fn new() -> (r: Self)
        ensures
            r.wf(),
            r.points().len() == 0,
            r.active() == 0,
    {
        PrintDurationEstimator { line_no_elapsed: Vec::new(), this_line_no_elapsed_idx: 0 }
    }

    pub fn count_points(&self) -> (r: usize)
        ensures
            r == self.points().len(),
    {
        self.line_no_elapsed.len()
    }

    /// Inserts a timepoint, keeping the points ordered by line; a point goes
    /// after the points with the same line.
    pub fn add_time_point(&mut self, time_point_ms: u64, at_lines: u32)
        requires
            old(self).wf(),
        ensures
            final(self).wf(),
            final(self).points() == old(self).points().insert(
                insert_pos(old(self).points(), at_lines, 0),
                (at_lines, time_point_ms),
            ),
            final(self).active() == old(self).active(),
    {
        let ghost p = self.line_no_elapsed@;
        let mut k: usize = 0;
        while k < self.line_no_elapsed.len() && !(at_lines < self.line_no_elapsed[k].0)
            invariant
                self.line_no_elapsed@ == p,
                0 <= k <= p.len(),
                insert_pos(p, at_lines, k as int) == insert_pos(p, at_lines, 0),
                forall|j: int| 0 <= j < k ==> p[j].0 <= at_lines,
            decreases p.len() - k,
        {
            k = k + 1;
        }
        proof {
            if k < p.len() {
                assert(at_lines < p[k as int].0);
            }
        }
        self.line_no_elapsed.insert(k, (at_lines, time_point_ms));
        proof {
            let q = self.line_no_elapsed@;
            assert(q == p.insert(k as int, (at_lines, time_point_ms)));
            assert forall|i: int, j: int| 0 <= i < j < q.len() implies q[i].0 <= q[j].0 by {
                if j < k {
                } else if j == k {
                } else if i < k {
                    assert(p[i].0 <= at_lines);
                    if k < p.len() {
                        assert(at_lines < p[k as int].0);
                        assert(p[k as int].0 <= p[j - 1].0);
                    }
                } else if i == k {
                    assert(at_lines < p[k as int].0);
                    assert(p[k as int].0 <= p[j - 1].0);
                } else {
                    assert(p[i - 1].0 <= p[j - 1].0);
                }
            }
        }
    }

    /// The remaining time in milliseconds at physical line `cur_line_in_file`
    /// with `cur_t` milliseconds elapsed. The active index only moves forward;
    /// past the last point the job is complete and the result is zero.
    pub fn get_remaining_time(&mut self, cur_line_in_file: u32, cur_t: u64) -> (r: u64)
        requires
            old(self).wf(),
        ensures
            final(self).wf(),
            final(self).points() == old(self).points(),
            final(self).active() == advance(
                old(self).points(),
                old(self).active(),
                cur_line_in_file as int,
            ),
            final(self).active() == final(self).points().len() ==> r == 0,
            final(self).active() < final(self).points().len() ==> r == remaining_at(
                final(self).points(),
                final(self).active(),
                cur_line_in_file as int,
                cur_t as int,
            ),
    {
        let ghost p = self.line_no_elapsed@;
        let ghost start = self.this_line_no_elapsed_idx as int;
        while self.this_line_no_elapsed_idx < self.line_no_elapsed.len()
            && cur_line_in_file > self.line_no_elapsed[self.this_line_no_elapsed_idx].0
            invariant
                self.line_no_elapsed@ == p,
                sorted_points(p),
                self.this_line_no_elapsed_idx <= p.len(),
                advance(p, self.this_line_no_elapsed_idx as int, cur_line_in_file as int)
                    == advance(p, start, cur_line_in_file as int),
            decreases p.len() - self.this_line_no_elapsed_idx,
        {
            self.this_line_no_elapsed_idx = self.this_line_no_elapsed_idx + 1;
        }
        let idx = self.this_line_no_elapsed_idx;
        let n = self.line_no_elapsed.len();
        if idx == n {
            return 0;
        }
        let (l1, t1): (u32, u64) = if idx == 0 {
            (0, 0)
        } else {
            self.line_no_elapsed[idx - 1]
        };
        let (l2, t2) = self.line_no_elapsed[idx];
        let expected: u64 = if l2 <= l1 {
            t2
        } else {
            let dt: u128 = if t2 >= t1 { (t2 - t1) as u128 } else { 0 };
            let dl: u128 = if l2 >= cur_line_in_file { (l2 - cur_line_in_file) as u128 } else { 0 };
            assert(dt * dl <= u64::MAX as u128 * u32::MAX as u128) by (nonlinear_arith)
                requires dt <= u64::MAX, dl <= u32::MAX;
            let delta: u128 = dt * dl / ((l2 - l1) as u128);
            if t2 as u128 >= delta { (t2 as u128 - delta) as u64 } else { 0 }
        };
        let last = self.line_no_elapsed[n - 1].1;
        let base: u64 = if last >= expected { last - expected } else { 0 };
        if cur_t >= expected {
            let late = cur_t - expected;
            if base > u64::MAX - late {
                u64::MAX
            } else {
                base + late
            }
        } else {
            let early = expected - cur_t;
            if base >= early { base - early } else { 0 }
        }
    }

    /// The last timepoint: the declared total when the file gave one.
    pub fn get_last_time_point_duration(&self) -> (r: (u32, u64))
        requires
            self.points().len() > 0,
        ensures
            r == self.points().last(),
    {
        self.line_no_elapsed[self.line_no_elapsed.len() - 1]
    }
}

// ---------------------------------------------------------------------------
// Job file lines
// ---------------------------------------------------------------------------

/// The index of the first `;` in `s` at or after `i`, or `s.len()`.
pub open spec fn first_semicolon(s: Seq<char>, i: int) -> int
    decreases s.len() - i,
{
    if i < 0 || i >= s.len() {
        s.len() as int
    } else if s[i] == ';' {
        i
    } else {
        first_semicolon(s, i + 1)
    }
}

/// `s` without its trailing whitespace.
pub open spec fn trim_end(s: Seq<char>) -> Seq<char>
    decreases s.len(),
{
    if s.len() > 0 && is_ws(s.last()) {
        trim_end(s.drop_last())
    } else {
        s
    }
}

/// The command a physical line holds: the text before any `;`, without
/// trailing whitespace. Empty when the line holds no command.
pub open spec fn command_text(s: Seq<char>) -> Seq<char> {
    trim_end(s.subrange(0, first_semicolon(s, 0)))
}

pub open spec fn is_command(s: Seq<char>) -> bool {
    command_text(s).len() > 0
}

/// The first physical line at or after `i` that holds a command, or `lines.len()`.
pub open spec fn next_command_index(lines: Seq<Seq<char>>, i: int) -> int
    decreases lines.len() - i,
{
    if i < 0 || i >= lines.len() {
        lines.len() as int
    } else if is_command(lines[i]) {
        i
    } else {
        next_command_index(lines, i + 1)
    }
}

/// The number of command lines at or after physical line `i`.
pub open spec fn count_commands(lines: Seq<Seq<char>>, i: int) -> int
    decreases lines.len() - i,
{
    if i < 0 || i >= lines.len() {
        0
    } else {
        (if is_command(lines[i]) { 1int } else { 0int }) + count_commands(lines, i + 1)
    }
}

/// The state of a job reader: the file's lines, the physical cursor, the
/// command counter, the last emitted command and whether it is to be replayed.
pub struct JobView {
    pub lines: Seq<Seq<char>>,
    pub cur: int,
    pub cmd: int,
    pub last: Seq<char>,
    pub resend: bool,
}

/// A text that holds no `;` and does not end in whitespace.
pub open spec fn clean_text(t: Seq<char>) -> bool {
    &&& forall|i: int| 0 <= i < t.len() ==> t[i] != ';'
    &&& t.len() > 0 ==> !is_ws(t.last())
}

/// The reader's invariant: the command counter counts the command lines before
/// the cursor, and the buffered command is clean.
pub open spec fn view_wf(v: JobView) -> bool {
    &&& 0 <= v.cmd <= v.cur <= v.lines.len()
    &&& v.cmd + count_commands(v.lines, v.cur) == count_commands(v.lines, 0)
    &&& clean_text(v.last)
    &&& v.cmd > 0 ==> v.last.len() > 0
}

/// One read: the replayed command when a resend is pending, else the next
/// command line, else the end of the file (an empty text).
pub open spec fn spec_next(v: JobView) -> (JobView, int, Seq<char>) {
    if v.resend {
        (JobView { resend: false, ..v }, v.cmd, v.last)
    } else {
        let k = next_command_index(v.lines, v.cur);
        if k >= v.lines.len() {
            (JobView { cur: v.lines.len() as int, ..v }, v.cmd, Seq::<char>::empty())
        } else {
            let t = command_text(v.lines[k]);
            (JobView { cur: k + 1, cmd: v.cmd + 1, last: t, ..v }, v.cmd + 1, t)
        }
    }
}

/// One physical line read: the cursor moves on, and the command counter and
/// the buffered command too when the line holds a command.
pub open spec fn spec_step(v: JobView) -> JobView {
    if v.cur < 0 || v.cur >= v.lines.len() {
        v
    } else if is_command(v.lines[v.cur]) {
        JobView { cur: v.cur + 1, cmd: v.cmd + 1, last: command_text(v.lines[v.cur]), ..v }
    } else {
        JobView { cur: v.cur + 1, ..v }
    }
}

/// Reads on from `v` until `n` commands have been read or the file ends.
pub open spec fn spec_seek(v: JobView, n: int) -> JobView
    decreases v.lines.len() - v.cur,
{
    if v.cmd >= n || v.cur < 0 || v.cur >= v.lines.len() {
        v
    } else {
        let k = next_command_index(v.lines, v.cur);
        if k >= v.lines.len() || k < v.cur {
            JobView { cur: v.lines.len() as int, ..v }
        } else {
            spec_seek(JobView { cur: k + 1, cmd: v.cmd + 1, last: command_text(v.lines[k]), ..v }, n)
        }
    }
}

/// A resend request: replay the buffered command when `target` is the current
/// command line, else rewind and read on up to command line `target - 1`.
pub open spec fn spec_resend(v: JobView, target: int) -> JobView {
    if target == v.cmd {
        JobView { resend: true, ..v }
    } else {
        spec_seek(JobView { cur: 0, cmd: 0, resend: false, ..v }, target - 1)
    }
}

/// The next command line is at or after `i`, holds a command, and is counted.
pub proof fn lemma_next_command_index(lines: Seq<Seq<char>>, i: int)
    requires
        0 <= i <= lines.len(),
    ensures
        i <= next_command_index(lines, i) <= lines.len(),
        next_command_index(lines, i) < lines.len() ==> is_command(
            lines[next_command_index(lines, i)],
        ),
        next_command_index(lines, i) < lines.len() ==> count_commands(lines, i) == 1
            + count_commands(lines, next_command_index(lines, i) + 1),
        next_command_index(lines, i) >= lines.len() ==> count_commands(lines, i) == 0,
    decreases lines.len() - i,
{
    if i < lines.len() && !is_command(lines[i]) {
        lemma_next_command_index(lines, i + 1);
    }
}

/// There are no more command lines than lines.
pub proof fn lemma_count_commands_bound(lines: Seq<Seq<char>>, i: int)
    requires
        0 <= i <= lines.len(),
    ensures
        0 <= count_commands(lines, i) <= lines.len() - i,
    decreases lines.len() - i,
{
    if i < lines.len() {
        lemma_count_commands_bound(lines, i + 1);
    }
}

/// Trimming the end keeps a prefix that does not end in whitespace.
pub proof fn lemma_trim_end(s: Seq<char>)
    ensures
        trim_end(s).len() <= s.len(),
        trim_end(s) == s.subrange(0, trim_end(s).len() as int),
        trim_end(s).len() > 0 ==> !is_ws(trim_end(s).last()),
    decreases s.len(),
{
    if s.len() > 0 && is_ws(s.last()) {
        lemma_trim_end(s.drop_last());
        assert(trim_end(s) == s.drop_last().subrange(0, trim_end(s).len() as int));
        assert(s.drop_last().subrange(0, trim_end(s).len() as int) =~= s.subrange(
            0,
            trim_end(s).len() as int,
        ));
    } else {
        assert(s.subrange(0, s.len() as int) =~= s);
    }
}

/// Before the first `;` there is none.
pub proof fn lemma_first_semicolon(s: Seq<char>, i: int)
    requires
        0 <= i <= s.len(),
    ensures
        i <= first_semicolon(s, i) <= s.len(),
        forall|k: int| i <= k < first_semicolon(s, i) ==> s[k] != ';',
        first_semicolon(s, i) < s.len() ==> s[first_semicolon(s, i)] == ';',
    decreases s.len() - i,
{
    if i < s.len() && s[i] != ';' {
        lemma_first_semicolon(s, i + 1);
    }
}

/// A command text holds no `;` and does not end in whitespace.
pub proof fn lemma_command_text_clean(s: Seq<char>)
    ensures
        clean_text(command_text(s)),
{
    lemma_first_semicolon(s, 0);
    let c = s.subrange(0, first_semicolon(s, 0));
    lemma_trim_end(c);
    let t = trim_end(c);
    assert forall|i: int| 0 <= i < t.len() implies t[i] != ';' by {
        assert(t[i] == c[i]);
    }
}

/// Reading keeps the reader's invariant.
pub proof fn lemma_next_wf(v: JobView)
    requires
        view_wf(v),
    ensures
        view_wf(spec_next(v).0),
        spec_next(v).0.lines == v.lines,
{
    if !v.resend {
        lemma_next_command_index(v.lines, v.cur);
        let k = next_command_index(v.lines, v.cur);
        if k < v.lines.len() {
            lemma_command_text_clean(v.lines[k]);
        }
    }
}

proof fn lemma_seek(v: JobView, n: int)
    requires
        view_wf(v),
    ensures
        view_wf(spec_seek(v, n)),
        spec_seek(v, n).lines == v.lines,
        spec_seek(v, n).resend == v.resend,
        v.cmd <= n <= count_commands(v.lines, 0) ==> spec_seek(v, n).cmd == n,
        v.cmd >= n ==> spec_seek(v, n) == v,
    decreases v.lines.len() - v.cur,
{
    if v.cmd >= n || v.cur < 0 || v.cur >= v.lines.len() {
        if v.cur >= v.lines.len() && v.cmd < n {
            assert(count_commands(v.lines, v.cur) == 0);
        }
    } else {
        lemma_next_command_index(v.lines, v.cur);
        let k = next_command_index(v.lines, v.cur);
        if k < v.lines.len() {
            lemma_command_text_clean(v.lines[k]);
            let w = JobView { cur: k + 1, cmd: v.cmd + 1, last: command_text(v.lines[k]), ..v };
            lemma_seek(w, n);
        }
    }
}

/// Reading a physical line keeps the reader's invariant.
pub proof fn lemma_step_wf(v: JobView)
    requires
        view_wf(v),
    ensures
        view_wf(spec_step(v)),
        spec_step(v).lines == v.lines,
{
    if 0 <= v.cur < v.lines.len() && is_command(v.lines[v.cur]) {
        lemma_command_text_clean(v.lines[v.cur]);
    }
}

/// Resending keeps the reader's invariant.
pub proof fn lemma_resend_wf(v: JobView, target: int)
    requires
        view_wf(v),
    ensures
        view_wf(spec_resend(v, target)),
        spec_resend(v, target).lines == v.lines,
{
    if target != v.cmd {
        let w = JobView { cur: 0, cmd: 0, resend: false, ..v };
        lemma_seek(w, target - 1);
    }
}

/// A resend of the current command line replays exactly the previous
/// emission, under the same command line number.
pub proof fn lemma_resend_current_replays(v: JobView)
    requires
        view_wf(v),
    ensures
        spec_next(spec_resend(v, v.cmd)).1 == v.cmd,
        spec_next(spec_resend(v, v.cmd)).2 == v.last,
        spec_next(spec_resend(v, v.cmd)).0 == (JobView { resend: false, ..v }),
{
}

/// After the printer asks for command line `k` (one that the file holds), the
/// next read carries line number `k`.
pub proof fn lemma_resend_then_next(v: JobView, k: int)
    requires
        view_wf(v),
        1 <= k <= count_commands(v.lines, 0),
    ensures
        spec_next(spec_resend(v, k)).1 == k,
        spec_next(spec_resend(v, k)).2.len() > 0,
{
    if k != v.cmd {
        let w = JobView { cur: 0, cmd: 0, resend: false, ..v };
        lemma_seek(w, k - 1);
        let s = spec_seek(w, k - 1);
        lemma_next_command_index(s.lines, s.cur);
        let idx = next_command_index(s.lines, s.cur);
        if idx >= s.lines.len() {
            assert(count_commands(s.lines, s.cur) == 0);
        }
    }
}

} // verus!

verus! {

/// A duration in seconds, `D+` optionally followed by `.` and more digits,
/// in milliseconds (further decimals are dropped). Anything else, or more
/// than a trillion seconds, reads as zero.
pub open spec fn seconds_ms(s: Seq<char>) -> int {
    let e1 = digit_run_end(s, 0);
    let whole = digits_value(s.subrange(0, e1));
    if e1 > 0 && whole < SECONDS_CAP && (e1 == s.len() || (s[e1] == '.' && digit_run_end(
        s,
        e1 + 1,
    ) == s.len())) {
        whole * 1000 + (if e1 == s.len() {
            0
        } else {
            frac_scaled(s.subrange(e1 + 1, s.len() as int), 3)
        })
    } else {
        0
    }
}

pub const SECONDS_CAP: u64 = 1000000000000;

pub open spec fn time_prefix() -> Seq<char> {
    seq![';', 'T', 'I', 'M', 'E', ':']
}

pub open spec fn elapsed_prefix() -> Seq<char> {
    seq![';', 'T', 'I', 'M', 'E', '_', 'E', 'L', 'A', 'P', 'S', 'E', 'D', ':']
}

/// Whether `s` starts with `p`.
pub open spec fn has_prefix(s: Seq<char>, p: Seq<char>) -> bool {
    p.len() <= s.len() && s.subrange(0, p.len() as int) == p
}

/// The `;TIME_ELAPSED:` timepoints among the first `i` lines, at their
/// 1-based physical line numbers.
pub open spec fn elapsed_points(lines: Seq<Seq<char>>, i: int) -> Seq<(u32, u64)>
    decreases i,
{
    if i <= 0 || i > lines.len() {
        Seq::empty()
    } else {
        let prev = elapsed_points(lines, i - 1);
        let l = lines[i - 1];
        if !has_prefix(l, time_prefix()) && has_prefix(l, elapsed_prefix()) {
            prev.push(
                (i as u32, seconds_ms(l.subrange(elapsed_prefix().len() as int, l.len() as int)) as u64),
            )
        } else {
            prev
        }
    }
}

/// The total duration the last `;TIME:` line among the first `i` lines declares, or zero.
pub open spec fn declared_total(lines: Seq<Seq<char>>, i: int) -> int
    decreases i,
{
    if i <= 0 || i > lines.len() {
        0
    } else {
        let l = lines[i - 1];
        if has_prefix(l, time_prefix()) {
            seconds_ms(l.subrange(time_prefix().len() as int, l.len() as int))
        } else {
            declared_total(lines, i - 1)
        }
    }
}

/// The timepoints of a job file: each `;TIME_ELAPSED:` line, then the declared
/// total at the last line when there is one.
pub open spec fn job_points(lines: Seq<Seq<char>>) -> Seq<(u32, u64)> {
    let n = lines.len() as int;
    elapsed_points(lines, n) + (if declared_total(lines, n) > 0 {
        seq![(n as u32, declared_total(lines, n) as u64)]
    } else {
        Seq::empty()
    })
}

/// The part of a path after its last `/`.
pub open spec fn file_name(s: Seq<char>) -> Seq<char>
    decreases s.len(),
{
    if s.len() == 0 {
        s
    } else if s.last() == '/' {
        Seq::empty()
    } else {
        file_name(s.drop_last()).push(s.last())
    }
}

/// `b` under directory `a`; an absolute `b` stands alone.
pub open spec fn join_path(a: Seq<char>, b: Seq<char>) -> Seq<char> {
    if b.len() > 0 && b[0] == '/' {
        b
    } else if a.len() == 0 {
        b
    } else if a.last() == '/' {
        a + b
    } else {
        a + seq!['/'] + b
    }
}

/// Reads a duration in seconds as milliseconds (see `seconds_ms`).
pub fn parse_seconds_ms(s: &Vec<char>, from: usize) -> (r: u64)
    requires
        from <= s@.len(),
    ensures
        r == seconds_ms(s@.subrange(from as int, s@.len() as int)),
{
    let ghost t = s@.subrange(from as int, s@.len() as int);
    proof {
        lemma_digit_run(s@, from as int);
        lemma_digit_run(t, 0);
        lemma_run_shift(s@, from as int, from as int);
    }
    let (e1, whole) = scan_digits(s, from, SECONDS_CAP);
    proof {
        assert(t.subrange(0, e1 - from) =~= s@.subrange(from as int, e1 as int));
    }
    if e1 == from || whole >= SECONDS_CAP {
        return 0;
    }
    if e1 == s.len() {
        return whole * 1000;
    }
    if s[e1] != '.' {
        return 0;
    }
    proof {
        lemma_digit_run(s@, e1 + 1);
        lemma_run_shift(s@, from as int, e1 + 1);
    }
    let (e2, _v) = scan_digits(s, e1 + 1, SECONDS_CAP);
    if e2 != s.len() {
        return 0;
    }
    let f = frac_value(s, e1 + 1, e2, 3);
    proof {
        assert(t.subrange(e1 + 1 - from, t.len() as int) =~= s@.subrange(e1 + 1, e2 as int));
        assert(pow10(3) == 1000) by { reveal_with_fuel(pow10, 4); }
    }
    whole * 1000 + f
}

/// The command a line holds (see `command_text`).
pub fn command_text_exec(line: &str) -> (r: Vec<char>)
    ensures
        r@ == command_text(line@),
{
    let v = char_vec(line);
    let mut p: usize = 0;
    while p < v.len() && v[p] != ';'
        invariant
            0 <= p <= v@.len(),
            first_semicolon(v@, p as int) == first_semicolon(v@, 0),
        decreases v@.len() - p,
    {
        p = p + 1;
    }
    let mut end = p;
    while end > 0 && (v[end - 1] == ' ' || v[end - 1] == '\t' || v[end - 1] == '\n' || v[end - 1]
        == '\r' || v[end - 1] == '\x0B' || v[end - 1] == '\x0C')
        invariant
            0 <= end <= p <= v@.len(),
            p == first_semicolon(v@, 0),
            trim_end(v@.subrange(0, end as int)) == trim_end(v@.subrange(0, p as int)),
        decreases end,
    {
        assert(v@.subrange(0, end as int).drop_last() =~= v@.subrange(0, end - 1));
        end = end - 1;
    }
    let mut out: Vec<char> = Vec::new();
    let mut i: usize = 0;
    while i < end
        invariant
            0 <= i <= end <= v@.len(),
            out@ == v@.subrange(0, i as int),
        decreases end - i,
    {
        out.push(v[i]);
        i = i + 1;
        assert(out@ =~= v@.subrange(0, i as int));
    }
    proof {
        let c = v@.subrange(0, end as int);
        assert(end == 0 || !is_ws(c.last()));
        assert(trim_end(c) == c);
    }
    out
}

proof fn lemma_insert_at_end(p: Seq<(u32, u64)>, l: u32, from: int)
    requires
        0 <= from <= p.len(),
        forall|j: int| 0 <= j < p.len() ==> p[j].0 <= l,
    ensures
        insert_pos(p, l, from) == p.len(),
    decreases p.len() - from,
{
    if from < p.len() {
        lemma_insert_at_end(p, l, from + 1);
    }
}

/// A job file being streamed: its lines, a physical cursor, the command
/// counter, the buffered last command and the remaining-time estimator.
pub struct GCodeFile {
    line_count: u32,
    cur_line_in_file: u32,
    lines: Vec<String>,
    path: String,
    last_line: String,
    command_line_no: u32,
    resend_last: bool,
    print_duration: Option<PrintDurationEstimator>,
}

pub open spec fn lines_view(v: Seq<String>) -> Seq<Seq<char>> {
    v.map_values(|s: String| s@)
}

impl GCodeFile {
    /// The reader's state.
    pub closed spec fn job(&self) -> JobView {
        JobView {
            lines: lines_view(self.lines@),
            cur: self.cur_line_in_file as int,
            cmd: self.command_line_no as int,
            last: self.last_line@,
            resend: self.resend_last,
        }
    }

    pub closed spec fn path_view(&self) -> Seq<char> {
        self.path@
    }

    /// The estimator's timepoints; empty when the file declares none.
    pub closed spec fn points(&self) -> Seq<(u32, u64)> {
        match self.print_duration {
            Some(e) => e.points(),
            None => Seq::empty(),
        }
    }

    pub closed spec fn wf(&self) -> bool {
        &&& view_wf(self.job())
        &&& self.line_count as int == self.lines@.len()
        &&& match self.print_duration {
            Some(e) => e.wf() && e.points().len() > 0,
            None => true,
        }
    }

    /// Indexes the lines of a job file: counts them and collects its
    /// timepoints. The reader starts before the first line.
    pub fn new(path: String, lines: Vec<String>) -> (r: GCodeFile)
        requires
            lines@.len() < u32::MAX,
        ensures
            r.wf(),
            view_wf(r.job()),
            r.job() == (JobView {
                lines: lines_view(lines@),
                cur: 0,
                cmd: 0,
                last: Seq::empty(),
                resend: false,
            }),
            r.path_view() == path@,
            r.points() == job_points(lines_view(lines@)),
    {
        let ghost lv = lines_view(lines@);
        let mut est = PrintDurationEstimator::new();
        let mut total: u64 = 0;
        let time_p = char_vec(";TIME:");
        let elapsed_p = char_vec(";TIME_ELAPSED:");
        proof {
            reveal_strlit(";TIME:");
            reveal_strlit(";TIME_ELAPSED:");
            assert(time_p@ =~= time_prefix());
            assert(elapsed_p@ =~= elapsed_prefix());
        }
        let mut i: usize = 0;
        while i < lines.len()
            invariant
                0 <= i <= lines@.len() < u32::MAX,
                lv == lines_view(lines@),
                time_p@ == time_prefix(),
                elapsed_p@ == elapsed_prefix(),
                est.wf(),
                est.active() == 0,
                est.points() == elapsed_points(lv, i as int),
                forall|j: int| 0 <= j < est.points().len() ==> est.points()[j].0 <= i,
                total == declared_total(lv, i as int),
            decreases lines@.len() - i,
        {
            let l = char_vec(lines[i].as_str());
            proof {
                assert(lv[i as int] == lines@[i as int]@);
            }
            if has_at(&l, 0, &time_p) {
                total = parse_seconds_ms(&l, 6);
            } else if has_at(&l, 0, &elapsed_p) {
                let t = parse_seconds_ms(&l, 14);
                proof {
                    lemma_insert_at_end(est.points(), (i + 1) as u32, 0);
                }
                est.add_time_point(t, (i + 1) as u32);
                proof {
                    assert(est.points() =~= elapsed_points(lv, i + 1));
                }
            }
            i = i + 1;
        }
        let n = lines.len() as u32;
        if total > 0 {
            proof {
                lemma_insert_at_end(est.points(), n, 0);
            }
            est.add_time_point(total, n);
        }
        proof {
            assert(est.points() =~= job_points(lv));
        }
        let print_duration = if est.count_points() == 0 {
            None
        } else {
            Some(est)
        };
        let r = GCodeFile {
            line_count: n,
            cur_line_in_file: 0,
            lines,
            path,
            last_line: String::new(),
            command_line_no: 0,
            resend_last: false,
            print_duration,
        };
        proof {
            lemma_count_commands_bound(lv, 0);
            assert(clean_text(Seq::<char>::empty()));
        }
        r
    }

    /// The next command line: the buffered one when a resend is pending, else
    /// the next line that holds a command. At the end of the file the text is
    /// empty.
    pub fn next_line(&mut self) -> (r: (u32, String))
        requires
            old(self).wf(),
        ensures
            final(self).wf(),
            view_wf(final(self).job()),
            (final(self).job(), r.0 as int, r.1@) == spec_next(old(self).job()),
            final(self).points() == old(self).points(),
            final(self).path_view() == old(self).path_view(),
    {
        let ghost v = self.job();
        proof {
            lemma_next_wf(v);
        }
        if self.resend_last {
            self.resend_last = false;
            return (self.command_line_no, self.last_line.clone());
        }
        proof {
            lemma_next_command_index(v.lines, v.cur);
        }
        while self.cur_line_in_file < self.line_count
            invariant
                self.lines@ == old(self).lines@,
                self.line_count == old(self).line_count,
                self.line_count as int == self.lines@.len(),
                self.command_line_no == old(self).command_line_no,
                self.last_line == old(self).last_line,
                self.resend_last == false,
                self.print_duration == old(self).print_duration,
                self.path == old(self).path,
                v.cur <= self.cur_line_in_file <= self.line_count,
                next_command_index(v.lines, self.cur_line_in_file as int) == next_command_index(
                    v.lines,
                    v.cur,
                ),
                v == old(self).job(),
                old(self).wf(),
                view_wf(v),
                !v.resend,
            decreases self.line_count - self.cur_line_in_file,
        {
            let idx = self.cur_line_in_file as usize;
            let t = command_text_exec(self.lines[idx].as_str());
            proof {
                assert(v.lines[idx as int] == self.lines@[idx as int]@);
            }
            self.cur_line_in_file = self.cur_line_in_file + 1;
            if t.len() > 0 {
                proof {
                    assert(is_command(v.lines[idx as int]));
                    assert(next_command_index(v.lines, idx as int) == idx);
                }
                self.command_line_no = self.command_line_no + 1;
                self.last_line = string_of(&t);
                proof {
                    lemma_next_wf(v);
                }
                return (self.command_line_no, string_of(&t));
            }
        }
        (self.command_line_no, String::new())
    }

    /// Reads one physical line: the cursor moves on, and the command counter
    /// too when the line holds a command. Returns whether a line was left.
    pub fn step_line(&mut self) -> (r: bool)
        requires
            old(self).wf(),
        ensures
            final(self).wf(),
            view_wf(final(self).job()),
            final(self).job() == spec_step(old(self).job()),
            r == (old(self).job().cur < old(self).job().lines.len()),
            final(self).points() == old(self).points(),
            final(self).path_view() == old(self).path_view(),
            final(self).active_point() == old(self).active_point(),
    {
        let ghost v = self.job();
        proof {
            lemma_step_wf(v);
        }
        if self.cur_line_in_file >= self.line_count {
            return false;
        }
        let idx = self.cur_line_in_file as usize;
        let t = command_text_exec(self.lines[idx].as_str());
        proof {
            assert(v.lines[idx as int] == self.lines@[idx as int]@);
        }
        self.cur_line_in_file = self.cur_line_in_file + 1;
        if t.len() > 0 {
            self.command_line_no = self.command_line_no + 1;
            self.last_line = string_of(&t);
        }
        true
    }

    /// Rewinds to the start of the file.
    pub fn rewind(&mut self)
        requires
            old(self).wf(),
        ensures
            final(self).wf(),
            view_wf(final(self).job()),
            final(self).job() == (JobView { cur: 0, cmd: 0, resend: false, ..old(self).job() }),
            final(self).points() == old(self).points(),
            final(self).path_view() == old(self).path_view(),
    {
        self.cur_line_in_file = 0;
        self.command_line_no = 0;
        self.resend_last = false;
    }

    /// Handles the printer's request to resend from command line `gcode_lineno`.
    pub fn resend_gcode_line(&mut self, gcode_lineno: u32)
        requires
            old(self).wf(),
        ensures
            final(self).wf(),
            view_wf(final(self).job()),
            final(self).job() == spec_resend(old(self).job(), gcode_lineno as int),
            final(self).points() == old(self).points(),
            final(self).path_view() == old(self).path_view(),
    {
        let ghost v = self.job();
        proof {
            lemma_resend_wf(v, gcode_lineno as int);
        }
        if gcode_lineno == self.command_line_no {
            self.resend_last = true;
            return;
        }
        self.rewind();
        let goal: u32 = if gcode_lineno > 0 { gcode_lineno - 1 } else { 0 };
        let ghost start = self.job();
        proof {
            if gcode_lineno == 0 {
                assert(spec_seek(start, -1) == start);
                assert(spec_seek(start, 0) == start);
            }
        }
        while self.command_line_no < goal && self.cur_line_in_file < self.line_count
            invariant
                self.wf(),
                !self.resend_last,
                spec_seek(self.job(), goal as int) == spec_seek(start, gcode_lineno - 1),
                self.points() == old(self).points(),
                self.path_view() == old(self).path_view(),
            decreases self.line_count - self.cur_line_in_file,
        {
            let ghost w = self.job();
            proof {
                lemma_next_command_index(w.lines, w.cur);
            }
            let _ = self.next_line();
        }
        proof {
            assert(spec_seek(self.job(), goal as int) == self.job());
        }
    }

    /// The physical line reached and the number of lines in the file.
    pub fn get_progress(&self) -> (r: (u32, u32))
        requires
            self.wf(),
        ensures
            r.0 as int == self.job().cur,
            r.1 as int == self.job().lines.len(),
    {
        (self.cur_line_in_file, self.line_count)
    }

    /// The command line counter.
    pub fn command_line_no(&self) -> (r: u32)
        ensures
            r as int == self.job().cmd,
    {
        self.command_line_no
    }

    /// The file's name: its path after the last `/`.
    pub fn name(&self) -> (r: String)
        ensures
            r@ == file_name(self.path_view()),
    {
        let v = char_vec(self.path.as_str());
        let mut i = v.len();
        proof {
            assert(v@.subrange(0, i as int) =~= v@);
            assert(file_name(v@) =~= file_name(v@.subrange(0, i as int)) + v@.subrange(
                i as int,
                v@.len() as int,
            ));
        }
        while i > 0 && v[i - 1] != '/'
            invariant
                0 <= i <= v@.len(),
                v@ == self.path@,
                file_name(v@) == file_name(v@.subrange(0, i as int)) + v@.subrange(
                    i as int,
                    v@.len() as int,
                ),
            decreases i,
        {
            let ghost a = v@.subrange(0, i as int);
            assert(a.drop_last() =~= v@.subrange(0, i - 1));
            assert(v@.subrange(i - 1, v@.len() as int) =~= seq![a.last()] + v@.subrange(
                i as int,
                v@.len() as int,
            ));
            assert(file_name(a) == file_name(a.drop_last()).push(a.last()));
            assert(file_name(a.drop_last()).push(a.last()) + v@.subrange(i as int, v@.len() as int)
                =~= file_name(a.drop_last()) + v@.subrange(i - 1, v@.len() as int));
            i = i - 1;
        }
        proof {
            let a = v@.subrange(0, i as int);
            assert(file_name(a) =~= Seq::<char>::empty());
        }
        let r = sub_string(&v, i, v.len());
        proof {
            assert(file_name(v@) =~= v@.subrange(i as int, v@.len() as int));
        }
        r
    }

    /// The path the job was opened from.
    pub fn path(&self) -> (r: String)
        ensures
            r@ == self.path_view(),
    {
        self.path.clone()
    }

    /// The remaining print time in milliseconds at the current physical line,
    /// with `elapsed_ms` printed so far; `None` when the file declares no timepoints.
    pub fn get_remaining_time(&mut self, elapsed_ms: u64) -> (r: Option<u64>)
        requires
            old(self).wf(),
        ensures
            final(self).wf(),
            final(self).job() == old(self).job(),
            final(self).points() == old(self).points(),
            final(self).path_view() == old(self).path_view(),
            r == job_remaining(old(self).points(), old(self).active_point(), old(self).job().cur, elapsed_ms),
            final(self).active_point() == (if old(self).points().len() > 0 {
                advance(old(self).points(), old(self).active_point(), old(self).job().cur)
            } else {
                old(self).active_point()
            }),
    {
        let cur = self.cur_line_in_file;
        match &mut self.print_duration {
            Some(e) => Some(e.get_remaining_time(cur, elapsed_ms)),
            None => None,
        }
    }

    pub closed spec fn active_point(&self) -> int {
        match self.print_duration {
            Some(e) => e.active(),
            None => 0,
        }
    }

    /// The last timepoint, `(lines, milliseconds)`, when there is one.
    pub fn get_duration_lines(&self) -> (r: Option<(u32, u64)>)
        requires
            self.wf(),
        ensures
            r is None <==> self.points().len() == 0,
            r is Some ==> r == Some(self.points().last()),
    {
        match &self.print_duration {
            Some(e) => Some(e.get_last_time_point_duration()),
            None => None,
        }
    }
}

/// The absolute path of a job file: `file` itself when absolute, else `file`
/// under the job directory of `base_path`.
pub fn get_abs_gcode_path(base_path: &String, file: &String) -> (r: String)
    ensures
        r@ == join_path(join_path(base_path@, GCODE_DIR@), file@),
{
    let f = char_vec(file.as_str());
    if f.len() > 0 && f[0] == '/' {
        return file.clone();
    }
    let mut out = char_vec(base_path.as_str());
    let ghost b = out@;
    if out.len() > 0 && out[out.len() - 1] != '/' {
        out.push('/');
    }
    crate::text::push_str(&mut out, GCODE_DIR);
    proof {
        reveal_strlit("gcode");
        assert(out@ =~= join_path(b, GCODE_DIR@));
    }
    let ghost d = out@;
    out.push('/');
    crate::text::push_str(&mut out, file.as_str());
    proof {
        assert(d.len() > 0 && d.last() != '/');
        assert(out@ =~= join_path(d, file@));
    }
    string_of(&out)
}

} // verus!

verus! {

/// The reader's counters stay ordered: the command counter never passes the
/// physical cursor, nor the cursor the number of lines, whatever is read or
/// resent.
pub proof fn lemma_counters_ordered(v: JobView, target: int)
    requires
        view_wf(v),
    ensures
        0 <= v.cmd <= v.cur <= v.lines.len(),
        0 <= spec_next(v).0.cmd <= spec_next(v).0.cur <= v.lines.len(),
        0 <= spec_resend(v, target).cmd <= spec_resend(v, target).cur <= v.lines.len(),
{
    lemma_next_wf(v);
    lemma_resend_wf(v, target);
}

/// A read never yields a text holding `;`, nor one made only of whitespace
/// (the end of the file is the empty text).
pub proof fn lemma_next_text_clean(v: JobView)
    requires
        view_wf(v),
    ensures
        forall|i: int| 0 <= i < spec_next(v).2.len() ==> spec_next(v).2[i] != ';',
        spec_next(v).2.len() > 0 ==> exists|i: int|
            0 <= i < spec_next(v).2.len() && !is_ws(#[trigger] spec_next(v).2[i]),
{
    let t = spec_next(v).2;
    if !v.resend {
        let k = next_command_index(v.lines, v.cur);
        lemma_next_command_index(v.lines, v.cur);
        if k < v.lines.len() {
            lemma_command_text_clean(v.lines[k]);
        }
    }
    if t.len() > 0 {
        assert(!is_ws(t[t.len() - 1]));
    }
}


/// A well-formed reader is in a state the reader's laws speak of.
pub proof fn lemma_reader_wf(f: GCodeFile)
    requires
        f.wf(),
    ensures
        view_wf(f.job()),
{
}

} // verus!
