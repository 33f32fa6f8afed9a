//! The printer core: the lifecycle state machine, the correlation of
//! commands with replies, status aggregation and job streaming.
//!
//! The core performs no I/O. Each operation checks its preconditions, updates
//! the state and hands back the commands to send; the caller writes each one
//! (after `prepare_send`) and feeds every reply to `on_reply` until it says
//! the exchange is over.
use vstd::prelude::*;
use crate::job::{GCodeFile, JobView, spec_next, spec_resend};
use crate::marlin::{
    Marlin, OutgoingCmd, PositionMode, PositionModeCmd, Response, frame_text, outgoing_spec,
};
use crate::types::{
    Axis, AxisSet, ErrorKind, Position, PrintState, PrinterInfo, PrinterStatus, Temperature,
    TemperatureTarget,
};

verus! {

// ---------------------------------------------------------------------------
// Timers
// ---------------------------------------------------------------------------

/// The timer after a clock reading of `now`: the time since the last reading
/// is added (none if the clock went back; the total saturates).
pub open spec fn timer_after(t: PrintTimer, now: u64) -> PrintTimer {
    PrintTimer {
        last_update: now,
        duration: if now >= t.last_update {
            let d = t.duration + (now - t.last_update);
            if d > u64::MAX { u64::MAX } else { d as u64 }
        } else {
            t.duration
        },
    }
}

/// Accumulates print time from clock readings in milliseconds.
pub struct PrintTimer {
    pub last_update: u64,
    pub duration: u64,
}

impl PrintTimer {
    pub fn new(now: u64) -> (r: Self)
        ensures
            r.last_update == now,
            r.duration == 0,
    {
        PrintTimer { last_update: now, duration: 0 }
    }

    /// Adds the time since the last reading (none if the clock went back).
    pub fn update(&mut self, now: u64)
        ensures
            *final(self) == timer_after(*old(self), now),
    {
        if now >= self.last_update {
            let d = now - self.last_update;
            self.duration = if self.duration > u64::MAX - d { u64::MAX } else { self.duration + d };
        }
        self.last_update = now;
    }

    /// Moves the reference to `now`, so that time spent paused is not counted.
    pub fn skip(&mut self, now: u64)
        ensures
            final(self).last_update == now,
            final(self).duration == old(self).duration,
    {
        self.last_update = now;
    }

    pub fn elapsed(&self) -> (r: u64)
        ensures
            r == self.duration,
    {
        self.duration
    }
}

/// Fires at most once per interval, clock readings in milliseconds. The
/// first check always fires.
pub struct IntervalTimer {
    pub interval: u64,
    pub last_timeout: Option<u64>,
}

impl IntervalTimer {
    pub fn new(interval: u64) -> (r: Self)
        ensures
            r.interval == interval,
            r.last_timeout is None,
    {
        IntervalTimer { interval, last_timeout: None }
    }

    pub fn check(&mut self, now: u64) -> (r: bool)
        ensures
            r == match old(self).last_timeout {
                None => true,
                Some(t) => now >= t + old(self).interval,
            },
            final(self).interval == old(self).interval,
            r ==> final(self).last_timeout == Some(now),
            !r ==> final(self).last_timeout == old(self).last_timeout,
    {
        let fire = match self.last_timeout {
            None => true,
            Some(t) => now >= t && now - t >= self.interval,
        };
        if fire {
            self.last_timeout = Some(now);
        }
        fire
    }
}

// ---------------------------------------------------------------------------
// Local mirror of outgoing side effects
// ---------------------------------------------------------------------------

/// Fan indices at or above this bound are not tracked.
pub const MAX_FANS: u32 = 256;

pub open spec fn tap_modes(m: (PositionMode, PositionMode), o: Option<OutgoingCmd>) -> (
    PositionMode,
    PositionMode,
) {
    match o {
        Some(OutgoingCmd::PositionModeChange(PositionModeCmd::All(x))) => (x, x),
        Some(OutgoingCmd::PositionModeChange(PositionModeCmd::ExtruderOnly(x))) => (m.0, x),
        _ => m,
    }
}

/// The fan speeds after fan `i` is set to `v`, the list grown with zeros as needed.
pub open spec fn set_fan(f: Seq<u32>, i: int, v: u32) -> Seq<u32> {
    if i >= MAX_FANS {
        f
    } else if i < f.len() {
        f.update(i, v)
    } else {
        (f + Seq::new((i + 1 - f.len()) as nat, |k: int| 0u32)).update(i, v)
    }
}

pub open spec fn tap_fans(f: Seq<u32>, o: Option<OutgoingCmd>) -> Seq<u32> {
    match o {
        Some(OutgoingCmd::FanSpeedChange(i, v)) => set_fan(f, i as int, v),
        _ => f,
    }
}

pub open spec fn tap_homed(h: AxisSet, o: Option<OutgoingCmd>) -> AxisSet {
    match o {
        Some(OutgoingCmd::HomeAxes(a)) => AxisSet {
            x: h.x || a.x,
            y: h.y || a.y,
            z: h.z || a.z,
            e: h.e || a.e,
        },
        _ => h,
    }
}

pub open spec fn xyz_homed(h: AxisSet) -> bool {
    h.x && h.y && h.z
}

/// Manual moves are allowed once X, Y and Z are homed, or while paused.
pub open spec fn manual_control(h: AxisSet, s: PrintState) -> bool {
    xyz_homed(h) || s == PrintState::PAUSED
}

/// The relative-move envelope: X, Y and Z within `[0, 20]`, the extruder
/// within `[0, 100]` (in units of `10^-5`).
pub open spec fn move_in_envelope(p: Position) -> bool {
    &&& 0 <= p.x <= MOVE_XYZ_MAX
    &&& 0 <= p.y <= MOVE_XYZ_MAX
    &&& 0 <= p.z <= MOVE_XYZ_MAX
    &&& 0 <= p.e <= MOVE_E_MAX
}

pub const MOVE_XYZ_MAX: i64 = 2000000;

pub const MOVE_E_MAX: i64 = 10000000;

/// The highest temperature target accepted from the control surface, in thousandths.
pub const SET_TEMPERATURE_MAX: i64 = 300000;

/// What the caller does after a reply during a command exchange.
#[derive(Debug, Clone, Copy, PartialEq, Eq, Structural)]
pub enum WaitStep {
    /// Read the next reply at once.
    Continue,
    /// Nothing arrived: wait a little, then read again.
    Sleep,
    /// The exchange is over.
    Done,
    /// The exchange failed; the printer is dead.
    Failed(ErrorKind),
}

/// One tick of work while the printer is attached.
#[derive(Debug, Clone)]
pub enum Tick {
    /// Send this job command with this line number, framed.
    Send(String, u32),
    /// Drain pending replies without blocking.
    Poll,
    /// The job has just finished.
    Finished,
    /// The tick failed; the printer is dead.
    Failed(ErrorKind),
}

fn copy_vec<T: Copy>(v: &Vec<T>) -> (r: Vec<T>)
    ensures
        r@ == v@,
{
    let mut out: Vec<T> = Vec::new();
    let mut i: usize = 0;
    while i < v.len()
        invariant
            0 <= i <= v@.len(),
            out@ == v@.subrange(0, i as int),
        decreases v@.len() - i,
    {
        out.push(v[i]);
        i = i + 1;
        assert(out@ =~= v@.subrange(0, i as int));
    }
    assert(out@ =~= v@);
    out
}

/// Sets fan `idx` to `v` in a list of fan speeds (see `set_fan`).
pub fn set_fan_in(f: &mut Vec<u32>, idx: u32, v: u32)
    requires
        old(f)@.len() <= MAX_FANS,
    ensures
        final(f)@ == set_fan(old(f)@, idx as int, v),
        final(f)@.len() <= MAX_FANS,
{
    if idx >= MAX_FANS {
        return;
    }
    let ghost f0 = f@;
    while f.len() <= idx as usize
        invariant
            f@.len() <= MAX_FANS,
            f@.len() > f0.len() ==> f@.len() <= idx + 1,
            idx < MAX_FANS,
            f@.len() >= f0.len(),
            f@ == f0 + Seq::new((f@.len() - f0.len()) as nat, |k: int| 0u32),
            f0 == old(f)@,
        decreases idx + 1 - f@.len(),
    {
        f.push(0);
        assert(f@ =~= f0 + Seq::new((f@.len() - f0.len()) as nat, |k: int| 0u32));
    }
    f.set(idx as usize, v);
    proof {
        if idx < f0.len() {
            assert(f@ =~= f0.update(idx as int, v));
        } else {
            assert(f@ =~= (f0 + Seq::new((idx + 1 - f0.len()) as nat, |k: int| 0u32)).update(
                idx as int,
                v,
            ));
        }
    }
}

/// Copies of the readings and the fan speeds, for a status report.
pub fn copy_status_parts(t: &Vec<Temperature>, f: &Vec<u32>) -> (r: (Vec<Temperature>, Vec<u32>))
    ensures
        r.0@ == t@,
        r.1@ == f@,
{
    (copy_vec(t), copy_vec(f))
}

/// A Marlin printer behind a serial link.
pub struct Printer {
    protocol: Marlin,
    to_print: Option<GCodeFile>,
    homed_axes: AxisSet,
    temperatures: Vec<Temperature>,
    position: Position,
    move_mode_xyz_e: (PositionMode, PositionMode),
    state: PrintState,
    is_busy: bool,
    print_timer: PrintTimer,
    fan_speeds: Vec<u32>,
    info: PrinterInfo,
}

/// Whether a capability list names a Marlin firmware.
pub open spec fn accepted_firmware(info: Seq<(Seq<char>, Seq<char>)>) -> bool {
    crate::capabilities::firmware_of(info) is Some && crate::capabilities::names_marlin(
        crate::capabilities::firmware_of(info).unwrap(),
    )
}

impl Printer {
    pub closed spec fn state_spec(&self) -> PrintState {
        self.state
    }

    pub closed spec fn homed(&self) -> AxisSet {
        self.homed_axes
    }

    pub closed spec fn busy(&self) -> bool {
        self.is_busy
    }

    pub closed spec fn modes(&self) -> (PositionMode, PositionMode) {
        self.move_mode_xyz_e
    }

    pub closed spec fn fans(&self) -> Seq<u32> {
        self.fan_speeds@
    }

    pub closed spec fn temps(&self) -> Seq<Temperature> {
        self.temperatures@
    }

    pub closed spec fn pos(&self) -> Position {
        self.position
    }

    pub closed spec fn has_job(&self) -> bool {
        self.to_print is Some
    }

    /// The loaded job's reader state.
    pub closed spec fn job(&self) -> JobView {
        self.to_print.unwrap().job()
    }

    /// The capabilities the firmware reported.
    pub closed spec fn info_entries(&self) -> crate::capabilities::Entries {
        crate::capabilities::info_view(self.info)
    }

    /// The path of the loaded job.
    pub closed spec fn job_path(&self) -> Seq<char> {
        self.to_print.unwrap().path_view()
    }

    /// The loaded job's timepoints.
    pub closed spec fn job_points(&self) -> Seq<(u32, u64)> {
        self.to_print.unwrap().points()
    }

    /// The loaded job's active timepoint.
    pub closed spec fn job_active_point(&self) -> int {
        self.to_print.unwrap().active_point()
    }

    pub closed spec fn timer(&self) -> PrintTimer {
        self.print_timer
    }

    pub closed spec fn wf(&self) -> bool {
        &&& match self.to_print {
            Some(j) => j.wf(),
            None => true,
        }
        &&& self.fan_speeds@.len() <= MAX_FANS
    }

    /// Attaches a printer whose firmware reported `info`. Only Marlin
    /// firmware is accepted. The commands returned enable periodic
    /// temperature reports; a failure to send them is `InvalidData`.
    pub fn new(info: PrinterInfo, now: u64) -> (r: Result<(Printer, Vec<String>), ErrorKind>)
        ensures
            r is Ok <==> accepted_firmware(crate::capabilities::info_view(info)),
            r is Err ==> r == Err::<(Printer, Vec<String>), ErrorKind>(ErrorKind::InvalidData),
            r is Ok ==> ({
                let p = r.unwrap().0;
                let cmds = r.unwrap().1;
                &&& p.wf()
                &&& p.state_spec() == PrintState::CONNECTED
                &&& !p.has_job()
                &&& p.homed() == AxisSet { x: false, y: false, z: false, e: false }
                &&& p.modes() == (PositionMode::ABSOLUTE, PositionMode::ABSOLUTE)
                &&& !p.busy()
                &&& p.fans() == seq![0u32]
                &&& p.temps().len() == 0
                &&& cmds@.len() == 1
                &&& cmds@[0]@ == seq!['M', '1', '5', '5', ' ', 'S', '2']
            }),
    {
        if !crate::capabilities::is_marlin(&info) {
            return Err(ErrorKind::InvalidData);
        }
        let protocol = Marlin {};
        let cmds = protocol.get_enable_temperature_updates_cmds(2);
        proof {
            assert(crate::text::decimal(2) =~= seq!['2']);
            assert(cmds@[0]@ =~= seq!['M', '1', '5', '5', ' ', 'S', '2']);
        }
        let mut fans: Vec<u32> = Vec::new();
        fans.push(0);
        let p = Printer {
            protocol,
            to_print: None,
            homed_axes: AxisSet::empty(),
            temperatures: Vec::new(),
            position: Position::origin(),
            move_mode_xyz_e: (PositionMode::ABSOLUTE, PositionMode::ABSOLUTE),
            state: PrintState::CONNECTED,
            is_busy: false,
            print_timer: PrintTimer::new(now),
            fan_speeds: fans,
            info,
        };
        proof {
            assert(p.fans() =~= seq![0u32]);
        }
        Ok((p, cmds))
    }

    /// The capabilities the firmware reported.
    pub fn get_info(&self) -> (r: PrinterInfo)
        ensures
            crate::capabilities::info_view(r) == self.info_entries(),
    {
        crate::capabilities::copy_info(&self.info)
    }

    pub fn get_state(&self) -> (r: PrintState)
        ensures
            r == self.state_spec(),
    {
        self.state
    }

    pub fn can_move_manually(&self) -> (r: bool)
        ensures
            r == manual_control(self.homed(), self.state_spec()),
    {
        (self.homed_axes.x && self.homed_axes.y && self.homed_axes.z) || self.state
            == PrintState::PAUSED
    }

    fn set_fan_speed_local(&mut self, idx: u32, v: u32)
        requires
            old(self).fan_speeds@.len() <= MAX_FANS,
        ensures
            final(self).fan_speeds@ == set_fan(old(self).fan_speeds@, idx as int, v),
            final(self).fan_speeds@.len() <= MAX_FANS,
            final(self).to_print == old(self).to_print,
            final(self).state == old(self).state,
            final(self).homed_axes == old(self).homed_axes,
            final(self).move_mode_xyz_e == old(self).move_mode_xyz_e,
            final(self).is_busy == old(self).is_busy,
            final(self).temperatures == old(self).temperatures,
            final(self).position == old(self).position,
            final(self).print_timer == old(self).print_timer,
    {
        set_fan_in(&mut self.fan_speeds, idx, v);
    }

    /// Mirrors the side effects of `cmd` locally and frames it when it is a
    /// job command (one with a line number). Returns the wire text.
    pub fn prepare_send(&mut self, cmd: &str, line_no: Option<u32>) -> (r: String)
        requires
            old(self).wf(),
        ensures
            final(self).wf(),
            final(self).modes() == tap_modes(old(self).modes(), outgoing_spec(cmd@)),
            final(self).fans() == tap_fans(old(self).fans(), outgoing_spec(cmd@)),
            final(self).homed() == tap_homed(old(self).homed(), outgoing_spec(cmd@)),
            final(self).state_spec() == old(self).state_spec(),
            final(self).busy() == old(self).busy(),
            final(self).has_job() == old(self).has_job(),
            old(self).has_job() ==> final(self).job() == old(self).job(),
            final(self).temps() == old(self).temps(),
            final(self).pos() == old(self).pos(),
            final(self).timer() == old(self).timer(),
            match line_no {
                Some(n) => r@ == frame_text(n, cmd@),
                None => r@ == cmd@,
            },
    {
        match self.protocol.parse_outgoing_cmd(cmd) {
            Some(OutgoingCmd::PositionModeChange(PositionModeCmd::All(m))) => {
                self.move_mode_xyz_e = (m, m);
            },
            Some(OutgoingCmd::PositionModeChange(PositionModeCmd::ExtruderOnly(m))) => {
                self.move_mode_xyz_e.1 = m;
            },
            Some(OutgoingCmd::FanSpeedChange(idx, v)) => {
                self.set_fan_speed_local(idx, v);
            },
            Some(OutgoingCmd::HomeAxes(a)) => {
                self.homed_axes = self.homed_axes.union(&a);
                proof {
                    assert(self.homed_axes.has(Axis::X) == (old(self).homed_axes.has(Axis::X) || a.has(Axis::X)));
                    assert(self.homed_axes.has(Axis::Y) == (old(self).homed_axes.has(Axis::Y) || a.has(Axis::Y)));
                    assert(self.homed_axes.has(Axis::Z) == (old(self).homed_axes.has(Axis::Z) || a.has(Axis::Z)));
                    assert(self.homed_axes.has(Axis::E) == (old(self).homed_axes.has(Axis::E) || a.has(Axis::E)));
                }
            },
            None => {},
        }
        match line_no {
            Some(n) => self.protocol.add_message_frame(n, cmd),
            None => cmd.to_owned(),
        }
    }

    /// A write to the printer failed: the printer is dead.
    pub fn on_write_failed(&mut self)
        ensures
            final(self).state_spec() == PrintState::DEAD,
            final(self).wf() == old(self).wf(),
    {
        self.state = PrintState::DEAD;
    }

    /// Handles one reply (or read error) while waiting for a command's reply.
    pub fn on_reply(&mut self, reply: Result<Response, ErrorKind>) -> (r: WaitStep)
        requires
            old(self).wf(),
        ensures
            final(self).wf(),
            final(self).homed() == old(self).homed(),
            final(self).modes() == old(self).modes(),
            final(self).fans() == old(self).fans(),
            final(self).timer() == old(self).timer(),
            final(self).has_job() == old(self).has_job(),
            match reply {
                Ok(Response::NONE) => r == WaitStep::Sleep && final(self).state_spec()
                    == old(self).state_spec() && final(self).busy() == old(self).busy()
                    && (old(self).has_job() ==> final(self).job() == old(self).job()),
                Ok(Response::BUSY) => r == WaitStep::Done && final(self).busy()
                    && final(self).state_spec() == old(self).state_spec() && (old(self).has_job()
                    ==> final(self).job() == old(self).job()),
                Ok(Response::OK) => r == WaitStep::Done && !final(self).busy()
                    && final(self).state_spec() == old(self).state_spec() && (old(self).has_job()
                    ==> final(self).job() == old(self).job()),
                Ok(Response::NACK(k)) => !final(self).busy() && (if old(self).has_job() {
                    r == WaitStep::Continue && final(self).state_spec() == old(self).state_spec()
                        && final(self).job() == spec_resend(old(self).job(), k as int)
                } else {
                    r == WaitStep::Failed(ErrorKind::InvalidData) && final(self).state_spec()
                        == PrintState::DEAD
                }),
                Ok(Response::TEMPERATURE(t, _)) => r == WaitStep::Continue && final(self).temps()
                    == t@ && final(self).state_spec() == old(self).state_spec()
                    && final(self).busy() == old(self).busy() && (old(self).has_job()
                    ==> final(self).job() == old(self).job()),
                Ok(Response::POSITION(p)) => r == WaitStep::Continue && final(self).pos() == p
                    && final(self).state_spec() == old(self).state_spec() && final(self).busy()
                    == old(self).busy() && (old(self).has_job() ==> final(self).job() == old(self).job()),
                Err(ErrorKind::InvalidData) => r == WaitStep::Continue && final(self).state_spec()
                    == old(self).state_spec() && final(self).busy() == old(self).busy() && (old(self).has_job() ==> final(self).job() == old(self).job()),
                Err(e) => r == WaitStep::Failed(e) && final(self).state_spec() == PrintState::DEAD,
            },
    {
        match reply {
            Ok(Response::NONE) => WaitStep::Sleep,
            Ok(Response::BUSY) => {
                self.is_busy = true;
                WaitStep::Done
            },
            Ok(Response::OK) => {
                self.is_busy = false;
                WaitStep::Done
            },
            Ok(Response::NACK(k)) => {
                self.is_busy = false;
                match &mut self.to_print {
                    Some(j) => {
                        j.resend_gcode_line(k);
                        WaitStep::Continue
                    },
                    None => {
                        self.state = PrintState::DEAD;
                        WaitStep::Failed(ErrorKind::InvalidData)
                    },
                }
            },
            Ok(Response::TEMPERATURE(t, _)) => {
                self.temperatures = t;
                WaitStep::Continue
            },
            Ok(Response::POSITION(p)) => {
                self.position = p;
                WaitStep::Continue
            },
            Err(ErrorKind::InvalidData) => WaitStep::Continue,
            Err(e) => {
                self.state = PrintState::DEAD;
                WaitStep::Failed(e)
            },
        }
    }

    /// Handles one reply while draining replies between job lines; returns
    /// whether to read on.
    pub fn on_poll_reply(&mut self, reply: Result<Response, ErrorKind>) -> (r: bool)
        requires
            old(self).wf(),
        ensures
            final(self).wf(),
            final(self).homed() == old(self).homed(),
            final(self).has_job() == old(self).has_job(),
            !(reply matches Ok(Response::NACK(_))) ==> final(self).state_spec() == old(self).state_spec(),
            !(reply matches Ok(Response::NACK(_))) && old(self).has_job() ==> final(self).job() == old(self).job(),
            match reply {
                Ok(Response::BUSY) => !r && final(self).busy(),
                Ok(Response::OK) => !r && !final(self).busy(),
                Ok(Response::NONE) => !r && final(self).busy() == old(self).busy(),
                Ok(Response::TEMPERATURE(t, _)) => r && final(self).temps() == t@,
                Ok(Response::POSITION(p)) => r && final(self).pos() == p,
                Ok(Response::NACK(k)) => !final(self).busy() && (if old(self).has_job() {
                    r && final(self).state_spec() == old(self).state_spec()
                        && final(self).job() == spec_resend(old(self).job(), k as int)
                } else {
                    !r && final(self).state_spec() == PrintState::DEAD
                }),
                Err(_) => !r && final(self).busy() == old(self).busy(),
            },
    {
        match reply {
            Ok(Response::BUSY) => {
                self.is_busy = true;
                false
            },
            Ok(Response::OK) => {
                self.is_busy = false;
                false
            },
            Ok(Response::NONE) => false,
            Ok(Response::TEMPERATURE(t, _)) => {
                self.temperatures = t;
                true
            },
            Ok(Response::POSITION(p)) => {
                self.position = p;
                true
            },
            Ok(Response::NACK(k)) => {
                self.is_busy = false;
                match &mut self.to_print {
                    Some(j) => {
                        j.resend_gcode_line(k);
                        true
                    },
                    None => {
                        self.state = PrintState::DEAD;
                        false
                    },
                }
            },
            Err(_) => false,
        }
    }
}

} // verus!

verus! {

pub open spec fn cmds_view(v: Seq<String>) -> Seq<Seq<char>> {
    v.map_values(|s: String| s@)
}

/// The commands that turn off every heater among the readings, in order.
pub open spec fn heaters_off(ts: Seq<Temperature>) -> Seq<Seq<char>>
    decreases ts.len(),
{
    if ts.len() == 0 {
        Seq::empty()
    } else {
        let t = ts.last();
        heaters_off(ts.drop_last()) + match crate::marlin::heater_code(t.measured_from) {
            Some(c) => seq![crate::marlin::set_temperature_text(c, t.index, 0)],
            None => Seq::empty(),
        }
    }
}

/// The commands that resume a paused print: absolute mode, back to `pos`,
/// recover the filament, then the modes in force before.
pub open spec fn resume_cmds(pos: Position, m: (PositionMode, PositionMode)) -> Seq<Seq<char>> {
    seq![
        crate::marlin::mode_all_text(PositionMode::ABSOLUTE),
        crate::marlin::mode_extruder_text(PositionMode::ABSOLUTE),
        crate::marlin::xyz_move_text(pos),
        seq!['G', '1', '1'],
        crate::marlin::mode_all_text(m.0),
        crate::marlin::mode_extruder_text(m.1),
    ]
}

pub open spec fn reset_line_cmd() -> Seq<char> {
    seq!['M', '1', '1', '0', ' ', 'N', '0']
}

pub open spec fn can_home(s: PrintState) -> bool {
    s == PrintState::CONNECTED || s == PrintState::DONE || s == PrintState::PAUSED
}

/// Whether some reading comes from probe `p`.
pub open spec fn has_probe(ts: Seq<Temperature>, p: crate::types::ProbePoint) -> bool {
    exists|i: int| 0 <= i < ts.len() && (#[trigger] ts[i]).measured_from == p
}

impl Printer {
    /// Loads a job. Allowed while connected or done; the printer's line
    /// counter is reset and the print timer restarts.
    pub fn set_gcode_file(&mut self, job: GCodeFile, now: u64) -> (r: Result<Vec<String>, ErrorKind>)
        requires
            old(self).wf(),
            job.wf(),
        ensures
            final(self).wf(),
            r is Err <==> !(old(self).state_spec() == PrintState::CONNECTED || old(self).state_spec()
                == PrintState::DONE),
            r is Err ==> r == Err::<Vec<String>, ErrorKind>(ErrorKind::InvalidInput) && *final(self)
                == *old(self),
            r is Ok ==> final(self).has_job() && final(self).job() == job.job()
                && final(self).state_spec() == PrintState::CONNECTED && final(self).timer()
                == (PrintTimer { last_update: now, duration: 0 }) && cmds_view(r.unwrap()@) == seq![reset_line_cmd()]
                && final(self).homed() == old(self).homed() && final(self).modes() == old(self).modes(),
    {
        if self.state != PrintState::CONNECTED && self.state != PrintState::DONE {
            return Err(ErrorKind::InvalidInput);
        }
        self.to_print = Some(job);
        self.print_timer = PrintTimer::new(now);
        self.state = PrintState::CONNECTED;
        let c = self.protocol.get_reset_line_no_cmd(0);
        proof {
            assert(crate::text::decimal(0) =~= seq!['0']);
            assert(c@ =~= reset_line_cmd());
        }
        let mut cmds: Vec<String> = Vec::new();
        cmds.push(c);
        proof {
            assert(cmds_view(cmds@) =~= seq![reset_line_cmd()]);
        }
        Ok(cmds)
    }

    /// Unloads the job, as when its file is deleted. Refused while printing
    /// or paused; from done the printer returns to connected.
    pub fn clear_gcode_file(&mut self) -> (r: Result<(), ErrorKind>)
        requires
            old(self).wf(),
        ensures
            final(self).wf(),
            r is Err <==> (old(self).state_spec() == PrintState::STARTED || old(self).state_spec()
                == PrintState::PAUSED),
            r is Err ==> r == Err::<(), ErrorKind>(ErrorKind::InvalidInput) && *final(self) == *old(self),
            r is Ok ==> !final(self).has_job() && final(self).homed() == old(self).homed()
                && final(self).state_spec() == (if old(self).state_spec() == PrintState::DONE {
                PrintState::CONNECTED
            } else {
                old(self).state_spec()
            }),
    {
        if self.state == PrintState::STARTED || self.state == PrintState::PAUSED {
            return Err(ErrorKind::InvalidInput);
        }
        self.to_print = None;
        if self.state == PrintState::DONE {
            self.state = PrintState::CONNECTED;
        }
        Ok(())
    }

    /// Starts or resumes the print. From a pause the head returns to where
    /// it was; otherwise a job that was already streamed is rewound and the
    /// printer's line counter reset.
    pub fn start(&mut self, now: u64) -> (r: Result<Vec<String>, ErrorKind>)
        requires
            old(self).wf(),
        ensures
            final(self).wf(),
            r is Err <==> !(old(self).state_spec() == PrintState::PAUSED || old(self).state_spec()
                == PrintState::DONE || (old(self).state_spec() == PrintState::CONNECTED && old(self).has_job())),
            r is Err ==> r == Err::<Vec<String>, ErrorKind>(ErrorKind::InvalidInput) && *final(self)
                == *old(self),
            r is Ok ==> final(self).state_spec() == PrintState::STARTED && final(self).has_job()
                == old(self).has_job() && final(self).homed() == old(self).homed()
                && final(self).modes() == old(self).modes() && final(self).pos() == old(self).pos(),
            r is Ok && old(self).state_spec() == PrintState::PAUSED ==> cmds_view(r.unwrap()@)
                == resume_cmds(old(self).pos(), old(self).modes()) && (old(self).has_job()
                ==> final(self).job() == old(self).job()) && final(self).timer() == (PrintTimer {
                last_update: now,
                ..old(self).timer()
            }),
            r is Ok && old(self).state_spec() != PrintState::PAUSED && old(self).has_job() && old(self).job().cmd != 0 ==> cmds_view(r.unwrap()@) == seq![reset_line_cmd()] && final(self).job() == (JobView { cur: 0, cmd: 0, resend: false, ..old(self).job() })
                && final(self).timer() == (PrintTimer { last_update: now, duration: 0 }),
            r is Ok && old(self).state_spec() != PrintState::PAUSED && !(old(self).has_job() && old(self).job().cmd != 0) ==> r.unwrap()@.len() == 0 && (old(self).has_job() ==> final(self).job() == old(self).job()) && final(self).timer() == (PrintTimer {
                last_update: now,
                ..old(self).timer()
            }),
    {
        if self.state != PrintState::CONNECTED && self.state != PrintState::PAUSED && self.state
            != PrintState::DONE {
            return Err(ErrorKind::InvalidInput);
        }
        if self.state == PrintState::CONNECTED && self.to_print.is_none() {
            return Err(ErrorKind::InvalidInput);
        }
        let mut cmds: Vec<String> = Vec::new();
        if self.state == PrintState::PAUSED {
            let abs = self.protocol.get_set_position_mode(
                &PositionMode::ABSOLUTE,
                &PositionMode::ABSOLUTE,
            );
            let prior = self.protocol.get_set_position_mode(
                &self.move_mode_xyz_e.0,
                &self.move_mode_xyz_e.1,
            );
            cmds.push(abs[0].clone());
            cmds.push(abs[1].clone());
            cmds.push(self.protocol.get_absolute_move_cmd(&self.position));
            cmds.push(self.protocol.get_recover_extruder_cmd());
            cmds.push(prior[0].clone());
            cmds.push(prior[1].clone());
            proof {
                assert(cmds_view(cmds@) =~= resume_cmds(self.position, self.move_mode_xyz_e));
            }
            self.print_timer.skip(now);
        } else {
            let rewind = match &self.to_print {
                Some(j) => j.command_line_no() != 0,
                None => false,
            };
            if rewind {
                match &mut self.to_print {
                    Some(j) => j.rewind(),
                    None => {},
                }
                self.print_timer = PrintTimer::new(now);
                let c = self.protocol.get_reset_line_no_cmd(0);
                proof {
                    assert(crate::text::decimal(0) =~= seq!['0']);
                    assert(c@ =~= reset_line_cmd());
                }
                cmds.push(c);
                proof {
                    assert(cmds_view(cmds@) =~= seq![reset_line_cmd()]);
                }
            } else {
                self.print_timer.skip(now);
            }
        }
        self.state = PrintState::STARTED;
        Ok(cmds)
    }

    /// Stops the print: ends a pending wait if the printer is busy, turns the
    /// fan off and every known heater off, and returns to connected.
    pub fn stop(&mut self) -> (r: Result<Vec<String>, ErrorKind>)
        requires
            old(self).wf(),
        ensures
            final(self).wf(),
            r is Err <==> !(old(self).state_spec() == PrintState::STARTED || old(self).state_spec()
                == PrintState::DONE || old(self).state_spec() == PrintState::PAUSED),
            r is Err ==> r == Err::<Vec<String>, ErrorKind>(ErrorKind::InvalidInput) && *final(self)
                == *old(self),
            r is Ok ==> final(self).state_spec() == PrintState::CONNECTED && cmds_view(r.unwrap()@)
                == (if old(self).busy() {
                seq![seq!['M', '1', '0', '8']]
            } else {
                Seq::empty()
            }) + seq![crate::marlin::fan_cmd_text(0, 0)] + heaters_off(old(self).temps())
                && final(self).has_job() == old(self).has_job() && (old(self).has_job() ==> final(self).job() == old(self).job()) && final(self).homed() == old(self).homed(),
    {
        if self.state != PrintState::STARTED && self.state != PrintState::DONE && self.state
            != PrintState::PAUSED {
            return Err(ErrorKind::InvalidInput);
        }
        let mut cmds: Vec<String> = Vec::new();
        if self.is_busy {
            cmds.push(self.protocol.get_stop_cmd(false));
        }
        cmds.push(self.protocol.get_fan_speed_cmd(0, 0));
        let ghost head = cmds_view(cmds@);
        proof {
            assert(head =~= (if self.is_busy {
                seq![seq!['M', '1', '0', '8']]
            } else {
                Seq::empty()
            }) + seq![crate::marlin::fan_cmd_text(0, 0)]);
        }
        let mut i: usize = 0;
        while i < self.temperatures.len()
            invariant
                0 <= i <= self.temperatures@.len(),
                self == old(self),
                cmds_view(cmds@) == head + heaters_off(self.temperatures@.subrange(0, i as int)),
            decreases self.temperatures@.len() - i,
        {
            let t = self.temperatures[i];
            let off = self.protocol.get_set_temperature_cmds(
                &TemperatureTarget { to_set: t.measured_from, index: Some(t.index), target: 0 },
            );
            let ghost before = cmds_view(cmds@);
            if off.len() > 0 {
                cmds.push(off[0].clone());
            }
            proof {
                let ts = self.temperatures@.subrange(0, i + 1);
                assert(ts.drop_last() =~= self.temperatures@.subrange(0, i as int));
                assert(ts.last() == t);
                let tail = match crate::marlin::heater_code(t.measured_from) {
                    Some(c) => seq![crate::marlin::set_temperature_text(c, t.index, 0)],
                    None => Seq::<Seq<char>>::empty(),
                };
                assert(heaters_off(ts) == heaters_off(ts.drop_last()) + tail);
                if crate::marlin::heater_code(t.measured_from) is Some {
                    assert(off@[0]@ == crate::marlin::set_temperature_text(
                        crate::marlin::heater_code(t.measured_from).unwrap(),
                        t.index,
                        0,
                    ));
                    assert(cmds_view(cmds@) =~= before + tail);
                } else {
                    assert(cmds_view(cmds@) =~= before + tail);
                }
                assert(cmds_view(cmds@) =~= head + heaters_off(ts));
            }
            i = i + 1;
        }
        proof {
            assert(self.temperatures@.subrange(0, i as int) =~= self.temperatures@);
        }
        self.state = PrintState::CONNECTED;
        Ok(cmds)
    }

    /// Pauses the print: asks for the position, retracts the filament, and
    /// stops counting print time.
    pub fn pause(&mut self, now: u64) -> (r: Result<Vec<String>, ErrorKind>)
        requires
            old(self).wf(),
        ensures
            final(self).wf(),
            r is Err <==> old(self).state_spec() != PrintState::STARTED,
            r is Err ==> r == Err::<Vec<String>, ErrorKind>(ErrorKind::InvalidInput) && *final(self)
                == *old(self),
            r is Ok ==> final(self).state_spec() == PrintState::PAUSED && cmds_view(r.unwrap()@)
                == seq![seq!['M', '1', '1', '4'], seq!['G', '1', '0']] && final(self).homed()
                == old(self).homed() && final(self).modes() == old(self).modes() && final(self).pos() == old(self).pos() && final(self).has_job() == old(self).has_job() && (old(self).has_job() ==> final(self).job() == old(self).job()),
            r is Ok ==> final(self).timer() == timer_after(old(self).timer(), now),
    {
        if self.state != PrintState::STARTED {
            return Err(ErrorKind::InvalidInput);
        }
        self.print_timer.update(now);
        let mut cmds: Vec<String> = Vec::new();
        cmds.push(self.protocol.get_report_position_cmd());
        cmds.push(self.protocol.get_retract_extruder_cmd());
        proof {
            assert(cmds_view(cmds@) =~= seq![seq!['M', '1', '1', '4'], seq!['G', '1', '0']]);
        }
        self.state = PrintState::PAUSED;
        Ok(cmds)
    }

    /// Homes `axes` (all of X, Y and Z when it names none). From done the
    /// printer returns to connected. The homed axes are recorded when the
    /// home command is sent.
    pub fn go_home(&mut self, axes: &AxisSet) -> (r: Result<Vec<String>, ErrorKind>)
        requires
            old(self).wf(),
        ensures
            final(self).wf(),
            r is Err <==> !can_home(old(self).state_spec()),
            r is Err ==> r == Err::<Vec<String>, ErrorKind>(ErrorKind::InvalidInput) && *final(self)
                == *old(self),
            r is Ok ==> cmds_view(r.unwrap()@) == seq![
                seq!['M', '1', '7'],
                crate::marlin::home_cmd_text(*axes),
            ] && final(self).state_spec() == (if old(self).state_spec() == PrintState::DONE {
                PrintState::CONNECTED
            } else {
                old(self).state_spec()
            }) && final(self).homed() == old(self).homed() && final(self).has_job() == old(self).has_job() && (old(self).has_job() ==> final(self).job() == old(self).job()),
    {
        if !(self.state == PrintState::CONNECTED || self.state == PrintState::DONE || self.state
            == PrintState::PAUSED) {
            return Err(ErrorKind::InvalidInput);
        }
        let cmds = self.protocol.get_home_cmds(axes);
        proof {
            assert(cmds_view(cmds@) =~= seq![seq!['M', '1', '7'], crate::marlin::home_cmd_text(*axes)]);
        }
        if self.state == PrintState::DONE {
            self.state = PrintState::CONNECTED;
        }
        Ok(cmds)
    }

    /// A manual move by `new_pos`, relative to the current position. It needs
    /// manual control and a move within the envelope.
    pub fn move_relative(&mut self, new_pos: &Position) -> (r: Result<Vec<String>, ErrorKind>)
        requires
            old(self).wf(),
        ensures
            *final(self) == *old(self),
            r is Err <==> !(can_home(old(self).state_spec()) && manual_control(
                old(self).homed(),
                old(self).state_spec(),
            ) && move_in_envelope(*new_pos)),
            r is Err ==> r == Err::<Vec<String>, ErrorKind>(ErrorKind::InvalidInput),
            r is Ok ==> cmds_view(r.unwrap()@) == seq![
                seq!['G', '9', '1'],
                crate::marlin::move_text(*new_pos),
                crate::marlin::mode_all_text(old(self).modes().0),
                crate::marlin::mode_extruder_text(old(self).modes().1),
            ],
    {
        if !(self.state == PrintState::CONNECTED || self.state == PrintState::DONE || self.state
            == PrintState::PAUSED) {
            return Err(ErrorKind::InvalidInput);
        }
        if !self.can_move_manually() {
            return Err(ErrorKind::InvalidInput);
        }
        if new_pos.x > MOVE_XYZ_MAX || new_pos.x < 0 || new_pos.y > MOVE_XYZ_MAX || new_pos.y < 0
            || new_pos.z > MOVE_XYZ_MAX || new_pos.z < 0 || new_pos.e > MOVE_E_MAX || new_pos.e
            < 0 {
            return Err(ErrorKind::InvalidInput);
        }
        let cmds = self.protocol.get_move_cmds(new_pos, self.move_mode_xyz_e);
        proof {
            assert(cmds_view(cmds@) =~= seq![
                seq!['G', '9', '1'],
                crate::marlin::move_text(*new_pos),
                crate::marlin::mode_all_text(self.move_mode_xyz_e.0),
                crate::marlin::mode_extruder_text(self.move_mode_xyz_e.1),
            ]);
        }
        Ok(cmds)
    }

    /// Sets a heater's target. The heater must be one the printer reports and
    /// the target within `[0, 300]` degrees.
    pub fn set_temperature(&mut self, new_temp: &TemperatureTarget) -> (r: Result<Vec<String>, ErrorKind>)
        requires
            old(self).wf(),
        ensures
            *final(self) == *old(self),
            r is Err <==> !(old(self).state_spec() != PrintState::DEAD && has_probe(
                old(self).temps(),
                new_temp.to_set,
            ) && 0 <= new_temp.target <= SET_TEMPERATURE_MAX),
            r is Err ==> r == Err::<Vec<String>, ErrorKind>(ErrorKind::InvalidInput),
            r is Ok && crate::marlin::heater_code(new_temp.to_set) is Some ==> cmds_view(
                r.unwrap()@,
            ) == seq![
                crate::marlin::set_temperature_text(
                    crate::marlin::heater_code(new_temp.to_set).unwrap(),
                    match new_temp.index {
                        Some(i) => i,
                        None => 0u32,
                    },
                    new_temp.target,
                ),
            ],
            r is Ok && crate::marlin::heater_code(new_temp.to_set) is None ==> r.unwrap()@.len()
                == 0,
    {
        if self.state == PrintState::DEAD {
            return Err(ErrorKind::InvalidInput);
        }
        let mut found = false;
        let mut i: usize = 0;
        while i < self.temperatures.len()
            invariant
                0 <= i <= self.temperatures@.len(),
                found == exists|j: int| 0 <= j < i && (#[trigger] self.temperatures@[j]).measured_from
                    == new_temp.to_set,
            decreases self.temperatures@.len() - i,
        {
            if self.temperatures[i].measured_from == new_temp.to_set {
                found = true;
            }
            i = i + 1;
        }
        if !found {
            return Err(ErrorKind::InvalidInput);
        }
        if new_temp.target > SET_TEMPERATURE_MAX || new_temp.target < 0 {
            return Err(ErrorKind::InvalidInput);
        }
        let cmds = self.protocol.get_set_temperature_cmds(new_temp);
        proof {
            if cmds@.len() == 1 {
                assert(cmds_view(cmds@) =~= seq![cmds@[0]@]);
            }
        }
        Ok(cmds)
    }

    /// Sets fan `index` to `speed` thousandths of full speed, within `[0, 1000]`.
    pub fn set_fan_speed(&mut self, index: u32, speed: i64) -> (r: Result<Vec<String>, ErrorKind>)
        requires
            old(self).wf(),
        ensures
            *final(self) == *old(self),
            r is Err <==> !(old(self).state_spec() != PrintState::DEAD && 0 <= speed <= 1000),
            r is Err ==> r == Err::<Vec<String>, ErrorKind>(ErrorKind::InvalidInput),
            r is Ok ==> cmds_view(r.unwrap()@) == seq![crate::marlin::fan_cmd_text(index, speed)],
    {
        if self.state == PrintState::DEAD || speed < 0 || speed > 1000 {
            return Err(ErrorKind::InvalidInput);
        }
        let mut cmds: Vec<String> = Vec::new();
        cmds.push(self.protocol.get_fan_speed_cmd(index, speed));
        proof {
            assert(cmds_view(cmds@) =~= seq![crate::marlin::fan_cmd_text(index, speed)]);
        }
        Ok(cmds)
    }

    /// One tick of work. While printing and not busy, the next job command is
    /// handed out (or the job finishes); otherwise replies are to be drained.
    pub fn tick(&mut self, now: u64) -> (r: Tick)
        requires
            old(self).wf(),
        ensures
            final(self).wf(),
            final(self).homed() == old(self).homed(),
            final(self).has_job() == old(self).has_job(),
            old(self).state_spec() != PrintState::STARTED ==> r is Poll && *final(self) == *old(self),
            old(self).state_spec() == PrintState::STARTED ==> final(self).timer() == timer_after(
                old(self).timer(),
                now,
            ),
            old(self).state_spec() == PrintState::STARTED && old(self).busy() ==> r is Poll
                && final(self).state_spec() == PrintState::STARTED && final(self).job() == old(self).job(),
            old(self).state_spec() == PrintState::STARTED && !old(self).busy() && !old(self).has_job()
                ==> r == Tick::Failed(ErrorKind::NotFound) && final(self).state_spec()
                == PrintState::DEAD,
            old(self).state_spec() == PrintState::STARTED && !old(self).busy() && old(self).has_job()
                ==> ({
                let (v, n, t) = spec_next(old(self).job());
                &&& final(self).job() == v
                &&& t.len() == 0 ==> r is Finished && final(self).state_spec() == PrintState::DONE
                &&& t.len() > 0 ==> (r matches Tick::Send(c, k) && c@ == t && k as int == n)
                &&& t.len() > 0 ==> final(self).state_spec() == PrintState::STARTED
            }),
    {
        if self.state != PrintState::STARTED {
            return Tick::Poll;
        }
        self.print_timer.update(now);
        if self.is_busy {
            return Tick::Poll;
        }
        match &mut self.to_print {
            None => {
                self.state = PrintState::DEAD;
                Tick::Failed(ErrorKind::NotFound)
            },
            Some(j) => {
                let (n, text) = j.next_line();
                if text.as_str().is_empty() {
                    self.state = PrintState::DONE;
                    Tick::Finished
                } else {
                    Tick::Send(text, n)
                }
            },
        }
    }

    /// The printer's status. Manual control is reported enabled exactly when
    /// X, Y and Z are homed or the print is paused.
    pub fn get_status(&mut self) -> (r: PrinterStatus)
        requires
            old(self).wf(),
        ensures
            final(self).wf(),
            final(self).state_spec() == old(self).state_spec(),
            final(self).homed() == old(self).homed(),
            final(self).has_job() == old(self).has_job(),
            old(self).has_job() ==> final(self).job() == old(self).job(),
            r.printer_connected,
            r.manual_control_enabled == manual_control(old(self).homed(), old(self).state_spec()),
            r.state == old(self).state_spec(),
            r.temperatures@ == old(self).temps(),
            r.position == old(self).pos(),
            r.fan_speed@ == old(self).fans(),
            r.gcode_lines_done_total is Some <==> old(self).has_job(),
            !old(self).has_job() ==> r.print_time_remaining is None,
            old(self).has_job() ==> r.print_time_remaining == crate::job::job_remaining(
                old(self).job_points(),
                old(self).job_active_point(),
                old(self).job().cur,
                old(self).timer().duration,
            ),
            old(self).has_job() ==> ({
                let (name, cmd, total) = r.gcode_lines_done_total.unwrap();
                &&& name@ == crate::job::file_name(old(self).job_path())
                &&& cmd as int == old(self).job().cmd
                &&& total as int == old(self).job().lines.len()
            }),
    {
        let elapsed = self.print_timer.elapsed();
        let manual = self.can_move_manually();
        let temperatures = copy_vec(&self.temperatures);
        let fan_speed = copy_vec(&self.fan_speeds);
        let (done_total, remaining) = match &mut self.to_print {
            Some(j) => {
                let (_cur, total) = j.get_progress();
                let name = j.name();
                let cmd = j.command_line_no();
                let rem = j.get_remaining_time(elapsed);
                (Some((name, cmd, total)), rem)
            },
            None => (None, None),
        };
        PrinterStatus {
            printer_connected: true,
            manual_control_enabled: manual,
            state: self.state,
            temperatures,
            position: self.position,
            gcode_lines_done_total: done_total,
            print_time_remaining: remaining,
            fan_speed,
        }
    }
}


/// A well-formed printer's job is in a state the reader's laws speak of.
pub proof fn lemma_printer_job_wf(p: Printer)
    requires
        p.wf(),
        p.has_job(),
    ensures
        crate::job::view_wf(p.job()),
{
    crate::job::lemma_reader_wf(p.to_print.unwrap());
}

} // verus!
