//! A simulated printer for interface work: it follows the same state machine
//! as a real one, streams the job at the pace its metadata declares and lets
//! temperatures drift towards their targets, without any serial I/O.
use vstd::prelude::*;
use crate::job::{GCodeFile, JobView, spec_step};
use crate::printer::{
    PrintTimer, can_home, copy_status_parts, has_probe, manual_control, move_in_envelope,
    timer_after, SET_TEMPERATURE_MAX,
};
use crate::types::{
    AxisSet, ErrorKind, Position, PrintState, PrinterStatus, ProbePoint, Temperature,
    TemperatureTarget,
};

verus! {

/// Relies on rand 0.8's `random`: a value drawn from the thread-local
/// generator. Nothing is promised about it.
pub assume_specification<T>[ rand::random::<T> ]() -> (r: T)
    where
        rand::distributions::Standard: rand::distributions::Distribution<T>,
;

/// Job lines advance this often when the file declares no duration (ms).
pub const DEFAULT_LINE_INTERVAL: u64 = 20;

/// Temperatures move this often (ms).
pub const TEMPERATURE_STEP_INTERVAL: u64 = 750;

/// One temperature step in thousandths of a degree: between 0.5 and 1.25
/// degrees, chosen by `jitter`.
pub open spec fn temperature_step(jitter: u64) -> int {
    500 + (jitter % 751) as int
}

/// A reading moved one step towards its target.
pub open spec fn drift(t: Temperature, step: int) -> Temperature {
    if t.current < t.target {
        Temperature { current: if t.current + step > u64::MAX { u64::MAX } else { (t.current + step) as u64 }, ..t }
    } else {
        Temperature { current: if t.current >= step { (t.current - step) as u64 } else { 0 }, ..t }
    }
}

/// Every reading moved one step of size `temperature_step(jitter)`.
pub open spec fn drifted(ts: Seq<Temperature>, jitter: u64) -> Seq<Temperature> {
    ts.map_values(|t: Temperature| drift(t, temperature_step(jitter)))
}

/// The interval between physical lines: the declared duration (the last
/// timepoint) spread over the file's lines, or a default without one.
pub open spec fn line_interval(points: Seq<(u32, u64)>, lines: nat) -> int {
    if points.len() > 0 && lines > 0 {
        (points.last().1 as int) / (lines as int)
    } else {
        DEFAULT_LINE_INTERVAL as int
    }
}

/// The index of the first reading from probe `p` at or after `j`, or `t.len()`.
pub open spec fn first_probe(t: Seq<Temperature>, p: ProbePoint, j: int) -> int
    decreases t.len() - j,
{
    if j < 0 || j >= t.len() {
        t.len() as int
    } else if t[j].measured_from == p {
        j
    } else {
        first_probe(t, p, j + 1)
    }
}

pub struct SimulatedPrinter {
    to_print: Option<GCodeFile>,
    homed_axes: AxisSet,
    temperatures: Vec<Temperature>,
    position: Position,
    state: PrintState,
    last_line_at: u64,
    last_temp_update: u64,
    print_timer: PrintTimer,
    gcode_send_interval: u64,
    fan_speeds: Vec<u32>,
}

impl SimulatedPrinter {
    pub closed spec fn state_spec(&self) -> PrintState {
        self.state
    }

    pub closed spec fn homed(&self) -> AxisSet {
        self.homed_axes
    }

    pub closed spec fn temps(&self) -> Seq<Temperature> {
        self.temperatures@
    }

    pub closed spec fn fans(&self) -> Seq<u32> {
        self.fan_speeds@
    }

    pub closed spec fn pos(&self) -> Position {
        self.position
    }

    pub closed spec fn timer(&self) -> PrintTimer {
        self.print_timer
    }

    pub closed spec fn has_job(&self) -> bool {
        self.to_print is Some
    }

    pub closed spec fn job(&self) -> JobView {
        self.to_print.unwrap().job()
    }

    /// The path of the loaded job.
    pub closed spec fn job_path(&self) -> Seq<char> {
        self.to_print.unwrap().path_view()
    }

    /// The loaded job's timepoints.
    pub closed spec fn job_points(&self) -> Seq<(u32, u64)> {
        self.to_print.unwrap().points()
    }

    /// The loaded job's active timepoint.
    pub closed spec fn job_active_point(&self) -> int {
        self.to_print.unwrap().active_point()
    }

    /// Whether the next job line is due at `now`.
    pub closed spec fn line_due(&self, now: u64) -> bool {
        now >= self.last_line_at + self.gcode_send_interval
    }

    /// Whether a temperature step is due at `now`.
    pub closed spec fn temp_due(&self, now: u64) -> bool {
        now >= self.last_temp_update + TEMPERATURE_STEP_INTERVAL
    }

    pub closed spec fn interval(&self) -> u64 {
        self.gcode_send_interval
    }

    pub closed spec fn wf(&self) -> bool {
        &&& match self.to_print {
            Some(j) => j.wf(),
            None => true,
        }
        &&& self.fan_speeds@.len() <= crate::printer::MAX_FANS
    }

    /// A simulated printer at room temperature: a hot end at 25 and a bed at
    /// 21 degrees, both holding.
    pub fn new(now: u64) -> (r: Self)
        ensures
            r.wf(),
            r.state_spec() == PrintState::CONNECTED,
            !r.has_job(),
            r.homed() == (AxisSet { x: false, y: false, z: false, e: false }),
            r.temps() == seq![
                Temperature { measured_from: ProbePoint::HOTEND, index: 0, power: 0, current: 25000, target: 25000 },
                Temperature { measured_from: ProbePoint::BED, index: 0, power: 0, current: 21000, target: 21000 },
            ],
            r.fans() == seq![0u32],
            r.pos() == (Position { x: 0, y: 0, z: 0, e: 0 }),
    {
        let mut temps: Vec<Temperature> = Vec::new();
        temps.push(Temperature { measured_from: ProbePoint::HOTEND, index: 0, power: 0, current: 25000, target: 25000 });
        temps.push(Temperature { measured_from: ProbePoint::BED, index: 0, power: 0, current: 21000, target: 21000 });
        let mut fans: Vec<u32> = Vec::new();
        fans.push(0);
        let r = SimulatedPrinter {
            to_print: None,
            homed_axes: AxisSet::empty(),
            temperatures: temps,
            position: Position::origin(),
            state: PrintState::CONNECTED,
            last_line_at: now,
            last_temp_update: now,
            print_timer: PrintTimer::new(now),
            gcode_send_interval: DEFAULT_LINE_INTERVAL,
            fan_speeds: fans,
        };
        proof {
            assert(r.temps() =~= seq![
                Temperature { measured_from: ProbePoint::HOTEND, index: 0, power: 0, current: 25000, target: 25000 },
                Temperature { measured_from: ProbePoint::BED, index: 0, power: 0, current: 21000, target: 21000 },
            ]);
            assert(r.fans() =~= seq![0u32]);
        }
        r
    }

    pub fn get_state(&self) -> (r: PrintState)
        ensures
            r == self.state_spec(),
    {
        self.state
    }

    /// Loads a job, while connected or done. Physical lines will advance at
    /// the pace its metadata declares; the print timer restarts.
    pub fn set_gcode_file(&mut self, job: GCodeFile, now: u64) -> (r: Result<(), ErrorKind>)
        requires
            old(self).wf(),
            job.wf(),
        ensures
            final(self).wf(),
            r is Err <==> !(old(self).state_spec() == PrintState::CONNECTED || old(self).state_spec()
                == PrintState::DONE),
            r is Err ==> r == Err::<(), ErrorKind>(ErrorKind::InvalidInput) && *final(self) == *old(self),
            r is Ok ==> final(self).has_job() && final(self).job() == job.job()
                && final(self).state_spec() == PrintState::CONNECTED
                && final(self).interval() == line_interval(job.points(), job.job().lines.len())
                && final(self).timer() == (PrintTimer { last_update: now, duration: 0 })
                && final(self).homed() == old(self).homed(),
    {
        if self.state != PrintState::CONNECTED && self.state != PrintState::DONE {
            return Err(ErrorKind::InvalidInput);
        }
        let d = job.get_duration_lines();
        let (_cur, lines) = job.get_progress();
        self.gcode_send_interval = match d {
            Some((_l, dur)) => if lines > 0 {
                dur / (lines as u64)
            } else {
                DEFAULT_LINE_INTERVAL
            },
            None => DEFAULT_LINE_INTERVAL,
        };
        self.to_print = Some(job);
        self.print_timer = PrintTimer::new(now);
        self.state = PrintState::CONNECTED;
        Ok(())
    }

    /// Unloads the job, as when its file is deleted. Refused while printing
    /// or paused; from done the printer returns to connected.
    pub fn clear_gcode_file(&mut self) -> (r: Result<(), ErrorKind>)
        requires
            old(self).wf(),
        ensures
            final(self).wf(),
            r is Err <==> (old(self).state_spec() == PrintState::STARTED || old(self).state_spec()
                == PrintState::PAUSED),
            r is Err ==> r == Err::<(), ErrorKind>(ErrorKind::InvalidInput) && *final(self) == *old(self),
            r is Ok ==> !final(self).has_job() && final(self).state_spec() == (if old(self).state_spec()
                == PrintState::DONE {
                PrintState::CONNECTED
            } else {
                old(self).state_spec()
            }),
    {
        if self.state == PrintState::STARTED || self.state == PrintState::PAUSED {
            return Err(ErrorKind::InvalidInput);
        }
        self.to_print = None;
        if self.state == PrintState::DONE {
            self.state = PrintState::CONNECTED;
        }
        Ok(())
    }

    /// Starts or resumes the print. From a pause the paused time is skipped;
    /// otherwise a job that was already streamed is rewound and the timer
    /// restarts.
    pub fn start(&mut self, now: u64) -> (r: Result<(), ErrorKind>)
        requires
            old(self).wf(),
        ensures
            final(self).wf(),
            r is Err <==> !(old(self).state_spec() == PrintState::PAUSED || old(self).state_spec()
                == PrintState::DONE || (old(self).state_spec() == PrintState::CONNECTED && old(self).has_job())),
            r is Err ==> r == Err::<(), ErrorKind>(ErrorKind::InvalidInput) && *final(self) == *old(self),
            r is Ok ==> final(self).state_spec() == PrintState::STARTED && final(self).has_job()
                == old(self).has_job() && final(self).homed() == old(self).homed(),
            r is Ok && old(self).state_spec() == PrintState::PAUSED ==> (old(self).has_job()
                ==> final(self).job() == old(self).job()) && final(self).timer() == (PrintTimer {
                last_update: now,
                ..old(self).timer()
            }),
            r is Ok && old(self).state_spec() != PrintState::PAUSED ==> final(self).timer() == (
            PrintTimer { last_update: now, duration: 0 }) && (old(self).has_job() ==> final(self).job()
                == (if old(self).job().cur != 0 {
                JobView { cur: 0, cmd: 0, resend: false, ..old(self).job() }
            } else {
                old(self).job()
            })),
    {
        if self.state != PrintState::CONNECTED && self.state != PrintState::PAUSED && self.state
            != PrintState::DONE {
            return Err(ErrorKind::InvalidInput);
        }
        if self.state == PrintState::CONNECTED && self.to_print.is_none() {
            return Err(ErrorKind::InvalidInput);
        }
        if self.state == PrintState::PAUSED {
            self.print_timer.skip(now);
        } else {
            match &mut self.to_print {
                Some(j) => {
                    let (cur, _total) = j.get_progress();
                    if cur != 0 {
                        j.rewind();
                    }
                },
                None => {},
            }
            self.print_timer = PrintTimer::new(now);
        }
        self.state = PrintState::STARTED;
        Ok(())
    }

    /// Stops the print and sets every heater's target to zero.
    pub fn stop(&mut self) -> (r: Result<(), ErrorKind>)
        requires
            old(self).wf(),
        ensures
            final(self).wf(),
            r is Err <==> !(old(self).state_spec() == PrintState::STARTED || old(self).state_spec()
                == PrintState::DONE || old(self).state_spec() == PrintState::PAUSED),
            r is Err ==> r == Err::<(), ErrorKind>(ErrorKind::InvalidInput) && *final(self) == *old(self),
            r is Ok ==> final(self).state_spec() == PrintState::CONNECTED && final(self).has_job()
                == old(self).has_job() && (old(self).has_job() ==> final(self).job() == old(self).job())
                && final(self).temps().len() == old(self).temps().len() && (forall|i: int|
                0 <= i < old(self).temps().len() ==> #[trigger] final(self).temps()[i] == (Temperature {
                    target: 0,
                    ..old(self).temps()[i]
                })),
    {
        if self.state != PrintState::STARTED && self.state != PrintState::DONE && self.state
            != PrintState::PAUSED {
            return Err(ErrorKind::InvalidInput);
        }
        self.state = PrintState::CONNECTED;
        let mut i: usize = 0;
        while i < self.temperatures.len()
            invariant
                0 <= i <= self.temperatures@.len(),
                self.temperatures@.len() == old(self).temperatures@.len(),
                self.state == PrintState::CONNECTED,
                self.to_print == old(self).to_print,
                self.fan_speeds == old(self).fan_speeds,
                forall|j: int| 0 <= j < i ==> #[trigger] self.temperatures@[j] == (Temperature {
                    target: 0,
                    ..old(self).temperatures@[j]
                }),
                forall|j: int| i <= j < self.temperatures@.len() ==> #[trigger] self.temperatures@[j]
                    == old(self).temperatures@[j],
            decreases self.temperatures@.len() - i,
        {
            let mut t = self.temperatures[i];
            t.target = 0;
            self.temperatures.set(i, t);
            i = i + 1;
        }
        Ok(())
    }

    /// Pauses the print and stops counting print time.
    pub fn pause(&mut self, now: u64) -> (r: Result<(), ErrorKind>)
        requires
            old(self).wf(),
        ensures
            final(self).wf(),
            r is Err <==> old(self).state_spec() != PrintState::STARTED,
            r is Err ==> r == Err::<(), ErrorKind>(ErrorKind::InvalidInput) && *final(self) == *old(self),
            r is Ok ==> final(self).state_spec() == PrintState::PAUSED && final(self).timer()
                == timer_after(old(self).timer(), now) && final(self).has_job() == old(self).has_job()
                && (old(self).has_job() ==> final(self).job() == old(self).job()),
    {
        if self.state != PrintState::STARTED {
            return Err(ErrorKind::InvalidInput);
        }
        self.print_timer.update(now);
        self.state = PrintState::PAUSED;
        Ok(())
    }

    /// Marks `axes` homed, where homing is allowed; from done the printer
    /// returns to connected.
    pub fn go_home(&mut self, axes: &AxisSet) -> (r: Result<(), ErrorKind>)
        requires
            old(self).wf(),
        ensures
            final(self).wf(),
            r is Err <==> !can_home(old(self).state_spec()),
            r is Err ==> r == Err::<(), ErrorKind>(ErrorKind::InvalidInput) && *final(self) == *old(self),
            r is Ok ==> final(self).homed() == (AxisSet {
                x: old(self).homed().x || axes.x,
                y: old(self).homed().y || axes.y,
                z: old(self).homed().z || axes.z,
                e: old(self).homed().e || axes.e,
            }) && final(self).state_spec() == (if old(self).state_spec() == PrintState::DONE {
                PrintState::CONNECTED
            } else {
                old(self).state_spec()
            }),
    {
        if !(self.state == PrintState::CONNECTED || self.state == PrintState::DONE || self.state
            == PrintState::PAUSED) {
            return Err(ErrorKind::InvalidInput);
        }
        self.homed_axes = AxisSet {
            x: self.homed_axes.x || axes.x,
            y: self.homed_axes.y || axes.y,
            z: self.homed_axes.z || axes.z,
            e: self.homed_axes.e || axes.e,
        };
        if self.state == PrintState::DONE {
            self.state = PrintState::CONNECTED;
        }
        Ok(())
    }

    /// A manual move: accepted under the same conditions as on a real
    /// printer, and without effect.
    pub fn move_relative(&mut self, new_pos: &Position) -> (r: Result<(), ErrorKind>)
        ensures
            *final(self) == *old(self),
            r is Err <==> !(can_home(old(self).state_spec()) && manual_control(
                old(self).homed(),
                old(self).state_spec(),
            ) && move_in_envelope(*new_pos)),
            r is Err ==> r == Err::<(), ErrorKind>(ErrorKind::InvalidInput),
    {
        if !(self.state == PrintState::CONNECTED || self.state == PrintState::DONE || self.state
            == PrintState::PAUSED) {
            return Err(ErrorKind::InvalidInput);
        }
        if !((self.homed_axes.x && self.homed_axes.y && self.homed_axes.z) || self.state
            == PrintState::PAUSED) {
            return Err(ErrorKind::InvalidInput);
        }
        if new_pos.x > crate::printer::MOVE_XYZ_MAX || new_pos.x < 0 || new_pos.y
            > crate::printer::MOVE_XYZ_MAX || new_pos.y < 0 || new_pos.z
            > crate::printer::MOVE_XYZ_MAX || new_pos.z < 0 || new_pos.e > crate::printer::MOVE_E_MAX
            || new_pos.e < 0 {
            return Err(ErrorKind::InvalidInput);
        }
        Ok(())
    }

    /// Sets the target of the first reading from the requested probe. The
    /// probe must be one the printer reports and the target within
    /// `[0, 300]` degrees.
    pub fn set_temperature(&mut self, new_temp: &TemperatureTarget) -> (r: Result<(), ErrorKind>)
        requires
            old(self).wf(),
        ensures
            final(self).wf(),
            r is Err <==> !(old(self).state_spec() != PrintState::DEAD && has_probe(
                old(self).temps(),
                new_temp.to_set,
            ) && 0 <= new_temp.target <= SET_TEMPERATURE_MAX),
            r is Err ==> r == Err::<(), ErrorKind>(ErrorKind::InvalidInput) && *final(self) == *old(self),
            r is Ok ==> final(self).state_spec() == old(self).state_spec() && final(self).temps()
                == old(self).temps().update(
                first_probe(old(self).temps(), new_temp.to_set, 0),
                Temperature {
                    target: new_temp.target as u64,
                    ..old(self).temps()[first_probe(old(self).temps(), new_temp.to_set, 0)]
                },
            ),
    {
        if self.state == PrintState::DEAD || new_temp.target > SET_TEMPERATURE_MAX || new_temp.target
            < 0 {
            return Err(ErrorKind::InvalidInput);
        }
        let mut i: usize = 0;
        while i < self.temperatures.len() && self.temperatures[i].measured_from != new_temp.to_set
            invariant
                0 <= i <= self.temperatures@.len(),
                forall|j: int| 0 <= j < i ==> (#[trigger] self.temperatures@[j]).measured_from
                    != new_temp.to_set,
                first_probe(self.temperatures@, new_temp.to_set, i as int)
                    == first_probe(self.temperatures@, new_temp.to_set, 0),
            decreases self.temperatures@.len() - i,
        {
            i = i + 1;
        }
        if i >= self.temperatures.len() {
            proof {
                assert forall|j: int| 0 <= j < self.temperatures@.len() implies (
                #[trigger] self.temperatures@[j]).measured_from != new_temp.to_set by {}
            }
            return Err(ErrorKind::InvalidInput);
        }
        let mut t = self.temperatures[i];
        t.target = new_temp.target as u64;
        self.temperatures.set(i, t);
        Ok(())
    }

    /// Sets fan `index` to `speed` thousandths of full speed, within
    /// `[0, 1000]`, recorded in steps of `1/255`.
    pub fn set_fan_speed(&mut self, index: u32, speed: i64) -> (r: Result<(), ErrorKind>)
        requires
            old(self).wf(),
        ensures
            final(self).wf(),
            final(self).state_spec() == old(self).state_spec(),
            r is Err <==> !(old(self).state_spec() != PrintState::DEAD && 0 <= speed <= 1000),
            r is Err ==> r == Err::<(), ErrorKind>(ErrorKind::InvalidInput) && *final(self) == *old(self),
            r is Ok ==> final(self).fans() == crate::printer::set_fan(
                old(self).fans(),
                index as int,
                crate::marlin::fan_wire_speed(speed as int) as u32,
            ),
    {
        if self.state == PrintState::DEAD || speed < 0 || speed > 1000 {
            return Err(ErrorKind::InvalidInput);
        }
        let v = ((speed as u64) * 255 + 500) / 1000;
        crate::printer::set_fan_in(&mut self.fan_speeds, index, v as u32);
        Ok(())
    }

    /// One tick: while printing, the next physical line once its interval
    /// has passed (the job finishes at the end of the file), and every 750 ms
    /// each reading moves one step towards its target. The step size is
    /// drawn at random.
    pub fn next_action(&mut self, now: u64) -> (r: Result<(), ErrorKind>)
        requires
            old(self).wf(),
        ensures
            final(self).wf(),
            r is Ok,
            final(self).has_job() == old(self).has_job(),
            final(self).homed() == old(self).homed(),
            old(self).state_spec() == PrintState::STARTED && old(self).has_job() && old(self).line_due(now)
                ==> final(self).job() == spec_step(old(self).job()) && final(self).state_spec() == (
            if old(self).job().cur >= old(self).job().lines.len() {
                PrintState::DONE
            } else {
                PrintState::STARTED
            }),
            !(old(self).state_spec() == PrintState::STARTED && old(self).has_job() && old(self).line_due(now))
                ==> final(self).state_spec() == old(self).state_spec() && (old(self).has_job()
                ==> final(self).job() == old(self).job()),
            old(self).temp_due(now) ==> exists|j: u64|
                final(self).temps() == #[trigger] drifted(old(self).temps(), j),
            !old(self).temp_due(now) ==> final(self).temps() == old(self).temps(),
    {
        let jitter: u64 = rand::random::<u64>();
        self.advance(now, jitter);
        proof {
            if old(self).temp_due(now) {
                assert(final(self).temps() == drifted(old(self).temps(), jitter));
            }
        }
        Ok(())
    }

    /// One tick with a given temperature step (see `temperature_step`).
    pub fn advance(&mut self, now: u64, jitter: u64)
        requires
            old(self).wf(),
        ensures
            final(self).wf(),
            final(self).has_job() == old(self).has_job(),
            final(self).homed() == old(self).homed(),
            old(self).state_spec() == PrintState::STARTED ==> final(self).timer() == timer_after(
                old(self).timer(),
                now,
            ),
            old(self).state_spec() != PrintState::STARTED ==> final(self).timer() == old(self).timer(),
            old(self).state_spec() == PrintState::STARTED && old(self).has_job() && old(self).line_due(now)
                ==> final(self).job() == spec_step(old(self).job()) && final(self).state_spec() == (
            if old(self).job().cur >= old(self).job().lines.len() {
                PrintState::DONE
            } else {
                PrintState::STARTED
            }),
            !(old(self).state_spec() == PrintState::STARTED && old(self).has_job() && old(self).line_due(now))
                ==> final(self).state_spec() == old(self).state_spec() && (old(self).has_job()
                ==> final(self).job() == old(self).job()),
            old(self).temp_due(now) ==> final(self).temps() == drifted(old(self).temps(), jitter),
            !old(self).temp_due(now) ==> final(self).temps() == old(self).temps(),
    {
        if self.state == PrintState::STARTED {
            self.print_timer.update(now);
            if now >= self.last_line_at && now - self.last_line_at >= self.gcode_send_interval {
                match &mut self.to_print {
                    Some(j) => {
                        if !j.step_line() {
                            self.state = PrintState::DONE;
                        }
                        self.last_line_at = now;
                    },
                    None => {},
                }
            }
        }
        if now >= self.last_temp_update && now - self.last_temp_update >= TEMPERATURE_STEP_INTERVAL {
            let step: u64 = 500 + jitter % 751;
            let ghost t0 = self.temperatures@;
            let ghost tp = self.to_print;
            let ghost fs = self.fan_speeds@;
            let ghost st = self.state;
            let ghost tm = self.print_timer;
            let mut i: usize = 0;
            while i < self.temperatures.len()
                invariant
                    0 <= i <= self.temperatures@.len(),
                    self.to_print == tp,
                    self.fan_speeds@ == fs,
                    self.state == st,
                    self.print_timer == tm,
                    self.homed_axes == old(self).homed_axes,
                    self.temperatures@.len() == t0.len(),
                    step == temperature_step(jitter),
                    forall|j: int| 0 <= j < i ==> #[trigger] self.temperatures@[j] == drift(t0[j], step as int),
                    forall|j: int| i <= j < t0.len() ==> #[trigger] self.temperatures@[j] == t0[j],
                decreases self.temperatures@.len() - i,
            {
                let mut t = self.temperatures[i];
                if t.current < t.target {
                    t.current = if t.current > u64::MAX - step { u64::MAX } else { t.current + step };
                } else {
                    t.current = if t.current >= step { t.current - step } else { 0 };
                }
                self.temperatures.set(i, t);
                i = i + 1;
            }
            proof {
                assert(self.temperatures@ =~= drifted(t0, jitter));
            }
            self.last_temp_update = now;
        }
    }

    /// The simulated printer's status.
    pub fn get_status(&mut self) -> (r: PrinterStatus)
        requires
            old(self).wf(),
        ensures
            final(self).wf(),
            final(self).state_spec() == old(self).state_spec(),
            final(self).has_job() == old(self).has_job(),
            old(self).has_job() ==> final(self).job() == old(self).job(),
            r.printer_connected,
            r.manual_control_enabled == manual_control(old(self).homed(), old(self).state_spec()),
            r.state == old(self).state_spec(),
            r.temperatures@ == old(self).temps(),
            r.position == old(self).pos(),
            r.fan_speed@ == old(self).fans(),
            r.gcode_lines_done_total is Some <==> old(self).has_job(),
            !old(self).has_job() ==> r.print_time_remaining is None,
            old(self).has_job() ==> r.print_time_remaining == crate::job::job_remaining(
                old(self).job_points(),
                old(self).job_active_point(),
                old(self).job().cur,
                old(self).timer().duration,
            ),
            old(self).has_job() ==> ({
                let (name, cmd, total) = r.gcode_lines_done_total.unwrap();
                &&& name@ == crate::job::file_name(old(self).job_path())
                &&& cmd as int == old(self).job().cmd
                &&& total as int == old(self).job().lines.len()
            }),
    {
        let elapsed = self.print_timer.elapsed();
        let (temperatures, fan_speed) = copy_status_parts(&self.temperatures, &self.fan_speeds);
        let (done_total, remaining) = match &mut self.to_print {
            Some(j) => {
                let (_cur, total) = j.get_progress();
                let name = j.name();
                let cmd = j.command_line_no();
                let rem = j.get_remaining_time(elapsed);
                (Some((name, cmd, total)), rem)
            },
            None => (None, None),
        };
        PrinterStatus {
            printer_connected: true,
            manual_control_enabled: (self.homed_axes.x && self.homed_axes.y && self.homed_axes.z)
                || self.state == PrintState::PAUSED,
            state: self.state,
            temperatures,
            position: self.position,
            gcode_lines_done_total: done_total,
            print_time_remaining: remaining,
            fan_speed,
        }
    }
}

} // verus!
