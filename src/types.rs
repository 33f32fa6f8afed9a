//! The values that travel between the printer core, the protocol and the
//! control surface.
//!
//! Real quantities are held as fixed-point integers: positions in units of
//! `10^-5` machine units, temperatures in thousandths of a degree Celsius,
//! fan targets in thousandths of full speed and durations in milliseconds.
use vstd::prelude::*;

verus! {

/// Positions are held in units of `10^-5` machine units.
pub const POSITION_SCALE: i64 = 100000;

/// Temperatures are held in thousandths of a degree Celsius.
pub const TEMPERATURE_SCALE: i64 = 1000;

/// Fan targets are held in thousandths of full speed.
pub const FAN_TARGET_SCALE: i64 = 1000;

/// The error kinds of the control surface.
#[derive(Debug, Clone, Copy, PartialEq, Eq, Structural)]
pub enum ErrorKind {
    NotFound,
    InvalidInput,
    AlreadyExists,
    InvalidData,
    TimedOut,
    BrokenPipe,
    Dead,
}

/// A check that a request lies in its accepted range.
pub trait Validator {
    spec fn valid(&self) -> bool;

    fn validate(&self) -> (r: Result<(), ErrorKind>)
        ensures
            r is Ok <==> self.valid(),
            r is Err ==> r == Err::<(), ErrorKind>(ErrorKind::InvalidInput),
    ;
}

/// A job file as listed to the control surface.
#[derive(Debug, Clone)]
pub struct FileInfo {
    pub last_modified_since_epoch: u64,
    pub path: String,
    pub size: u64,
}

/// The kind of sensor a temperature reading comes from.
#[derive(Debug, Clone, Copy, PartialEq, Eq, Structural)]
pub enum ProbePoint {
    HOTEND,
    BED,
    CHAMBER,
    PROBE,
    COOLER,
    REDUNDANT,
    UNKNOWN,
}

#[derive(Debug, Clone, Copy, PartialEq, Eq, Structural)]
pub enum Axis {
    X,
    Y,
    Z,
    E,
}

/// A subset of the four axes.
#[derive(Debug, Clone, Copy, PartialEq, Eq, Structural)]
pub struct AxisSet {
    pub x: bool,
    pub y: bool,
    pub z: bool,
    pub e: bool,
}

impl AxisSet {
    pub open spec fn has(self, a: Axis) -> bool {
        match a {
            Axis::X => self.x,
            Axis::Y => self.y,
            Axis::Z => self.z,
            Axis::E => self.e,
        }
    }

    pub fn empty() -> (r: AxisSet)
        ensures
            r == (AxisSet { x: false, y: false, z: false, e: false }),
            forall|a: Axis| !r.has(a),
    {
        AxisSet { x: false, y: false, z: false, e: false }
    }

    /// The three axes that homing moves.
    pub fn xyz() -> (r: AxisSet)
        ensures
            r == (AxisSet { x: true, y: true, z: true, e: false }),
            r.has(Axis::X) && r.has(Axis::Y) && r.has(Axis::Z) && !r.has(Axis::E),
    {
        AxisSet { x: true, y: true, z: true, e: false }
    }

    pub fn contains(&self, a: Axis) -> (r: bool)
        ensures
            r == self.has(a),
    {
        match a {
            Axis::X => self.x,
            Axis::Y => self.y,
            Axis::Z => self.z,
            Axis::E => self.e,
        }
    }

    pub fn insert(&mut self, a: Axis)
        ensures
            forall|b: Axis| final(self).has(b) == (old(self).has(b) || b == a),
    {
        match a {
            Axis::X => self.x = true,
            Axis::Y => self.y = true,
            Axis::Z => self.z = true,
            Axis::E => self.e = true,
        }
    }

    pub fn union(&self, o: &AxisSet) -> (r: AxisSet)
        ensures
            forall|b: Axis| r.has(b) == (self.has(b) || o.has(b)),
    {
        AxisSet { x: self.x || o.x, y: self.y || o.y, z: self.z || o.z, e: self.e || o.e }
    }

    pub fn is_superset(&self, o: &AxisSet) -> (r: bool)
        ensures
            r == (forall|b: Axis| o.has(b) ==> self.has(b)),
    {
        let r = (self.x || !o.x) && (self.y || !o.y) && (self.z || !o.z) && (self.e || !o.e);
        proof {
            if !r {
                if o.x && !self.x {
                    assert(o.has(Axis::X) && !self.has(Axis::X));
                } else if o.y && !self.y {
                    assert(o.has(Axis::Y) && !self.has(Axis::Y));
                } else if o.z && !self.z {
                    assert(o.has(Axis::Z) && !self.has(Axis::Z));
                } else {
                    assert(o.has(Axis::E) && !self.has(Axis::E));
                }
            }
        }
        r
    }
}

/// A position `(x, y, z, e)` in units of `10^-5` machine units; `e` is
/// extruder displacement.
#[derive(Debug, Clone, Copy, PartialEq, Eq, Structural)]
pub struct Position {
    pub x: i64,
    pub y: i64,
    pub z: i64,
    pub e: i64,
}

impl Position {
    pub fn origin() -> (r: Position)
        ensures
            r == (Position { x: 0, y: 0, z: 0, e: 0 }),
    {
        Position { x: 0, y: 0, z: 0, e: 0 }
    }
}

/// One temperature reading. `current` and `target` are in thousandths of a
/// degree; `power` is the heater duty in steps of `1/127`, at most 127.
#[derive(Debug, Clone, Copy, PartialEq, Eq, Structural)]
pub struct Temperature {
    pub measured_from: ProbePoint,
    pub index: u32,
    pub power: u32,
    pub current: u64,
    pub target: u64,
}

/// A requested heater target in thousandths of a degree.
#[derive(Debug, Clone, Copy, PartialEq, Eq, Structural)]
pub struct TemperatureTarget {
    pub to_set: ProbePoint,
    pub index: Option<u32>,
    pub target: i64,
}

/// The accepted range of a temperature target, in thousandths of a degree.
pub const TEMPERATURE_TARGET_MAX: i64 = 400000;

impl Validator for TemperatureTarget {
    open spec fn valid(&self) -> bool {
        0 <= self.target <= TEMPERATURE_TARGET_MAX
    }

    fn validate(&self) -> (r: Result<(), ErrorKind>) {
        if self.target > TEMPERATURE_TARGET_MAX || self.target < 0 {
            return Err(ErrorKind::InvalidInput);
        }
        Ok(())
    }
}

/// A requested fan speed in thousandths of full speed.
#[derive(Debug, Clone, Copy, PartialEq, Eq, Structural)]
pub struct FanSpeedTarget {
    pub index: u32,
    pub target: i64,
}

impl Validator for FanSpeedTarget {
    open spec fn valid(&self) -> bool {
        0 <= self.target <= FAN_TARGET_SCALE
    }

    fn validate(&self) -> (r: Result<(), ErrorKind>) {
        if self.target > FAN_TARGET_SCALE || self.target < 0 {
            return Err(ErrorKind::InvalidInput);
        }
        Ok(())
    }
}

#[derive(Debug, Clone, Copy, PartialEq, Eq, Structural)]
pub enum PrintState {
    CONNECTED,
    STARTED,
    PAUSED,
    DONE,
    DEAD,
}

/// The status assembled for the control surface. `print_time_remaining` is in
/// milliseconds; `fan_speed` holds each fan's speed in steps of `1/255`.
#[derive(Debug, Clone)]
pub struct PrinterStatus {
    pub printer_connected: bool,
    pub manual_control_enabled: bool,
    pub state: PrintState,
    pub temperatures: Vec<Temperature>,
    pub position: Position,
    pub gcode_lines_done_total: Option<(String, u32, u32)>,
    pub print_time_remaining: Option<u64>,
    pub fan_speed: Vec<u32>,
}

impl Default for PrinterStatus {
    /// The status reported while no printer is attached.
    fn default() -> (r: PrinterStatus)
        ensures
            !r.printer_connected,
            !r.manual_control_enabled,
            r.state == PrintState::DEAD,
            r.temperatures@.len() == 0,
            r.position == (Position { x: 0, y: 0, z: 0, e: 0 }),
            r.gcode_lines_done_total is None,
            r.print_time_remaining is None,
            r.fan_speed@.len() == 0,
    {
        PrinterStatus {
            printer_connected: false,
            manual_control_enabled: false,
            state: PrintState::DEAD,
            temperatures: Vec::new(),
            position: Position::origin(),
            gcode_lines_done_total: None,
            print_time_remaining: None,
            fan_speed: Vec::new(),
        }
    }
}

/// The capabilities the firmware reported, as key/value pairs with unique keys.
#[derive(Debug, Clone)]
pub struct PrinterInfo {
    pub values: Vec<(String, String)>,
}

/// A line mirrored to or from an interactive console.
#[derive(Debug, Clone)]
pub struct ConsoleMessage {
    pub is_echo: bool,
    pub line: String,
}

/// A request on the control surface. Paths are plain strings.
#[derive(Debug, Clone)]
pub enum PrinterCommand {
    Connect(String, u32),
    Disconnect,
    SetGcodeFile(String),
    DeleteGcodeFile(String),
    StartPrint,
    PausePrint,
    StopPrint,
    GetStatus,
    ManualMove(Position),
    Home(AxisSet),
    SetTemperature(TemperatureTarget),
    SetFanSpeed(FanSpeedTarget),
    OpenConsole,
    GetPrinterInfo,
}

} // verus!
