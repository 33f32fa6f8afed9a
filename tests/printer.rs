use yoctoprint::console::{should_exchange, still_connected, ChannelOutcome};
use yoctoprint::broker::{route, Route};
use yoctoprint::capabilities::{is_marlin, parse_fw_info};
use yoctoprint::job::GCodeFile;
use yoctoprint::marlin::{Marlin, Response};
use yoctoprint::printer::{IntervalTimer, PrintTimer, Printer, Tick, WaitStep};
use yoctoprint::sim::SimulatedPrinter;
use yoctoprint::types::{
    AxisSet, ErrorKind, FanSpeedTarget, Position, PrintState, PrinterCommand, PrinterInfo, PrinterStatus,
    ProbePoint, Temperature, TemperatureTarget, Validator,
};

const M115_REPLY: &str = "FIRMWARE_NAME:Marlin 2.0 MACHINE_TYPE:Widget\nCap:AUTOREPORT_TEMP:1\n";

fn marlin_printer() -> Printer {
    let (p, cmds) = Printer::new(parse_fw_info(M115_REPLY), 0).unwrap();
    assert_eq!(cmds, vec!["M155 S2".to_string()]);
    p
}

fn exchange(p: &mut Printer, cmds: Vec<String>) -> Vec<String> {
    let mut wire = Vec::new();
    for c in cmds {
        wire.push(p.prepare_send(&c, None));
        assert_eq!(p.on_reply(Ok(Response::OK)), WaitStep::Done);
    }
    wire
}

fn three_line_job() -> GCodeFile {
    GCodeFile::new("job.gcode".to_string(), vec!["G1 X1".to_string(), "G1 X2".to_string(), "G1 X3".to_string()])
}

fn hotend(current: u64) -> Temperature {
    Temperature { measured_from: ProbePoint::HOTEND, index: 0, power: 0, current, target: 0 }
}

#[test]
fn handshake_capabilities() {
    let info = parse_fw_info(M115_REPLY);
    assert_eq!(
        info.values,
        vec![
            ("FIRMWARE_NAME".to_string(), "Marlin 2.0".to_string()),
            ("MACHINE_TYPE".to_string(), "Widget".to_string()),
            ("AUTOREPORT_TEMP".to_string(), "1".to_string()),
        ]
    );
    assert!(is_marlin(&info));
    assert!(Printer::new(info, 0).is_ok());
}

#[test]
fn handshake_refuses_other_firmware() {
    let other = parse_fw_info("FIRMWARE_NAME:Klipper MACHINE_TYPE:X\r\n");
    assert_eq!(other.values[0], ("FIRMWARE_NAME".to_string(), "Klipper".to_string()));
    assert!(matches!(Printer::new(other, 0), Err(ErrorKind::InvalidData)));
    let none = parse_fw_info("PROTOCOL_VERSION:1.0\nCap:EEPROM:1\nCap:EEPROM:0\n");
    assert_eq!(
        none.values,
        vec![("PROTOCOL_VERSION".to_string(), "1.0".to_string()), ("EEPROM".to_string(), "0".to_string())]
    );
    assert!(matches!(Printer::new(none, 0), Err(ErrorKind::InvalidData)));
    assert!(is_marlin(&parse_fw_info("FIRMWARE_NAME:mArLiN bugfix\n")));
}

#[test]
fn manual_move_needs_homing() {
    let mut p = marlin_printer();
    let one = Position { x: 100000, y: 100000, z: 100000, e: 100000 };
    assert_eq!(p.move_relative(&one), Err(ErrorKind::InvalidInput));
    assert!(!p.get_status().manual_control_enabled);
    let cmds = p.go_home(&AxisSet { x: true, y: true, z: true, e: false }).unwrap();
    exchange(&mut p, cmds);
    assert!(p.get_status().manual_control_enabled);
    let moved = p.move_relative(&one).unwrap();
    assert_eq!(
        moved,
        vec![
            "G91".to_string(),
            "G1 E1.00000 X1.00000 Y1.00000 Z1.00000".to_string(),
            "G90".to_string(),
            "M82".to_string()
        ]
    );
}

#[test]
fn relative_move_envelope_boundary() {
    let mut p = marlin_printer();
    let cmds = p.go_home(&AxisSet { x: false, y: false, z: false, e: false }).unwrap();
    exchange(&mut p, cmds);
    assert!(p.move_relative(&Position { x: 2000000, y: 0, z: 0, e: 0 }).is_ok());
    assert_eq!(p.move_relative(&Position { x: 2000100, y: 0, z: 0, e: 0 }), Err(ErrorKind::InvalidInput));
    assert!(p.move_relative(&Position { x: 0, y: 0, z: 0, e: 10000000 }).is_ok());
    assert_eq!(p.move_relative(&Position { x: 0, y: 0, z: 0, e: 10000001 }), Err(ErrorKind::InvalidInput));
    assert_eq!(p.move_relative(&Position { x: 0, y: -1, z: 0, e: 0 }), Err(ErrorKind::InvalidInput));
}

#[test]
fn temperature_target_boundary() {
    let mut p = marlin_printer();
    let t = |target| TemperatureTarget { to_set: ProbePoint::HOTEND, index: None, target };
    assert_eq!(p.set_temperature(&t(200000)), Err(ErrorKind::InvalidInput));
    assert_eq!(p.on_reply(Ok(Response::TEMPERATURE(vec![hotend(20000)], None))), WaitStep::Continue);
    assert_eq!(p.set_temperature(&t(300000)), Ok(vec!["M104 T0 S300".to_string()]));
    assert_eq!(p.set_temperature(&t(300001)), Err(ErrorKind::InvalidInput));
    assert_eq!(p.set_temperature(&t(-1)), Err(ErrorKind::InvalidInput));
    assert_eq!(
        p.set_temperature(&TemperatureTarget { to_set: ProbePoint::BED, index: None, target: 60000 }),
        Err(ErrorKind::InvalidInput)
    );
}

#[test]
fn fan_speed_range_and_tap() {
    let mut p = marlin_printer();
    assert_eq!(p.set_fan_speed(0, 1001), Err(ErrorKind::InvalidInput));
    assert_eq!(p.set_fan_speed(0, -1), Err(ErrorKind::InvalidInput));
    let cmds = p.set_fan_speed(2, 1000).unwrap();
    assert_eq!(cmds, vec!["M106 P2 S255".to_string()]);
    exchange(&mut p, cmds);
    assert_eq!(p.get_status().fan_speed, vec![0, 0, 255]);
    exchange(&mut p, vec!["M107 P2".to_string()]);
    assert_eq!(p.get_status().fan_speed, vec![0, 0, 0]);
}

#[test]
fn nack_driven_resend() {
    let mut p = marlin_printer();
    let cmds = p.set_gcode_file(three_line_job(), 0).unwrap();
    assert_eq!(exchange(&mut p, cmds), vec!["M110 N0".to_string()]);
    assert_eq!(p.start(0), Ok(vec![]));
    let mut replies = vec!["ok", "ok", "Error:Line Number is not Last Line Number+1, Last Line: 1", "ok", "ok"];
    replies.reverse();
    let mut trace = Vec::new();
    let mut now = 0;
    'outer: loop {
        now += 10;
        match p.tick(now) {
            Tick::Send(cmd, n) => {
                if replies.is_empty() {
                    break;
                }
                trace.push(p.prepare_send(&cmd, Some(n)));
                loop {
                    let line = match replies.pop() {
                        Some(l) => l,
                        None => break 'outer,
                    };
                    match p.on_reply(Marlin {}.parse_rx_line(line)) {
                        WaitStep::Done => break,
                        WaitStep::Continue => {}
                        other => panic!("unexpected {:?}", other),
                    }
                }
            }
            other => panic!("unexpected {:?}", other),
        }
    }
    let m = Marlin {};
    assert_eq!(
        trace,
        vec![
            m.add_message_frame(1, "G1 X1"),
            m.add_message_frame(2, "G1 X2"),
            m.add_message_frame(3, "G1 X3"),
            m.add_message_frame(2, "G1 X2"),
        ]
    );
    let status = p.get_status();
    assert_eq!(status.gcode_lines_done_total.unwrap().1, 3);
}

#[test]
fn nack_then_next_frame_carries_requested_line() {
    let mut p = marlin_printer();
    let cmds = p.set_gcode_file(three_line_job(), 0).unwrap();
    exchange(&mut p, cmds);
    p.start(0).unwrap();
    for _ in 0..3 {
        if let Tick::Send(c, n) = p.tick(1) {
            p.prepare_send(&c, Some(n));
            p.on_reply(Ok(Response::OK));
        }
    }
    assert_eq!(p.on_reply(Ok(Response::NACK(1))), WaitStep::Continue);
    match p.tick(2) {
        Tick::Send(c, n) => assert_eq!((c.as_str(), n), ("G1 X1", 1)),
        other => panic!("unexpected {:?}", other),
    }
    assert_eq!(p.on_reply(Ok(Response::NACK(1))), WaitStep::Continue);
    match p.tick(3) {
        Tick::Send(c, n) => assert_eq!((c.as_str(), n), ("G1 X1", 1)),
        other => panic!("unexpected {:?}", other),
    }
}

#[test]
fn job_runs_to_done() {
    let mut p = marlin_printer();
    let cmds = p.set_gcode_file(three_line_job(), 0).unwrap();
    exchange(&mut p, cmds);
    p.start(0).unwrap();
    let mut sent = 0;
    loop {
        match p.tick(5) {
            Tick::Send(c, n) => {
                p.prepare_send(&c, Some(n));
                assert_eq!(p.on_reply(Ok(Response::BUSY)), WaitStep::Done);
                assert!(matches!(p.tick(6), Tick::Poll));
                assert!(!p.on_poll_reply(Ok(Response::OK)));
                sent += 1;
            }
            Tick::Finished => break,
            other => panic!("unexpected {:?}", other),
        }
    }
    assert_eq!(sent, 3);
    assert_eq!(p.get_state(), PrintState::DONE);
    // Starting again rewinds the job and resets the line counter.
    assert_eq!(p.start(7), Ok(vec!["M110 N0".to_string()]));
    assert!(matches!(p.tick(8), Tick::Send(_, 1)));
}

#[test]
fn pause_and_resume_restore_position() {
    let mut p = marlin_printer();
    let cmds = p.set_gcode_file(three_line_job(), 0).unwrap();
    exchange(&mut p, cmds);
    p.start(0).unwrap();
    exchange(&mut p, vec!["M83".to_string()]);
    assert!(p.on_poll_reply(Ok(Response::POSITION(Position { x: 1000000, y: 2000000, z: 500000, e: 0 }))));
    let paused = p.pause(100).unwrap();
    assert_eq!(paused, vec!["M114".to_string(), "G10".to_string()]);
    exchange(&mut p, paused);
    assert_eq!(p.get_state(), PrintState::PAUSED);
    assert!(p.get_status().manual_control_enabled);
    let resumed = p.start(200).unwrap();
    assert_eq!(
        resumed,
        vec![
            "G90".to_string(),
            "M82".to_string(),
            "G1 X10.00000 Y20.00000 Z5.00000".to_string(),
            "G11".to_string(),
            "G90".to_string(),
            "M83".to_string()
        ]
    );
    assert_eq!(p.get_state(), PrintState::STARTED);
}

#[test]
fn state_machine_refusals() {
    let mut p = marlin_printer();
    assert_eq!(p.start(0), Err(ErrorKind::InvalidInput));
    assert_eq!(p.pause(0), Err(ErrorKind::InvalidInput));
    assert_eq!(p.stop(), Err(ErrorKind::InvalidInput));
    let cmds = p.set_gcode_file(three_line_job(), 0).unwrap();
    exchange(&mut p, cmds);
    p.start(0).unwrap();
    assert!(p.set_gcode_file(three_line_job(), 0).is_err());
    assert_eq!(p.go_home(&AxisSet { x: true, y: false, z: false, e: false }), Err(ErrorKind::InvalidInput));
    assert_eq!(p.start(0), Err(ErrorKind::InvalidInput));
}

#[test]
fn stop_cools_down() {
    let mut p = marlin_printer();
    let cmds = p.set_gcode_file(three_line_job(), 0).unwrap();
    exchange(&mut p, cmds);
    p.start(0).unwrap();
    let bed = Temperature { measured_from: ProbePoint::BED, index: 0, power: 0, current: 50000, target: 60000 };
    p.on_reply(Ok(Response::TEMPERATURE(vec![hotend(200000), bed], None)));
    p.on_reply(Ok(Response::BUSY));
    let cmds = p.stop().unwrap();
    assert_eq!(
        cmds,
        vec!["M108".to_string(), "M107 P0".to_string(), "M104 T0 S0".to_string(), "M140 T0 S0".to_string()]
    );
    assert_eq!(p.get_state(), PrintState::CONNECTED);
}

#[test]
fn failures_kill_the_printer() {
    let mut p = marlin_printer();
    assert_eq!(p.on_reply(Ok(Response::NACK(3))), WaitStep::Failed(ErrorKind::InvalidData));
    assert_eq!(p.get_state(), PrintState::DEAD);
    assert_eq!(p.set_fan_speed(0, 10), Err(ErrorKind::InvalidInput));

    let mut q = marlin_printer();
    assert_eq!(q.on_reply(Err(ErrorKind::InvalidData)), WaitStep::Continue);
    assert_eq!(q.on_reply(Ok(Response::NONE)), WaitStep::Sleep);
    assert_eq!(q.on_reply(Err(ErrorKind::BrokenPipe)), WaitStep::Failed(ErrorKind::BrokenPipe));
    assert_eq!(q.get_state(), PrintState::DEAD);

    let mut w = marlin_printer();
    w.on_write_failed();
    assert_eq!(w.get_state(), PrintState::DEAD);
}

#[test]
fn status_reports_job_progress() {
    let mut p = marlin_printer();
    let job = GCodeFile::new(
        "/x/job.gcode".to_string(),
        vec![";TIME:3".to_string(), "G1 X1".to_string(), "G1 X2".to_string()],
    );
    let cmds = p.set_gcode_file(job, 0).unwrap();
    exchange(&mut p, cmds);
    let s = p.get_status();
    assert!(s.printer_connected);
    assert_eq!(s.state, PrintState::CONNECTED);
    assert_eq!(s.gcode_lines_done_total, Some(("job.gcode".to_string(), 0, 3)));
    assert_eq!(s.print_time_remaining, Some(3000));
    assert_eq!(s.fan_speed, vec![0]);
    assert_eq!(p.get_info().values.len(), 3);
}

#[test]
fn default_status_without_printer() {
    let s = PrinterStatus::default();
    assert!(!s.printer_connected);
    assert_eq!(s.state, PrintState::DEAD);
    assert!(s.temperatures.is_empty() && s.fan_speed.is_empty());
}

#[test]
fn routing_of_commands() {
    assert!(matches!(route(false, &PrinterCommand::GetStatus), Route::DefaultStatus));
    assert!(matches!(route(false, &PrinterCommand::Connect("sim".to_string(), 0)), Route::ConnectSim));
    assert!(matches!(
        route(false, &PrinterCommand::Connect("/dev/ttyUSB0".to_string(), 115200)),
        Route::ConnectSerial(p, 115200) if p == "/dev/ttyUSB0"
    ));
    assert!(matches!(route(false, &PrinterCommand::StartPrint), Route::NoPrinter));
    assert!(matches!(route(true, &PrinterCommand::Connect("sim".to_string(), 0)), Route::AlreadyConnected));
    assert!(matches!(route(true, &PrinterCommand::Disconnect), Route::Disconnect));
    assert!(matches!(route(true, &PrinterCommand::GetStatus), Route::Forward));
}

#[test]
fn timers() {
    let mut t = PrintTimer::new(1000);
    t.update(1500);
    assert_eq!(t.elapsed(), 500);
    t.skip(5000);
    t.update(5100);
    assert_eq!(t.elapsed(), 600);
    t.update(10);
    assert_eq!(t.elapsed(), 600);

    let mut i = IntervalTimer::new(2000);
    assert!(i.check(0));
    assert!(!i.check(1999));
    assert!(i.check(2000));
    assert!(!i.check(3000));
}

#[test]
fn validators() {
    assert!(TemperatureTarget { to_set: ProbePoint::BED, index: None, target: 400000 }.validate().is_ok());
    assert_eq!(
        TemperatureTarget { to_set: ProbePoint::BED, index: None, target: 400001 }.validate(),
        Err(ErrorKind::InvalidInput)
    );
    assert!(FanSpeedTarget { index: 0, target: 0 }.validate().is_ok());
    assert_eq!(FanSpeedTarget { index: 0, target: -1 }.validate(), Err(ErrorKind::InvalidInput));
    let info = PrinterInfo { values: vec![] };
    assert!(!is_marlin(&info));
}

#[test]
fn simulated_printer_streams_and_drifts() {
    let mut s = SimulatedPrinter::new(0);
    assert_eq!(s.pause(0), Err(ErrorKind::InvalidInput));
    assert_eq!(s.start(0), Err(ErrorKind::InvalidInput));
    let job = GCodeFile::new(
        "sim.gcode".to_string(),
        vec![";TIME:4".to_string(), "G1 X1".to_string(), "G1 X2".to_string(), "G1 X3".to_string()],
    );
    assert!(s.set_gcode_file(job, 0).is_ok());
    let t = |target| TemperatureTarget { to_set: ProbePoint::HOTEND, index: None, target };
    assert_eq!(s.set_temperature(&t(300001)), Err(ErrorKind::InvalidInput));
    assert_eq!(
        s.set_temperature(&TemperatureTarget { to_set: ProbePoint::CHAMBER, index: None, target: 1000 }),
        Err(ErrorKind::InvalidInput)
    );
    s.set_temperature(&t(200000)).unwrap();
    s.start(0).unwrap();
    assert_eq!(s.set_gcode_file(three_line_job(), 0), Err(ErrorKind::InvalidInput));
    // One physical line per second: four lines over the declared four seconds.
    s.advance(1000, 0);
    let st = s.get_status();
    assert_eq!(st.temperatures[0].current, 25500);
    assert_eq!(st.temperatures[1].current, 20500);
    assert_eq!(st.gcode_lines_done_total, Some(("sim.gcode".to_string(), 0, 4)));
    s.advance(1100, 750);
    assert_eq!(s.get_status().temperatures[0].current, 25500);
    s.advance(2000, 750);
    assert_eq!(s.get_status().gcode_lines_done_total, Some(("sim.gcode".to_string(), 1, 4)));
    s.advance(3000, 750);
    s.advance(4000, 750);
    assert_eq!(s.get_state(), PrintState::STARTED);
    s.advance(5000, 750);
    assert_eq!(s.get_state(), PrintState::DONE);
    assert_eq!(s.get_status().gcode_lines_done_total, Some(("sim.gcode".to_string(), 3, 4)));
    assert!(s.next_action(6000).is_ok());
    s.stop().unwrap();
    assert!(s.get_status().temperatures.iter().all(|t| t.target == 0));
    assert_eq!(s.stop(), Err(ErrorKind::InvalidInput));
    assert_eq!(s.move_relative(&Position { x: 1, y: 1, z: 1, e: 1 }), Err(ErrorKind::InvalidInput));
    s.go_home(&AxisSet { x: true, y: true, z: true, e: false }).unwrap();
    assert!(s.get_status().manual_control_enabled);
    assert_eq!(s.move_relative(&Position { x: 1, y: 1, z: 1, e: 1 }), Ok(()));
    assert!(s.set_fan_speed(1, 500).is_ok());
    assert_eq!(s.get_status().fan_speed, vec![0, 128]);
    assert_eq!(s.set_fan_speed(1, 1500), Err(ErrorKind::InvalidInput));
    assert!(s.clear_gcode_file().is_ok());
    assert_eq!(s.get_status().gcode_lines_done_total, None);
}

#[test]
fn nack_while_polling_rewinds() {
    let mut p = marlin_printer();
    let cmds = p.set_gcode_file(three_line_job(), 0).unwrap();
    exchange(&mut p, cmds);
    p.start(0).unwrap();
    for _ in 0..3 {
        if let Tick::Send(c, n) = p.tick(1) {
            p.prepare_send(&c, Some(n));
            p.on_reply(Ok(Response::BUSY));
            assert!(!p.on_poll_reply(Ok(Response::OK)));
        }
    }
    assert!(p.on_poll_reply(Ok(Response::NACK(2))));
    match p.tick(2) {
        Tick::Send(c, n) => assert_eq!((c.as_str(), n), ("G1 X2", 2)),
        other => panic!("unexpected {:?}", other),
    }
    let mut q = marlin_printer();
    assert!(!q.on_poll_reply(Ok(Response::NACK(2))));
    assert_eq!(q.get_state(), PrintState::DEAD);
}

#[test]
fn clearing_the_job() {
    let mut p = marlin_printer();
    let cmds = p.set_gcode_file(three_line_job(), 0).unwrap();
    exchange(&mut p, cmds);
    p.start(0).unwrap();
    assert_eq!(p.clear_gcode_file(), Err(ErrorKind::InvalidInput));
    let cmds = p.stop().unwrap();
    exchange(&mut p, cmds);
    assert_eq!(p.clear_gcode_file(), Ok(()));
    assert_eq!(p.get_status().gcode_lines_done_total, None);
    assert_eq!(p.start(0), Err(ErrorKind::InvalidInput));
}

#[test]
fn console_bookkeeping() {
    assert!(still_connected(true, ChannelOutcome::Delivered));
    assert!(still_connected(true, ChannelOutcome::Idle));
    assert!(!still_connected(true, ChannelOutcome::Disconnected));
    assert!(!still_connected(false, ChannelOutcome::Delivered));
    assert!(should_exchange(true) && !should_exchange(false));
}

#[test]
fn axis_sets() {
    let mut a = AxisSet::empty();
    assert!(!a.contains(yoctoprint::types::Axis::X));
    a.insert(yoctoprint::types::Axis::X);
    assert!(a.contains(yoctoprint::types::Axis::X));
    let b = a.union(&AxisSet { x: false, y: true, z: true, e: false });
    assert!(b.is_superset(&AxisSet::xyz()));
    assert!(!a.is_superset(&AxisSet::xyz()));
    assert!(AxisSet::xyz().is_superset(&AxisSet::empty()));
}
