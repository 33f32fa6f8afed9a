use yoctoprint::marlin::{Marlin, OutgoingCmd, PositionMode, PositionModeCmd, Response};
use yoctoprint::types::{AxisSet, ErrorKind, Position, ProbePoint, Temperature, TemperatureTarget};

fn axes(x: bool, y: bool, z: bool, e: bool) -> AxisSet {
    AxisSet { x, y, z, e }
}

#[test]
fn parse_temperature_line() {
    let test_line = " T:22.58 /0.00 B:23.11 /70.00 @:0 B@:0 W:?";
    let resp = Marlin {}.parse_rx_line(test_line);

    assert!(resp.is_ok());
    assert_eq!(
        resp.unwrap(),
        Response::TEMPERATURE(
            vec![
                Temperature { measured_from: ProbePoint::HOTEND, index: 0, power: 0, current: 22580, target: 0 },
                Temperature { measured_from: ProbePoint::BED, index: 0, power: 0, current: 23110, target: 70000 },
            ],
            None
        )
    );

    let test_line = " T:22.67 /66.66 B:23.11 /70.00 @:55 B@:127 W:30  ";
    let resp = Marlin {}.parse_rx_line(test_line);
    assert_eq!(
        resp.unwrap(),
        Response::TEMPERATURE(
            vec![
                Temperature { measured_from: ProbePoint::HOTEND, index: 0, power: 55, current: 22670, target: 66660 },
                Temperature { measured_from: ProbePoint::BED, index: 0, power: 127, current: 23110, target: 70000 },
            ],
            Some(30)
        )
    );
}

#[test]
fn parse_temperature_line_no_bed_no_residency() {
    let test_line = "T:22.67 /66.66 @:55";
    let resp = Marlin {}.parse_rx_line(test_line);
    assert_eq!(
        resp.unwrap(),
        Response::TEMPERATURE(
            vec![Temperature { measured_from: ProbePoint::HOTEND, index: 0, power: 55, current: 22670, target: 66660 }],
            None
        )
    );
}

#[test]
fn parse_position_line() {
    let test_line = "X:0.13 Y:152.00 Z:3.01 E:-3.95 Count X:0 Y:12160 Z:6060";
    let resp = Marlin {}.parse_rx_line(test_line);
    assert_eq!(
        resp.unwrap(),
        Response::POSITION(Position { x: 13000, y: 15200000, z: 301000, e: -395000 })
    );
}

#[test]
fn parse_send_error_line() {
    let test_lines = ["Error:Line Number is not Last Line Number+1, Last Line: 1", "Resend: 2", "ok"];

    assert_eq!(Marlin {}.parse_rx_line(test_lines[0]).unwrap(), Response::NACK(2));
    assert_eq!(Marlin {}.parse_rx_line(test_lines[1]).unwrap(), Response::NONE);
    assert_eq!(Marlin {}.parse_rx_line(test_lines[2]).unwrap(), Response::OK);
}

#[test]
fn add_message_frame() {
    let test_line = "G1 X96.388 Y84.487 E0.04474";
    assert_eq!(Marlin {}.add_message_frame(1, test_line), "N1 G1 X96.388 Y84.487 E0.04474*107");
}

#[test]
fn parse_busy_line() {
    let test_line = "echo:busy: processing";
    let resp = Marlin {}.parse_rx_line(test_line);
    assert_eq!(resp.unwrap(), Response::BUSY);
}

#[test]
fn parse_fan_speed_no_idx() {
    let test_line = "M106 S255";
    let (idx, speed) = Marlin {}.parse_fan_speed(test_line);

    assert_eq!(idx, 0);
    assert_eq!(speed, 255);
}

#[test]
fn parse_fan_speed_with_idx() {
    let test_line = "M106 P2 S0";
    let (idx, speed) = Marlin {}.parse_fan_speed(test_line);

    assert_eq!(idx, 2);
    assert_eq!(speed, 0);
}

#[test]
fn parse_home_cmd() {
    let mut test_line = "G28 X Z";
    assert_eq!(Marlin {}.parse_home_cmd(test_line), axes(true, false, true, false));

    test_line = "G28 0";
    assert_eq!(Marlin {}.parse_home_cmd(test_line), axes(true, true, true, false));

    test_line = "G28 ";
    assert_eq!(Marlin {}.parse_home_cmd(test_line), axes(true, true, true, false));

    test_line = "G28 Y";
    assert_eq!(Marlin {}.parse_home_cmd(test_line), axes(false, true, false, false));
}

#[test]
fn home_cmds() {
    assert_eq!(Marlin {}.get_home_cmds(&axes(true, true, true, false))[1], "G28 X Y Z");
    assert_eq!(Marlin {}.get_home_cmds(&axes(false, true, true, false))[1], "G28 Y Z");
    assert_eq!(Marlin {}.get_home_cmds(&axes(false, true, true, true))[1], "G28 Y Z");
}

#[test]
fn home_with_no_axes_homes_all() {
    let cmds = Marlin {}.get_home_cmds(&axes(false, false, false, false));
    assert_eq!(cmds, vec!["M17".to_string(), "G28".to_string()]);
    assert_eq!(Marlin {}.parse_home_cmd(&cmds[1]), axes(true, true, true, false));
}

#[test]
fn frame_checksum_is_xor_of_prefix() {
    let framed = Marlin {}.add_message_frame(1, "G1 X96.388 Y84.487 E0.04474");
    let (prefix, sum) = framed.split_once('*').unwrap();
    let xor = prefix.bytes().fold(0u8, |a, b| a ^ b);
    assert_eq!(sum, xor.to_string());
    assert_eq!(sum, "107");
    assert_eq!(Marlin {}.add_message_frame(12, "M105"), format!("N12 M105*{}", "N12 M105".bytes().fold(0u8, |a, b| a ^ b)));
}

#[test]
fn fan_commands_set_fan_speed_through_tap() {
    let m = Marlin {};
    assert_eq!(m.parse_outgoing_cmd("M106 S0"), Some(OutgoingCmd::FanSpeedChange(0, 0)));
    assert_eq!(m.parse_outgoing_cmd("M107"), Some(OutgoingCmd::FanSpeedChange(0, 0)));
    assert_eq!(m.parse_outgoing_cmd("M107 P1"), Some(OutgoingCmd::FanSpeedChange(1, 0)));
    assert_eq!(m.parse_outgoing_cmd("M106 P2 S255"), Some(OutgoingCmd::FanSpeedChange(2, 255)));
    assert_eq!(m.parse_outgoing_cmd("M106 P2 S300"), Some(OutgoingCmd::FanSpeedChange(2, 255)));
}

#[test]
fn tap_reports_mode_changes_and_homing() {
    let m = Marlin {};
    assert_eq!(
        m.parse_outgoing_cmd("G90"),
        Some(OutgoingCmd::PositionModeChange(PositionModeCmd::All(PositionMode::ABSOLUTE)))
    );
    assert_eq!(
        m.parse_outgoing_cmd("G91"),
        Some(OutgoingCmd::PositionModeChange(PositionModeCmd::All(PositionMode::RELATIVE)))
    );
    assert_eq!(
        m.parse_outgoing_cmd("M82"),
        Some(OutgoingCmd::PositionModeChange(PositionModeCmd::ExtruderOnly(PositionMode::ABSOLUTE)))
    );
    assert_eq!(
        m.parse_outgoing_cmd("M83"),
        Some(OutgoingCmd::PositionModeChange(PositionModeCmd::ExtruderOnly(PositionMode::RELATIVE)))
    );
    assert_eq!(m.parse_outgoing_cmd("G28 X"), Some(OutgoingCmd::HomeAxes(axes(true, false, false, false))));
    assert_eq!(m.parse_outgoing_cmd("G1 X1"), None);
}

#[test]
fn temperature_parse_second_probe_index_and_chamber() {
    let resp = Marlin {}.parse_rx_line("T:200.5 /210.0 T1:20.25 /0.0 C:30.0 /0.0 @1:64 C@:300 W:7");
    assert_eq!(
        resp.unwrap(),
        Response::TEMPERATURE(
            vec![
                Temperature { measured_from: ProbePoint::HOTEND, index: 0, power: 0, current: 200500, target: 210000 },
                Temperature { measured_from: ProbePoint::HOTEND, index: 1, power: 64, current: 20250, target: 0 },
                Temperature { measured_from: ProbePoint::CHAMBER, index: 0, power: 127, current: 30000, target: 0 },
            ],
            Some(7)
        )
    );
}

#[test]
fn unknown_and_empty_lines() {
    assert_eq!(Marlin {}.parse_rx_line("   \r\n"), Ok(Response::NONE));
    assert_eq!(Marlin {}.parse_rx_line("echo:SD card ok"), Err(ErrorKind::InvalidData));
    assert_eq!(Marlin {}.parse_rx_line("T:nothing here"), Err(ErrorKind::InvalidData));
    assert_eq!(Marlin {}.parse_rx_line("ok T:20.0 /0.0"), Ok(Response::OK));
}

#[test]
fn nack_out_of_range_is_invalid_data() {
    assert_eq!(Marlin {}.parse_rx_line("Last Line: 4294967295"), Err(ErrorKind::InvalidData));
    assert_eq!(Marlin {}.parse_rx_line("Last Line:41"), Ok(Response::NACK(42)));
}

#[test]
fn position_report_round_trip() {
    let m = Marlin {};
    let p = Position { x: 13000, y: 15200000, z: 301000, e: -395000 };
    let line = m.get_position_report(&p);
    assert_eq!(line, "X:0.13000 Y:152.00000 Z:3.01000 E:-3.95000");
    assert_eq!(m.parse_rx_line(&line), Ok(Response::POSITION(p)));
    let q = Position { x: -1, y: 0, z: 99999999, e: 1234567 };
    assert_eq!(m.parse_rx_line(&m.get_position_report(&q)), Ok(Response::POSITION(q)));
}

#[test]
fn temperature_report_round_trip() {
    let m = Marlin {};
    let ts = vec![
        Temperature { measured_from: ProbePoint::HOTEND, index: 0, power: 55, current: 22670, target: 66660 },
        Temperature { measured_from: ProbePoint::BED, index: 0, power: 127, current: 23110, target: 70000 },
        Temperature { measured_from: ProbePoint::HOTEND, index: 1, power: 3, current: 1, target: 2 },
        Temperature { measured_from: ProbePoint::PROBE, index: 0, power: 0, current: 30000, target: 0 },
    ];
    let line = m.get_temperature_report(&ts, Some(30));
    assert_eq!(line, "T:22.670 /66.660 B:23.110 /70.000 T1:0.001 /0.002 P:30.000 /0.000 @:55 B@:127 @1:3 W:30");
    assert_eq!(m.parse_rx_line(&line), Ok(Response::TEMPERATURE(ts.clone(), Some(30))));
    let one = vec![ts[0]];
    let line = m.get_temperature_report(&one, None);
    assert_eq!(line, "T:22.670 /66.660 @:55 W:?");
    assert_eq!(m.parse_rx_line(&line), Ok(Response::TEMPERATURE(one, None)));
}

#[test]
fn generators_format_numbers() {
    let m = Marlin {};
    assert_eq!(m.get_reset_line_no_cmd(0), "M110 N0");
    assert_eq!(m.get_reset_line_no_cmd(150), "M110 N150");
    assert_eq!(m.get_stop_cmd(true), "M112");
    assert_eq!(m.get_stop_cmd(false), "M108");
    assert_eq!(m.get_enable_temperature_updates_cmds(2), vec!["M155 S2".to_string()]);
    assert_eq!(m.get_fan_speed_cmd(1, 0), "M107 P1");
    assert_eq!(m.get_fan_speed_cmd(1, 500), "M106 P1 S128");
    assert_eq!(m.get_fan_speed_cmd(0, 1000), "M106 P0 S255");
    assert_eq!(m.get_fan_speed_cmd(0, 2000), "M106 P0 S255");
    assert_eq!(
        m.get_set_temperature_cmds(&TemperatureTarget { to_set: ProbePoint::BED, index: None, target: 59500 }),
        vec!["M140 T0 S60".to_string()]
    );
    assert_eq!(
        m.get_set_temperature_cmds(&TemperatureTarget { to_set: ProbePoint::HOTEND, index: Some(1), target: 210400 }),
        vec!["M104 T1 S210".to_string()]
    );
    assert!(m.get_set_temperature_cmds(&TemperatureTarget { to_set: ProbePoint::PROBE, index: None, target: 1000 }).is_empty());
    assert_eq!(
        m.get_move_cmds(&Position { x: 100000, y: 250, z: 0, e: -1 }, (PositionMode::ABSOLUTE, PositionMode::RELATIVE)),
        vec![
            "G91".to_string(),
            "G1 E-0.00001 X1.00000 Y0.00250 Z0.00000".to_string(),
            "G90".to_string(),
            "M83".to_string()
        ]
    );
    assert_eq!(m.get_save_position_cmd(), "G60");
    assert_eq!(m.get_restore_position_cmd(), "G61 X Y Z");
}
