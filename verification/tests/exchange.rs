use ezo_ec::command::{
    Baud, BpsRate, CalibrationDry, CalibrationHigh, CalibrationState, Command, DeviceAddress,
    Import, OutputState, Reading, Sleep, Status, TemperatureCompensation, MAX_DATA, MAX_FRAME,
};
use ezo_ec::errors::ErrorKind;
use ezo_ec::exchange::{
    extract_payload, interpret, response_code, wire_frame, Action, Event, Exchange, ResponseCode,
    RETRY_BACKOFF_MS,
};
use ezo_ec::response::{
    CalibrationStatus, OutputStringStatus, ParameterStatus, ProbeReading, Response, ResponseKind,
    RestartReason,
};

/// A transport that fails as often as it is told to, and then answers with `reply`.
struct Bus {
    write_failures: usize,
    read_failures: usize,
    reply: Vec<u8>,
    written: Vec<Vec<u8>>,
    slept: Vec<u64>,
    reads: usize,
}

impl Bus {
    fn answering(reply: Vec<u8>) -> Bus {
        Bus { write_failures: 0, read_failures: 0, reply, written: vec![], slept: vec![], reads: 0 }
    }
}

/// A full reply buffer: the status byte, the payload, and nul bytes up to the end.
fn buffer(status: u8, payload: &str) -> Vec<u8> {
    let mut bytes = vec![status];
    bytes.extend_from_slice(payload.as_bytes());
    bytes.resize(MAX_DATA, 0);
    bytes
}

/// Runs one command against the transport, doing what the exchange asks for.
fn run<C: Command>(command: &C, bus: &mut Bus) -> Result<Response, ErrorKind> {
    let (mut exchange, mut action) = Exchange::start(command);
    let mut steps = 0;
    loop {
        let event = match action {
            Action::Write(frame) => {
                if bus.write_failures > 0 {
                    bus.write_failures -= 1;
                    Event::WriteFailed
                } else {
                    bus.written.push(frame);
                    Event::Written
                }
            }
            Action::Sleep(ms) => {
                bus.slept.push(ms);
                Event::Slept
            }
            Action::Read(size) => {
                assert_eq!(size, MAX_DATA);
                bus.reads += 1;
                if bus.read_failures > 0 {
                    bus.read_failures -= 1;
                    Event::ReadFailed
                } else {
                    Event::Received(bus.reply.clone())
                }
            }
            Action::Finish(result) => return result,
        };
        steps += 1;
        assert!(steps <= 7);
        action = exchange.step(event);
    }
}

fn values(response: Response) -> Vec<f64> {
    match response {
        Response::ProbeReading(ProbeReading::TwoParameters(a, b)) => {
            vec![a.as_str().parse().unwrap(), b.as_str().parse().unwrap()]
        }
        other => panic!("{:?}", other),
    }
}

#[test]
fn reading_command_yields_two_parameter_reading() {
    let mut bus = Bus::answering(buffer(1, "14.000,434.050"));
    let response = run(&Reading, &mut bus).unwrap();
    assert_eq!(values(response), vec![14.0, 434.05]);
    assert_eq!(bus.written, vec![b"R\0".to_vec()]);
    assert_eq!(bus.slept, vec![600]);
    assert_eq!(bus.reads, 1);
}

#[test]
fn first_write_failure_is_retried_and_the_command_completes() {
    let mut bus = Bus::answering(buffer(1, "14.000,434.050"));
    bus.write_failures = 1;
    let response = run(&Reading, &mut bus).unwrap();
    assert_eq!(values(response), vec![14.0, 434.05]);
    assert_eq!(bus.written, vec![b"R\0".to_vec()]);
    assert_eq!(bus.slept, vec![RETRY_BACKOFF_MS, 600]);
    assert_eq!(RETRY_BACKOFF_MS, 300);
}

#[test]
fn two_write_failures_yield_i2c_read() {
    let mut bus = Bus::answering(buffer(1, "14.000,434.050"));
    bus.write_failures = 2;
    assert_eq!(run(&Reading, &mut bus), Err(ErrorKind::I2CRead));
    assert!(bus.written.is_empty());
    assert_eq!(bus.slept, vec![300]);
    assert_eq!(bus.reads, 0);
    assert_eq!(bus.write_failures, 0);
}

#[test]
fn first_read_failure_is_retried_and_the_command_completes() {
    let mut bus = Bus::answering(buffer(1, "?CAL,2"));
    bus.read_failures = 1;
    assert_eq!(
        run(&CalibrationState, &mut bus),
        Ok(Response::CalibrationStatus(CalibrationStatus::TwoPoint))
    );
    assert_eq!(bus.slept, vec![300, 300]);
    assert_eq!(bus.reads, 2);
}

#[test]
fn two_read_failures_yield_i2c_read() {
    let mut bus = Bus::answering(buffer(1, "?CAL,2"));
    bus.read_failures = 2;
    assert_eq!(run(&CalibrationState, &mut bus), Err(ErrorKind::I2CRead));
    assert_eq!(bus.slept, vec![300, 300]);
    assert_eq!(bus.reads, 2);
}

#[test]
fn a_failed_write_and_a_failed_read_are_each_retried() {
    let mut bus = Bus::answering(buffer(1, "?O,EC,S"));
    bus.write_failures = 1;
    bus.read_failures = 1;
    assert_eq!(
        run(&OutputState, &mut bus),
        Ok(Response::OutputStringStatus(OutputStringStatus {
            electric_conductivity: ParameterStatus::On,
            total_dissolved_solids: ParameterStatus::Off,
            salinity: ParameterStatus::On,
            specific_gravity: ParameterStatus::Off,
        }))
    );
    assert_eq!(bus.written, vec![b"O,?\0".to_vec()]);
    assert_eq!(bus.slept, vec![300, 300, 300]);
}

#[test]
fn acknowledged_command_needs_no_payload() {
    let mut bus = Bus::answering(buffer(1, ""));
    assert_eq!(run(&CalibrationDry, &mut bus), Ok(Response::Ack));
    assert_eq!(bus.written, vec![b"CAL,DRY\0".to_vec()]);
    assert_eq!(bus.slept, vec![800]);

    let mut bus = Bus::answering(vec![1]);
    assert_eq!(run(&TemperatureCompensation(19500), &mut bus), Ok(Response::Ack));
    assert_eq!(bus.written, vec![b"T,19.500\0".to_vec()]);
    assert_eq!(bus.slept, vec![300]);
}

#[test]
fn status_byte_decides_before_the_payload() {
    let mut bus = Bus::answering(buffer(255, "14.000"));
    assert_eq!(run(&Reading, &mut bus), Err(ErrorKind::NoDataExpectedResponse));
    let mut bus = Bus::answering(buffer(254, "14.000"));
    assert_eq!(run(&Reading, &mut bus), Err(ErrorKind::PendingResponse));
    let mut bus = Bus::answering(buffer(2, "14.000"));
    assert_eq!(run(&Reading, &mut bus), Err(ErrorKind::DeviceErrorResponse));
    for status in [0u8, 3, 4, 100, 128, 253] {
        let mut bus = Bus::answering(buffer(status, "14.000"));
        assert_eq!(run(&Reading, &mut bus), Err(ErrorKind::MalformedResponse));
        let mut bus = Bus::answering(buffer(status, ""));
        assert_eq!(run(&CalibrationDry, &mut bus), Err(ErrorKind::MalformedResponse));
    }
    let mut bus = Bus::answering(vec![]);
    assert_eq!(run(&Reading, &mut bus), Err(ErrorKind::MalformedResponse));
}

#[test]
fn payload_of_the_wrong_shape_yields_response_parse() {
    let mut bus = Bus::answering(buffer(1, "?K,1.0"));
    assert_eq!(run(&CalibrationState, &mut bus), Err(ErrorKind::ResponseParse));
    let mut bus = Bus::answering(buffer(1, ""));
    assert_eq!(run(&Reading, &mut bus), Err(ErrorKind::ResponseParse));
    let mut bus = Bus::answering(buffer(1, "1,2,3,4,5"));
    assert_eq!(run(&Reading, &mut bus), Err(ErrorKind::ResponseParse));
}

#[test]
fn status_byte_codes() {
    assert_eq!(response_code(255), ResponseCode::NoDataExpected);
    assert_eq!(response_code(254), ResponseCode::Pending);
    assert_eq!(response_code(2), ResponseCode::DeviceError);
    assert_eq!(response_code(1), ResponseCode::Success);
    for status in 0..=255u8 {
        if ![1, 2, 254, 255].contains(&status) {
            assert_eq!(response_code(status), ResponseCode::UnknownError);
        }
    }
}

#[test]
fn frame_is_the_text_and_a_nul_byte() {
    assert_eq!(wire_frame("R"), vec![b'R', 0]);
    assert_eq!(wire_frame("CAL,84.00"), b"CAL,84.00\0".to_vec());
    assert_eq!(wire_frame(""), vec![0]);
    assert_eq!(wire_frame("\u{e9}"), vec![0xc3, 0xa9, 0]);
}

#[test]
fn payload_ends_at_the_first_nul_byte() {
    assert_eq!(extract_payload(b"14.000\0\0\0"), Ok("14.000".to_string()));
    assert_eq!(extract_payload(b"14.000\0garbage\0"), Ok("14.000".to_string()));
    assert_eq!(extract_payload(b"\0"), Ok(String::new()));
    assert_eq!(extract_payload(b"\0abc"), Ok(String::new()));
    assert_eq!(extract_payload(&[0xc3, 0xa9, 0]), Ok("\u{e9}".to_string()));
}

#[test]
fn payload_that_is_not_utf8_is_malformed() {
    assert_eq!(extract_payload(&[b'1', 0xff, 0]), Err(ErrorKind::MalformedResponse));
    assert_eq!(extract_payload(&[0x80, 0]), Err(ErrorKind::MalformedResponse));
    assert_eq!(extract_payload(&[0xc3, 0]), Err(ErrorKind::MalformedResponse));
    assert_eq!(
        interpret(ResponseKind::ProbeReading, &[1, b'1', 0xff, 0]),
        Err(ErrorKind::MalformedResponse)
    );
    assert_eq!(interpret(ResponseKind::Ack, &[1, b'1', 0xff, 0]), Ok(Response::Ack));
}

#[test]
fn payload_without_nul_byte_loses_the_high_bits() {
    assert_eq!(extract_payload(b"14.000"), Ok("14.000".to_string()));
    assert_eq!(extract_payload(&[b'1' | 0x80, b'4', b'.' | 0x80, b'5']), Ok("14.5".to_string()));
    assert_eq!(extract_payload(&[0x80, b'1']), Ok("\u{0}1".to_string()));
    assert_eq!(extract_payload(&[]), Ok(String::new()));
    assert_eq!(
        interpret(ResponseKind::CalibrationStatus, &[1, b'?', b'C' | 0x80, b'A', b'L', b',', b'1']),
        Ok(Response::CalibrationStatus(CalibrationStatus::OnePoint))
    );
}

#[test]
fn interpret_reads_status_and_payload() {
    assert_eq!(
        interpret(ResponseKind::CalibrationStatus, b"\x01?CAL,0\0"),
        Ok(Response::CalibrationStatus(CalibrationStatus::NotCalibrated))
    );
    assert_eq!(interpret(ResponseKind::Nothing, &[1]), Ok(Response::Nothing));
    assert_eq!(interpret(ResponseKind::Ack, &[]), Err(ErrorKind::MalformedResponse));
    assert_eq!(interpret(ResponseKind::Ack, &[254]), Err(ErrorKind::PendingResponse));
}

#[test]
fn an_event_that_was_not_asked_for_ends_the_exchange() {
    let (mut exchange, action) = Exchange::start(&Reading);
    assert_eq!(action, Action::Write(b"R\0".to_vec()));
    assert_eq!(exchange.step(Event::Slept), Action::Finish(Err(ErrorKind::I2CRead)));
    assert_eq!(exchange.step(Event::Written), Action::Finish(Err(ErrorKind::I2CRead)));

    let (mut exchange, _) = Exchange::start(&Reading);
    assert_eq!(exchange.step(Event::Written), Action::Sleep(600));
    assert_eq!(
        exchange.step(Event::Received(vec![1, b'1', 0])),
        Action::Finish(Err(ErrorKind::I2CRead))
    );

    let (mut exchange, _) = Exchange::start(&Reading);
    assert_eq!(exchange.step(Event::Written), Action::Sleep(600));
    assert_eq!(exchange.step(Event::Slept), Action::Read(MAX_DATA));
    assert_eq!(exchange.step(Event::WriteFailed), Action::Finish(Err(ErrorKind::I2CRead)));
}

#[test]
fn steps_of_an_exchange_in_order() {
    let (mut exchange, action) = Exchange::start(&CalibrationState);
    assert_eq!(action, Action::Write(b"CAL,?\0".to_vec()));
    assert_eq!(exchange.step(Event::WriteFailed), Action::Sleep(300));
    assert_eq!(exchange.step(Event::Slept), Action::Write(b"CAL,?\0".to_vec()));
    assert_eq!(exchange.step(Event::Written), Action::Sleep(300));
    assert_eq!(exchange.step(Event::Slept), Action::Read(401));
    assert_eq!(exchange.step(Event::ReadFailed), Action::Sleep(300));
    assert_eq!(exchange.step(Event::Slept), Action::Read(401));
    assert_eq!(
        exchange.step(Event::Received(buffer(1, "?CAL,1"))),
        Action::Finish(Ok(Response::CalibrationStatus(CalibrationStatus::OnePoint)))
    );
}

#[test]
fn command_without_reply_ends_after_the_write() {
    let mut bus = Bus::answering(vec![]);
    assert_eq!(run(&Sleep, &mut bus), Ok(Response::Nothing));
    assert_eq!(bus.written, vec![b"SLEEP\0".to_vec()]);
    assert!(bus.slept.is_empty());
    assert_eq!(bus.reads, 0);

    let mut bus = Bus::answering(vec![]);
    assert_eq!(run(&DeviceAddress(101), &mut bus), Ok(Response::Nothing));
    assert_eq!(bus.written, vec![b"I2C,101\0".to_vec()]);
    assert_eq!(bus.slept, vec![300]);
    assert_eq!(bus.reads, 0);

    let mut bus = Bus::answering(vec![]);
    bus.write_failures = 2;
    assert_eq!(run(&Sleep, &mut bus), Err(ErrorKind::I2CRead));
}

#[test]
fn status_command_yields_device_status() {
    let mut bus = Bus::answering(buffer(1, "?STATUS,P,1.5"));
    match run(&Status, &mut bus) {
        Ok(Response::DeviceStatus(status)) => {
            assert_eq!(status.restart_reason, RestartReason::PoweredOff);
            assert_eq!(status.vcc_voltage.as_str().parse::<f64>(), Ok(1.5));
        }
        other => panic!("{:?}", other),
    }
    assert_eq!(bus.written, vec![b"STATUS\0".to_vec()]);
}

#[test]
fn import_command_is_acknowledged() {
    let mut bus = Bus::answering(buffer(1, ""));
    assert_eq!(run(&Import::new("59 6F 75").unwrap(), &mut bus), Ok(Response::Ack));
    assert_eq!(bus.written, vec![b"IMPORT,59 6F 75\0".to_vec()]);
}

#[test]
fn payload_is_read_as_utf8_up_to_the_nul_byte() {
    assert_eq!(extract_payload(&[0xf0, 0x9f, 0x98, 0x80, 0]), Ok("\u{1f600}".to_string()));
    assert_eq!(extract_payload(&[0xe2, 0x82, 0xac, b'1', 0, 0xff]), Ok("\u{20ac}1".to_string()));
    // An overlong encoding, a surrogate, a value beyond the last scalar, a lone continuation
    // byte and a sequence that is cut short.
    for bytes in [
        vec![0xc0, 0x80, 0],
        vec![0xc1, 0xbf, 0],
        vec![0xe0, 0x80, 0x80, 0],
        vec![0xed, 0xa0, 0x80, 0],
        vec![0xf4, 0x90, 0x80, 0x80, 0],
        vec![0xf5, 0x80, 0x80, 0x80, 0],
        vec![0xbf, 0],
        vec![0xe2, 0x82, 0],
        vec![b'1', b'2', 0xfe, 0],
    ] {
        assert_eq!(extract_payload(&bytes), Err(ErrorKind::MalformedResponse), "{:?}", bytes);
        assert_eq!(std::str::from_utf8(&bytes[..bytes.len() - 1]).is_err(), true);
    }
}

#[test]
fn no_frame_is_longer_than_the_longest() {
    assert_eq!(MAX_FRAME, 56);
    let longest = Import::new("\u{1f600}".repeat(12).as_str()).unwrap();
    assert_eq!(wire_frame(&longest.get_command_string()).len(), MAX_FRAME);
    let (_, action) = Exchange::start(&longest);
    match action {
        Action::Write(frame) => assert_eq!(frame.len(), MAX_FRAME),
        other => panic!("{:?}", other),
    }
    assert_eq!(wire_frame(&CalibrationHigh(i64::MIN).get_command_string()).len(), 31);
    assert_eq!(wire_frame(&TemperatureCompensation(i64::MIN).get_command_string()).len(), 24);
    assert_eq!(wire_frame(&Baud(BpsRate::Bps115200).get_command_string()).len(), 12);
    assert_eq!(wire_frame(&DeviceAddress(65535).get_command_string()).len(), 10);
    assert_eq!(wire_frame(&Import::new("ABCDEFGHIJKL").unwrap().get_command_string()).len(), 20);
    assert_eq!(wire_frame(&Reading.get_command_string()).len(), 2);
}
