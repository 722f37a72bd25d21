use ezo_ec::errors::ErrorKind;
use ezo_ec::number::Number;
use ezo_ec::response::{
    decode, CalibrationStatus, CompensationValue, DeviceInfo, DeviceStatus, Exported,
    ExportedInfo, LedStatus, OutputStringStatus, ParameterStatus, ProbeMetric, ProbeReading,
    ProbeType, ProtocolLockStatus, Response, ResponseKind, RestartReason,
};

/// The value of a number.
fn value(number: &Number) -> f64 {
    number.as_str().parse::<f64>().unwrap()
}

/// The shape of a reading and the values of its numbers.
fn reading(reading: ProbeReading) -> (&'static str, Vec<f64>) {
    match reading {
        ProbeReading::NoParameters => ("None", vec![]),
        ProbeReading::OneParameter(a) => ("OneParameter", vec![value(&a)]),
        ProbeReading::TwoParameters(a, b) => ("TwoParameters", vec![value(&a), value(&b)]),
        ProbeReading::ThreeParameters(a, b, c) => {
            ("ThreeParameters", vec![value(&a), value(&b), value(&c)])
        }
        ProbeReading::FourParameters(a, b, c, d) => {
            ("FourParameters", vec![value(&a), value(&b), value(&c), value(&d)])
        }
    }
}

/// The value of a compensation temperature.
fn compensation(compensation: CompensationValue) -> f64 {
    value(&compensation.0)
}

/// The status with the given parameters on.
fn status(ec: bool, tds: bool, s: bool, sg: bool) -> OutputStringStatus {
    let on = |b: bool| if b { ParameterStatus::On } else { ParameterStatus::Off };
    OutputStringStatus {
        electric_conductivity: on(ec),
        total_dissolved_solids: on(tds),
        salinity: on(s),
        specific_gravity: on(sg),
    }
}

#[test]
fn parses_calibration_status() {
    let response = "?CAL,1";
    assert_eq!(
        CalibrationStatus::parse(&response).unwrap(),
        CalibrationStatus::OnePoint
    );

    let response = "?CAL,2";
    assert_eq!(
        CalibrationStatus::parse(&response).unwrap(),
        CalibrationStatus::TwoPoint
    );

    let response = "?CAL,0";
    assert_eq!(
        CalibrationStatus::parse(&response).unwrap(),
        CalibrationStatus::NotCalibrated
    );
}

#[test]
fn parsing_invalid_calibration_status_yields_error() {
    let response = "";
    assert!(CalibrationStatus::parse(&response).is_err());

    let response = "?CAL,";
    assert!(CalibrationStatus::parse(&response).is_err());

    let response = "?CAL,2.";
    assert!(CalibrationStatus::parse(&response).is_err());

    let response = "?CAL,-1";
    assert!(CalibrationStatus::parse(&response).is_err());

    let response = "?CAL,4";
    assert!(CalibrationStatus::parse(&response).is_err());

    let response = "?CAL,b";
    assert!(CalibrationStatus::parse(&response).is_err());

    let response = "?CAL,1,";
    assert!(CalibrationStatus::parse(&response).is_err());
}

#[test]
fn parses_probe_type_status() {
    let response = "?K,0.1";
    assert_eq!(ProbeType::parse(&response).unwrap(), ProbeType::PointOne);

    let response = "?K,1.0";
    assert_eq!(ProbeType::parse(&response).unwrap(), ProbeType::One);

    let response = "?K,10.0";
    assert_eq!(ProbeType::parse(&response).unwrap(), ProbeType::Ten);
}

#[test]
fn parsing_invalid_probe_type_status_yields_error() {
    let response = "";
    assert!(ProbeType::parse(&response).is_err());

    let response = "?K,";
    assert!(ProbeType::parse(&response).is_err());

    let response = "?K,2.";
    assert!(ProbeType::parse(&response).is_err());

    let response = "?K,-1";
    assert!(ProbeType::parse(&response).is_err());

    let response = "?K,4";
    assert!(ProbeType::parse(&response).is_err());

    let response = "?K,b";
    assert!(ProbeType::parse(&response).is_err());

    let response = "?K,1,";
    assert!(ProbeType::parse(&response).is_err());
}

#[test]
fn parses_sensor_reading_single_parameter() {
    let response = "0";
    assert_eq!(
        reading(ProbeReading::parse(response).unwrap()),
        ("OneParameter", vec![0.000])
    );

    let response = "12.5";
    assert_eq!(
        reading(ProbeReading::parse(response).unwrap()),
        ("OneParameter", vec![12.500])
    );

    let response = "14.0";
    assert_eq!(
        reading(ProbeReading::parse(response).unwrap()),
        ("OneParameter", vec![14.000])
    );
}

#[test]
fn parsing_invalid_sensor_reading_single_parameter_yields_error() {
    let response = "";
    assert!(ProbeReading::parse(response).is_err());

    let response = "-x";
    assert!(ProbeReading::parse(response).is_err());

    let response = "0_5";
    assert!(ProbeReading::parse(response).is_err());

    let response = "10.5.5";
    assert!(ProbeReading::parse(response).is_err());

    let response = "14.1b";
    assert!(ProbeReading::parse(response).is_err());
}

#[test]
fn parses_sensor_reading_two_parameters() {
    let response = "0,000";
    assert_eq!(
        reading(ProbeReading::parse(response).unwrap()),
        ("TwoParameters", vec![0.000, 0.000])
    );

    let response = "12.500,0.000";
    assert_eq!(
        reading(ProbeReading::parse(response).unwrap()),
        ("TwoParameters", vec![12.500, 0.0])
    );

    let response = "14.000,434.050";
    assert_eq!(
        reading(ProbeReading::parse(response).unwrap()),
        ("TwoParameters", vec![14.000, 434.050])
    );
}

#[test]
fn parsing_invalid_sensor_reading_two_parameters_yields_error() {
    let response = ",";
    assert!(ProbeReading::parse(response).is_err());

    let response = "-x,";
    assert!(ProbeReading::parse(response).is_err());

    let response = "5.000,";
    assert!(ProbeReading::parse(response).is_err());

    let response = "10.5.5,6";
    assert!(ProbeReading::parse(response).is_err());

    let response = "14.1,b";
    assert!(ProbeReading::parse(response).is_err());
}

#[test]
fn parses_sensor_reading_three_parameters() {
    let response = "0,0,0";
    assert_eq!(
        reading(ProbeReading::parse(response).unwrap()),
        ("ThreeParameters", vec![0.0, 0.0, 0.0])
    );

    let response = "12.500,0.000,1423";
    assert_eq!(
        reading(ProbeReading::parse(response).unwrap()),
        ("ThreeParameters", vec![12.5, 0.0, 1423.0])
    );

    let response = "14.000,434.050,0.998";
    assert_eq!(
        reading(ProbeReading::parse(response).unwrap()),
        ("ThreeParameters", vec![14.0, 434.05, 0.998])
    );
}

#[test]
fn parsing_invalid_sensor_reading_three_parameters_yields_error() {
    let response = ",,";
    assert!(ProbeReading::parse(response).is_err());

    let response = "1,0,";
    assert!(ProbeReading::parse(response).is_err());

    let response = "1,0,-x";
    assert!(ProbeReading::parse(response).is_err());

    let response = ",,5.000";
    assert!(ProbeReading::parse(response).is_err());

    let response = "10.5,6,b";
    assert!(ProbeReading::parse(response).is_err());

    let response = "105,6,6.5.5";
    assert!(ProbeReading::parse(response).is_err());
}

#[test]
fn parses_output_string_status() {
    let response = "?O,EC";
    assert_eq!(
        OutputStringStatus::parse(response).unwrap(),
        OutputStringStatus {
            electric_conductivity: ParameterStatus::On,
            total_dissolved_solids: ParameterStatus::Off,
            salinity: ParameterStatus::Off,
            specific_gravity: ParameterStatus::Off,
        }
    );

    let response = "?O,EC,TDS,S,SG";
    assert_eq!(
        OutputStringStatus::parse(response).unwrap(),
        OutputStringStatus {
            electric_conductivity: ParameterStatus::On,
            total_dissolved_solids: ParameterStatus::On,
            salinity: ParameterStatus::On,
            specific_gravity: ParameterStatus::On,
        }
    );

    let response = "?O,EC,TDS,S";
    assert_eq!(
        OutputStringStatus::parse(response).unwrap(),
        OutputStringStatus {
            electric_conductivity: ParameterStatus::On,
            total_dissolved_solids: ParameterStatus::On,
            salinity: ParameterStatus::On,
            specific_gravity: ParameterStatus::Off,
        }
    );

    let response = "?O,EC,TDS";
    assert_eq!(
        OutputStringStatus::parse(response).unwrap(),
        OutputStringStatus {
            electric_conductivity: ParameterStatus::On,
            total_dissolved_solids: ParameterStatus::On,
            salinity: ParameterStatus::Off,
            specific_gravity: ParameterStatus::Off,
        }
    );

    let response = "?O,TDS,S,SG";
    assert_eq!(
        OutputStringStatus::parse(response).unwrap(),
        OutputStringStatus {
            electric_conductivity: ParameterStatus::Off,
            total_dissolved_solids: ParameterStatus::On,
            salinity: ParameterStatus::On,
            specific_gravity: ParameterStatus::On,
        }
    );

    let response = "?O,TDS,S";
    assert_eq!(
        OutputStringStatus::parse(response).unwrap(),
        OutputStringStatus {
            electric_conductivity: ParameterStatus::Off,
            total_dissolved_solids: ParameterStatus::On,
            salinity: ParameterStatus::On,
            specific_gravity: ParameterStatus::Off,
        }
    );

    let response = "?O,TDS";
    assert_eq!(
        OutputStringStatus::parse(response).unwrap(),
        OutputStringStatus {
            electric_conductivity: ParameterStatus::Off,
            total_dissolved_solids: ParameterStatus::On,
            salinity: ParameterStatus::Off,
            specific_gravity: ParameterStatus::Off,
        }
    );

    let response = "?O,S,SG";
    assert_eq!(
        OutputStringStatus::parse(response).unwrap(),
        OutputStringStatus {
            electric_conductivity: ParameterStatus::Off,
            total_dissolved_solids: ParameterStatus::Off,
            salinity: ParameterStatus::On,
            specific_gravity: ParameterStatus::On,
        }
    );

    let response = "?O,S";
    assert_eq!(
        OutputStringStatus::parse(response).unwrap(),
        OutputStringStatus {
            electric_conductivity: ParameterStatus::Off,
            total_dissolved_solids: ParameterStatus::Off,
            salinity: ParameterStatus::On,
            specific_gravity: ParameterStatus::Off,
        }
    );

    let response = "?O,SG";
    assert_eq!(
        OutputStringStatus::parse(response).unwrap(),
        OutputStringStatus {
            electric_conductivity: ParameterStatus::Off,
            total_dissolved_solids: ParameterStatus::Off,
            salinity: ParameterStatus::Off,
            specific_gravity: ParameterStatus::On,
        }
    );

    let response = "?O,No output";
    assert_eq!(
        OutputStringStatus::parse(response).unwrap(),
        OutputStringStatus {
            electric_conductivity: ParameterStatus::Off,
            total_dissolved_solids: ParameterStatus::Off,
            salinity: ParameterStatus::Off,
            specific_gravity: ParameterStatus::Off,
        }
    );
}

#[test]
fn writes_output_string_status_as_string() {
    let response = "?O,EC";
    let output_state = OutputStringStatus::parse(response).unwrap();
    assert_eq!(output_state.to_string(), response.get(3..).unwrap());

    let response = "?O,EC,TDS,S,SG";
    let output_state = OutputStringStatus::parse(response).unwrap();
    assert_eq!(output_state.to_string(), response.get(3..).unwrap());

    let response = "?O,EC,TDS,S";
    let output_state = OutputStringStatus::parse(response).unwrap();
    assert_eq!(output_state.to_string(), response.get(3..).unwrap());

    let response = "?O,EC,TDS";
    let output_state = OutputStringStatus::parse(response).unwrap();
    assert_eq!(output_state.to_string(), response.get(3..).unwrap());

    let response = "?O,TDS,S,SG";
    let output_state = OutputStringStatus::parse(response).unwrap();
    assert_eq!(output_state.to_string(), response.get(3..).unwrap());

    let response = "?O,TDS,S";
    let output_state = OutputStringStatus::parse(response).unwrap();
    assert_eq!(output_state.to_string(), response.get(3..).unwrap());

    let response = "?O,TDS";
    let output_state = OutputStringStatus::parse(response).unwrap();
    assert_eq!(output_state.to_string(), response.get(3..).unwrap());

    let response = "?O,S,SG";
    let output_state = OutputStringStatus::parse(response).unwrap();
    assert_eq!(output_state.to_string(), response.get(3..).unwrap());

    let response = "?O,S";
    let output_state = OutputStringStatus::parse(response).unwrap();
    assert_eq!(output_state.to_string(), response.get(3..).unwrap());

    let response = "?O,SG";
    let output_state = OutputStringStatus::parse(response).unwrap();
    assert_eq!(output_state.to_string(), response.get(3..).unwrap());

    let response = "?O,No output";
    let output_state = OutputStringStatus::parse(response).unwrap();
    assert_eq!(output_state.to_string(), response.get(3..).unwrap());
}

#[test]
fn parsing_invalid_output_string_status_yields_error() {
    let response = "?O,";
    assert!(OutputStringStatus::parse(response).is_err());

    let response = "?O,,";
    assert!(OutputStringStatus::parse(response).is_err());

    let response = "?O,,,";
    assert!(OutputStringStatus::parse(response).is_err());

    let response = "?O,,,,";
    assert!(OutputStringStatus::parse(response).is_err());

    let response = "?O,a,b,c,d";
    assert!(OutputStringStatus::parse(response).is_err());

    let response = "?O,ECB";
    assert!(OutputStringStatus::parse(response).is_err());

    let response = "?O,EC,TDS,";
    assert!(OutputStringStatus::parse(response).is_err());

    let response = "?O,EC,S,TDS";
    assert!(OutputStringStatus::parse(response).is_err());

    let response = "?O,EC,,TDS";
    assert!(OutputStringStatus::parse(response).is_err());

    let response = "?O,EC,TDS,S,SG,";
    assert!(OutputStringStatus::parse(response).is_err());

    let response = "?O,EC,TDS,S,SG,X";
    assert!(OutputStringStatus::parse(response).is_err());

    let response = "?O,SG,S,TDS,EC";
    assert!(OutputStringStatus::parse(response).is_err());
}

#[test]
fn parses_sensor_reading_four_parameters() {
    let response = "0,0,0,0";
    assert_eq!(
        reading(ProbeReading::parse(response).unwrap()),
        ("FourParameters", vec![0.0, 0.0, 0.0, 0.0])
    );

    let response = "12.500,0.000,1423,1.004";
    assert_eq!(
        reading(ProbeReading::parse(response).unwrap()),
        ("FourParameters", vec![12.5, 0.0, 1423.0, 1.004])
    );

    let response = "14.000,434.050,12,1234";
    assert_eq!(
        reading(ProbeReading::parse(response).unwrap()),
        ("FourParameters", vec![14.0, 434.05, 12.0, 1234.0])
    );
}

#[test]
fn parsing_invalid_sensor_reading_four_parameters_yields_error() {
    let response = ",,,";
    assert!(ProbeReading::parse(response).is_err());

    let response = "1,0,1,";
    assert!(ProbeReading::parse(response).is_err());

    let response = "1,0,1,-x";
    assert!(ProbeReading::parse(response).is_err());

    let response = ",,,5.000";
    assert!(ProbeReading::parse(response).is_err());

    let response = "10.5,6,7,6.5.5";
    assert!(ProbeReading::parse(response).is_err());

    let response = "10.5,6,7,6.5,";
    assert!(ProbeReading::parse(response).is_err());

    let response = "10.5,6,7,6.5,4";
    assert!(ProbeReading::parse(response).is_err());
}

#[test]
fn parses_temperature_compensation_value() {
    let response = "?T,14.56";
    assert_eq!(
        compensation(CompensationValue::parse(response).unwrap()),
        14.56
    );
}

#[test]
fn parsing_invalid_temperature_compensation_value_yields_error() {
    let response = "";
    assert!(CompensationValue::parse(response).is_err());

    let response = "?T,";
    assert!(CompensationValue::parse(response).is_err());

    let response = "?T,X.00";
    assert!(CompensationValue::parse(response).is_err());

    let response = "?T,1.2,43";
    assert!(CompensationValue::parse(response).is_err());
}

#[test]
fn reading_is_shaped_by_the_number_of_fields() {
    assert_eq!(reading(ProbeReading::parse("12.5").unwrap()), ("OneParameter", vec![12.5]));
    assert_eq!(
        reading(ProbeReading::parse("12.5,0.0").unwrap()),
        ("TwoParameters", vec![12.5, 0.0])
    );
    assert_eq!(
        reading(ProbeReading::parse("12.5,0.0,1423,1.004").unwrap()),
        ("FourParameters", vec![12.5, 0.0, 1423.0, 1.004])
    );
    assert_eq!(ProbeReading::parse("12.5,0.0,1423,1.004,9"), Err(ErrorKind::ResponseParse));
}

#[test]
fn reading_keeps_the_literals_as_received() {
    match ProbeReading::parse("14.000,434.050").unwrap() {
        ProbeReading::TwoParameters(a, b) => {
            assert_eq!(a.as_str(), "14.000");
            assert_eq!(b.as_str(), "434.050");
        }
        other => panic!("{:?}", other),
    }
    assert_eq!(ProbeReading::parse("14.000,434.050").unwrap().to_payload(), "14.000,434.050");
    assert_eq!(ProbeReading::NoParameters.to_payload(), "none");
    assert_eq!(ProbeReading::parse("none"), Err(ErrorKind::ResponseParse));
}

#[test]
fn reading_payload_reads_back() {
    for payload in ["0", "1,2", "1.5,-2,3e4", "12.500,0.000,1423,1.004", "inf,nan,-.5,+5."] {
        let first = ProbeReading::parse(payload).unwrap();
        assert_eq!(first.to_payload(), payload);
        assert_eq!(ProbeReading::parse(&first.to_payload()), Ok(first));
    }
}

#[test]
fn output_string_status_round_trips_for_all_sixteen_subsets() {
    let mut seen = Vec::new();
    for bits in 0..16u8 {
        let subset = status(bits & 1 != 0, bits & 2 != 0, bits & 4 != 0, bits & 8 != 0);
        let payload = subset.to_payload();
        assert_eq!(payload, format!("?O,{}", subset.to_string()));
        assert_eq!(OutputStringStatus::parse(&payload), Ok(subset));
        assert!(!seen.contains(&payload));
        seen.push(payload);
    }
    assert_eq!(seen.len(), 16);
}

#[test]
fn output_string_status_lists_names_in_canonical_order() {
    assert_eq!(status(false, false, false, false).to_string(), "No output");
    assert_eq!(status(true, false, false, false).to_string(), "EC");
    assert_eq!(status(false, true, false, true).to_string(), "TDS,SG");
    assert_eq!(status(true, true, true, true).to_string(), "EC,TDS,S,SG");
    assert_eq!(status(true, true, true, true).to_payload(), "?O,EC,TDS,S,SG");
    assert_eq!(OutputStringStatus::new(), status(false, false, false, false));
}

#[test]
fn output_string_status_out_of_order_is_refused() {
    for payload in [
        "?O,SG,S", "?O,S,TDS", "?O,TDS,EC", "?O,EC,EC", "?O,SG,SG", "?O,TDS,TDS,S",
        "?O,No output,EC", "?O,EC,No output", "?O,No output,", "?O,ec", "?O, EC", "O,EC",
        "?o,EC", "", "?O", "?O,No Output",
    ] {
        assert_eq!(OutputStringStatus::parse(payload), Err(ErrorKind::ResponseParse), "{}", payload);
    }
}

#[test]
fn calibration_status_scenarios() {
    assert_eq!(CalibrationStatus::parse("?CAL,0"), Ok(CalibrationStatus::NotCalibrated));
    assert_eq!(CalibrationStatus::parse("?CAL,1"), Ok(CalibrationStatus::OnePoint));
    assert_eq!(CalibrationStatus::parse("?CAL,2"), Ok(CalibrationStatus::TwoPoint));
    assert_eq!(CalibrationStatus::parse("?CAL,3"), Err(ErrorKind::ResponseParse));
    assert_eq!(CalibrationStatus::parse("?cal,1"), Err(ErrorKind::ResponseParse));
    assert_eq!(CalibrationStatus::parse("?CAL,1,2"), Err(ErrorKind::ResponseParse));
}

#[test]
fn calibration_status_texts() {
    for (value, payload, text) in [
        (CalibrationStatus::OnePoint, "?CAL,1", "one-point"),
        (CalibrationStatus::TwoPoint, "?CAL,2", "two-point"),
        (CalibrationStatus::NotCalibrated, "?CAL,0", "none"),
    ] {
        assert_eq!(value.to_payload(), payload);
        assert_eq!(value.to_string(), text);
        assert_eq!(CalibrationStatus::parse(&value.to_payload()), Ok(value));
    }
}

#[test]
fn probe_type_texts() {
    for (value, payload, text) in [
        (ProbeType::PointOne, "?K,0.1", "0.1"),
        (ProbeType::One, "?K,1.0", "1.0"),
        (ProbeType::Ten, "?K,10.0", "10.0"),
    ] {
        assert_eq!(value.to_payload(), payload);
        assert_eq!(value.to_string(), text);
        assert_eq!(ProbeType::parse(&value.to_payload()), Ok(value));
    }
    assert_eq!(ProbeType::parse("?K,1"), Err(ErrorKind::ResponseParse));
    assert_eq!(ProbeType::parse("?K,10.0,"), Err(ErrorKind::ResponseParse));
}

#[test]
fn compensation_value_payload_reads_back() {
    let value = CompensationValue::parse("?T,19.500").unwrap();
    assert_eq!(value.0.as_str(), "19.500");
    assert_eq!(value.to_payload(), "?T,19.500");
    assert_eq!(CompensationValue::parse(&value.to_payload()), Ok(value));
    assert_eq!(CompensationValue::parse("?t,19.5"), Err(ErrorKind::ResponseParse));
    assert_eq!(CompensationValue::parse("T,19.5"), Err(ErrorKind::ResponseParse));
    assert_eq!(CompensationValue::parse("?T, 19.5"), Err(ErrorKind::ResponseParse));
}

#[test]
fn probe_metric_names_what_a_number_measures() {
    let number = Number::parse("1.004").unwrap();
    let metric = ProbeMetric::SpecificGravity(number.clone());
    assert_eq!(metric, ProbeMetric::SpecificGravity(number.clone()));
    assert_ne!(metric, ProbeMetric::Salinity(number));
}

#[test]
fn decode_reads_the_payload_as_the_expected_kind() {
    assert_eq!(decode(ResponseKind::Ack, "anything"), Ok(Response::Ack));
    assert_eq!(decode(ResponseKind::Nothing, ""), Ok(Response::Nothing));
    assert_eq!(
        decode(ResponseKind::CalibrationStatus, "?CAL,2"),
        Ok(Response::CalibrationStatus(CalibrationStatus::TwoPoint))
    );
    assert_eq!(
        decode(ResponseKind::ProbeType, "?K,10.0"),
        Ok(Response::ProbeType(ProbeType::Ten))
    );
    assert_eq!(
        decode(ResponseKind::OutputStringStatus, "?O,EC,SG"),
        Ok(Response::OutputStringStatus(status(true, false, false, true)))
    );
    assert_eq!(
        decode(ResponseKind::CompensationValue, "?T,25.0"),
        Ok(Response::CompensationValue(CompensationValue::parse("?T,25.0").unwrap()))
    );
    assert_eq!(
        decode(ResponseKind::ProbeReading, "1,2"),
        Ok(Response::ProbeReading(ProbeReading::parse("1,2").unwrap()))
    );
    assert_eq!(decode(ResponseKind::ProbeType, "?CAL,2"), Err(ErrorKind::ResponseParse));
    assert_eq!(decode(ResponseKind::CalibrationStatus, "?K,1.0"), Err(ErrorKind::ResponseParse));
    assert_eq!(decode(ResponseKind::ProbeReading, "?T,1"), Err(ErrorKind::ResponseParse));
    assert_eq!(decode(ResponseKind::CompensationValue, "1"), Err(ErrorKind::ResponseParse));
    assert_eq!(decode(ResponseKind::OutputStringStatus, "?O,"), Err(ErrorKind::ResponseParse));
}

#[test]
fn device_status_scenarios() {
    let status = DeviceStatus::parse("?STATUS,P,1.5").unwrap();
    assert_eq!(status.restart_reason, RestartReason::PoweredOff);
    assert_eq!(value(&status.vcc_voltage), 1.5);
    assert_eq!(DeviceStatus::parse("?STATUS,X,1.5"), Err(ErrorKind::ResponseParse));
}

#[test]
fn device_status_for_each_restart_reason() {
    for (code, reason) in [
        ("P", RestartReason::PoweredOff),
        ("S", RestartReason::SoftwareReset),
        ("B", RestartReason::BrownOut),
        ("W", RestartReason::Watchdog),
        ("U", RestartReason::Unknown),
    ] {
        let payload = format!("?STATUS,{},5.038", code);
        let status = DeviceStatus::parse(&payload).unwrap();
        assert_eq!(status.restart_reason, reason);
        assert_eq!(status.vcc_voltage.as_str(), "5.038");
        assert_eq!(status.to_payload(), payload);
        assert_eq!(DeviceStatus::parse(&status.to_payload()), Ok(status));
    }
}

#[test]
fn device_status_of_the_wrong_shape_is_refused() {
    for payload in [
        "", "?STATUS,", "?STATUS,P", "?STATUS,P,", "?STATUS,,1.5", "?STATUS,P,1.5,", "?STATUS,P,x",
        "?STATUS,P,1.5,2", "?STATUS,p,1.5", "?STATUS,PP,1.5", "STATUS,P,1.5", "?status,P,1.5",
        "?STATUS,P 1.5", "?STATUS, P,1.5",
    ] {
        assert_eq!(DeviceStatus::parse(payload), Err(ErrorKind::ResponseParse), "{}", payload);
    }
}

#[test]
fn device_info_has_exactly_two_fields() {
    let info = DeviceInfo::parse("?I,EC,2.10").unwrap();
    assert_eq!(info.device, "EC");
    assert_eq!(info.firmware, "2.10");
    assert_eq!(info.to_payload(), "?I,EC,2.10");
    assert_eq!(DeviceInfo::parse(&info.to_payload()), Ok(info));
    for payload in ["", "?I", "?I,", "?I,EC", "?I,EC,", "?I,,2.10", "?I,,", "?I,EC,2.10,", "?I,a,b,c", "?i,EC,2.10", "I,EC,2.10"] {
        assert_eq!(DeviceInfo::parse(payload), Err(ErrorKind::ResponseParse), "{}", payload);
    }
}

#[test]
fn led_and_protocol_lock_are_read_from_one_digit() {
    assert_eq!(LedStatus::parse("?L,1"), Ok(LedStatus::On));
    assert_eq!(LedStatus::parse("?L,0"), Ok(LedStatus::Off));
    assert_eq!(ProtocolLockStatus::parse("?PLOCK,1"), Ok(ProtocolLockStatus::On));
    assert_eq!(ProtocolLockStatus::parse("?PLOCK,0"), Ok(ProtocolLockStatus::Off));
    for payload in ["", "?L,", "?L,2", "?L,1,", "?L,01", "?l,1", "L,1", "?L,b", "?PLOCK,1"] {
        assert_eq!(LedStatus::parse(payload), Err(ErrorKind::ResponseParse), "{}", payload);
    }
    for payload in ["", "?PLOCK,", "?PLOCK,2", "?PLOCK,1,", "?plock,1", "PLOCK,1", "?L,1"] {
        assert_eq!(ProtocolLockStatus::parse(payload), Err(ErrorKind::ResponseParse), "{}", payload);
    }
    for status in [LedStatus::On, LedStatus::Off] {
        assert_eq!(LedStatus::parse(&status.to_payload()), Ok(status));
    }
    for status in [ProtocolLockStatus::On, ProtocolLockStatus::Off] {
        assert_eq!(ProtocolLockStatus::parse(&status.to_payload()), Ok(status));
    }
    assert_eq!(LedStatus::On.to_payload(), "?L,1");
    assert_eq!(ProtocolLockStatus::Off.to_payload(), "?PLOCK,0");
}

#[test]
fn exported_is_the_mark_or_a_piece_of_one_to_twelve_characters() {
    assert_eq!(Exported::parse("*DONE"), Ok(Exported::Done));
    assert_eq!(Exported::parse("1"), Ok(Exported::ExportString("1".to_string())));
    assert_eq!(
        Exported::parse("59 6F 75 20 6"),
        Err(ErrorKind::ResponseParse)
    );
    assert_eq!(
        Exported::parse("59 6F 75 20 "),
        Ok(Exported::ExportString("59 6F 75 20 ".to_string()))
    );
    assert_eq!(Exported::parse("123456789012"), Ok(Exported::ExportString("123456789012".to_string())));
    assert_eq!(Exported::parse("1234567890123"), Err(ErrorKind::ResponseParse));
    assert_eq!(Exported::parse(""), Err(ErrorKind::ResponseParse));
    assert_eq!(Exported::parse("*"), Err(ErrorKind::ResponseParse));
    assert_eq!(Exported::parse("*DON"), Err(ErrorKind::ResponseParse));
    assert_eq!(Exported::parse("*DONE "), Err(ErrorKind::ResponseParse));
    assert_eq!(Exported::parse("*done"), Err(ErrorKind::ResponseParse));
    assert_eq!(Exported::parse("*OK"), Err(ErrorKind::ResponseParse));
    assert_eq!(Exported::parse("D*ONE"), Ok(Exported::ExportString("D*ONE".to_string())));
    assert_eq!(Exported::Done.to_payload(), "*DONE");
    assert_eq!(Exported::ExportString("AB".to_string()).to_payload(), "AB");
}

#[test]
fn exported_info_is_a_pair_of_counts() {
    assert_eq!(
        ExportedInfo::parse("?EXPORT,10,120"),
        Ok(ExportedInfo { lines: 10, total_bytes: 120 })
    );
    assert_eq!(
        ExportedInfo::parse("?EXPORT,0,65535"),
        Ok(ExportedInfo { lines: 0, total_bytes: 65535 })
    );
    assert_eq!(
        ExportedInfo::parse("?EXPORT,+1,007"),
        Ok(ExportedInfo { lines: 1, total_bytes: 7 })
    );
    for payload in [
        "", "?EXPORT,", "?EXPORT,10", "?EXPORT,10,", "?EXPORT,,120", "?EXPORT,10,120,",
        "?EXPORT,10,120,1", "?EXPORT,65536,1", "?EXPORT,1,65536", "?EXPORT,-1,1", "?EXPORT,1.0,1",
        "?EXPORT,a,1", "?export,1,1", "EXPORT,1,1", "?EXPORT, 1,1",
    ] {
        assert_eq!(ExportedInfo::parse(payload), Err(ErrorKind::ResponseParse), "{}", payload);
    }
    for info in [
        ExportedInfo { lines: 0, total_bytes: 0 },
        ExportedInfo { lines: 10, total_bytes: 120 },
        ExportedInfo { lines: 65535, total_bytes: 9 },
    ] {
        assert_eq!(info.to_payload(), format!("?EXPORT,{},{}", info.lines, info.total_bytes));
        assert_eq!(ExportedInfo::parse(&info.to_payload()), Ok(info));
    }
}

#[test]
fn decode_reads_the_answers_of_every_device() {
    assert_eq!(decode(ResponseKind::LedStatus, "?L,1"), Ok(Response::LedStatus(LedStatus::On)));
    assert_eq!(
        decode(ResponseKind::ProtocolLockStatus, "?PLOCK,0"),
        Ok(Response::ProtocolLockStatus(ProtocolLockStatus::Off))
    );
    assert_eq!(decode(ResponseKind::Exported, "*DONE"), Ok(Response::Exported(Exported::Done)));
    assert_eq!(
        decode(ResponseKind::ExportedInfo, "?EXPORT,1,2"),
        Ok(Response::ExportedInfo(ExportedInfo { lines: 1, total_bytes: 2 }))
    );
    assert_eq!(
        decode(ResponseKind::DeviceInfo, "?I,EC,1.0"),
        Ok(Response::DeviceInfo(DeviceInfo { device: "EC".to_string(), firmware: "1.0".to_string() }))
    );
    assert_eq!(
        decode(ResponseKind::DeviceStatus, "?STATUS,W,3.3"),
        Ok(Response::DeviceStatus(DeviceStatus::parse("?STATUS,W,3.3").unwrap()))
    );
    assert_eq!(decode(ResponseKind::LedStatus, "?PLOCK,1"), Err(ErrorKind::ResponseParse));
    assert_eq!(decode(ResponseKind::DeviceInfo, "?STATUS,W,3.3"), Err(ErrorKind::ResponseParse));
    assert_eq!(decode(ResponseKind::DeviceStatus, "?I,EC,1.0"), Err(ErrorKind::ResponseParse));
    assert_eq!(decode(ResponseKind::ExportedInfo, "*DONE"), Err(ErrorKind::ResponseParse));
    assert_eq!(decode(ResponseKind::Exported, ""), Err(ErrorKind::ResponseParse));
}
