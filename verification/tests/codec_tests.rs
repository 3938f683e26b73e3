use asciicast::Error;
use asciicast::Event;
use asciicast::EventCode;
use asciicast::Header;
use asciicast::Writer;
use asciicast::decode_time;
use asciicast::encode_time;
use asciicast::format_time;
use asciicast::get_duration;
use asciicast::open;
use asciicast::parse_event;

#[test]
fn decode_time_fractional() {
    assert_eq!(decode_time("1.23"), Ok(1_230_000));
    assert_eq!(decode_time("0.100989"), Ok(100_989));
    assert_eq!(decode_time("0.000001"), Ok(1));
    assert_eq!(decode_time("10.5"), Ok(10_500_000));
    assert_eq!(decode_time("3."), Ok(3_000_000));
}

#[test]
fn decode_time_truncates_not_rounds() {
    assert_eq!(decode_time("0.1234567"), Ok(123_456));
    assert_eq!(decode_time("0.9999999"), Ok(999_999));
}

#[test]
fn decode_time_requires_a_dot() {
    assert_eq!(decode_time("5"), Err(Error::InvalidTimeFormat));
    assert_eq!(decode_time(""), Err(Error::InvalidTimeFormat));
    assert_eq!(decode_time("1.2.3"), Err(Error::InvalidTimeFormat));
}

#[test]
fn decode_time_rejects_malformed_parts() {
    assert_eq!(decode_time(".5"), Err(Error::Decode));
    assert_eq!(decode_time("-1.5"), Err(Error::Decode));
    assert_eq!(decode_time("a.5"), Err(Error::Decode));
    assert_eq!(decode_time("1.x"), Err(Error::Decode));
    assert_eq!(decode_time("99999999999999999999.0"), Err(Error::Decode));
}

#[test]
fn encode_time_trims_trailing_zeros() {
    assert_eq!(encode_time(1_230_000), "1.23");
    assert_eq!(encode_time(100_989), "0.100989");
    assert_eq!(encode_time(1), "0.000001");
    assert_eq!(encode_time(2_000_000), "2.");
    assert_eq!(encode_time(0), "0.");
}

#[test]
fn format_time_keeps_six_digits() {
    assert_eq!(format_time(1_230_000), "1.230000");
    assert_eq!(format_time(0), "0.000000");
    assert_eq!(format_time(1), "0.000001");
}

#[test]
fn time_codec_round_trip_examples() {
    for t in [0u64, 1, 999_999, 1_000_000, 1_000_001, 2_000_000, 1_234_567_890] {
        assert_eq!(decode_time(&encode_time(t)), Ok(t));
    }
}

#[test]
fn parse_event_lines() {
    assert!(parse_event("").is_none());
    let ev = parse_event("[0.5, \"x\", \"zzz\"]").unwrap().unwrap();
    assert_eq!(ev.time, 500_000);
    assert_eq!(ev.code, EventCode::Other('x'));
    assert_eq!(ev.data, "zzz");

    let err = parse_event("[0.5, \"\", \"zzz\"]").unwrap().unwrap_err();
    assert_eq!(err, Error::MissingEventCode);

    let err = parse_event("not json").unwrap().unwrap_err();
    assert_eq!(err, Error::Decode);

    let err = parse_event("[0.5, \"o\"]").unwrap().unwrap_err();
    assert_eq!(err, Error::Decode);

    let err = parse_event("[5, \"o\", \"x\"]").unwrap().unwrap_err();
    assert_eq!(err, Error::InvalidTimeFormat);
}

#[test]
fn open_failures() {
    assert_eq!(open(vec![]).unwrap_err(), Error::EmptyInput);
    assert_eq!(open(vec!["not json at all".to_owned()]).unwrap_err(), Error::Decode);
    assert_eq!(
        open(vec!["{\"version\": 3, \"width\": 80, \"height\": 24}".to_owned()]).unwrap_err(),
        Error::UnsupportedVersion
    );
    let v1_wrong = vec![
        "{".to_owned(),
        "\"version\": 5, \"width\": 80, \"height\": 24, \"stdout\": []".to_owned(),
        "}".to_owned(),
    ];
    assert_eq!(open(v1_wrong).unwrap_err(), Error::UnsupportedVersion);
}

#[test]
fn header_field_omission() {
    let fw = Writer::new(0);
    let bare = Header {
        version: 2,
        cols: 80,
        rows: 24,
        timestamp: None,
        idle_time_limit: None,
        command: None,
        title: None,
        env: None,
    };
    let line = fw.write_header(&bare);
    let v: serde_json::Value = serde_json::from_str(&line).unwrap();
    let obj = v.as_object().unwrap();
    assert!(obj.contains_key("version"));
    assert!(obj.contains_key("width"));
    assert!(obj.contains_key("height"));
    assert!(obj.contains_key("timestamp"));
    assert!(v["timestamp"].is_null());
    assert!(!obj.contains_key("idle_time_limit"));
    assert!(!obj.contains_key("command"));
    assert!(!obj.contains_key("title"));
    assert!(!obj.contains_key("env"));

    let empty_env = Header { env: Some(vec![]), ..bare };
    let line = fw.write_header(&empty_env);
    let v: serde_json::Value = serde_json::from_str(&line).unwrap();
    assert!(!v.as_object().unwrap().contains_key("env"));

    let with_title = Header { title: Some("T".to_owned()), ..empty_env };
    let line = fw.write_header(&with_title);
    let v: serde_json::Value = serde_json::from_str(&line).unwrap();
    assert_eq!(v["title"], "T");
    assert!(!v.as_object().unwrap().contains_key("command"));
    assert!(!v.as_object().unwrap().contains_key("idle_time_limit"));
}

#[test]
fn v2_round_trip_keeps_content() {
    let lines = vec![
        "{\"version\": 2, \"width\": 75, \"height\": 18, \"timestamp\": 1511000000}".to_owned(),
        "[0.100989, \"o\", \"\\u001b[?2004h\"]".to_owned(),
        "".to_owned(),
        "[1.5, \"i\", \"v\"]".to_owned(),
        "[2.000001, \"m\", \"\"]".to_owned(),
    ];
    let reader = open(lines).unwrap();
    let events: Vec<Event> = reader.events.into_iter().collect::<Result<Vec<_>, _>>().unwrap();

    let fw = Writer::new(0);
    let mut out: Vec<String> = Vec::new();
    out.push(fw.write_header(&reader.header));
    for e in &events {
        out.push(fw.write_event(e));
    }

    let reader2 = open(out).unwrap();
    let events2: Vec<Event> = reader2.events.into_iter().collect::<Result<Vec<_>, _>>().unwrap();

    assert_eq!(reader2.header.version, 2);
    assert_eq!(reader2.header.cols, reader.header.cols);
    assert_eq!(reader2.header.rows, reader.header.rows);
    assert_eq!(reader2.header.timestamp, reader.header.timestamp);
    assert_eq!(events2.len(), events.len());
    for (a, b) in events.iter().zip(events2.iter()) {
        assert_eq!(a.time, b.time);
        assert_eq!(a.code, b.code);
        assert_eq!(a.data, b.data);
    }
}

#[test]
fn event_data_is_json_escaped() {
    let fw = Writer::new(0);
    let line = fw.write_event(&Event::output(500_000, "a\"b\\c\u{1b}".as_bytes()));
    let v: serde_json::Value = serde_json::from_str(&line).unwrap();
    assert_eq!(v[1], "o");
    assert_eq!(v[2], "a\"b\\c\u{1b}");
}

#[test]
fn output_replaces_invalid_bytes() {
    let e = Event::output(0, &[0x68, 0xff, 0x69]);
    assert_eq!(e.data, "h\u{fffd}i");
    let empty = Event::output(0, &[]);
    assert_eq!(empty.data, "");
}

#[test]
fn marker_and_resize_forms() {
    let m = Event::marker(7);
    assert_eq!(m.code, EventCode::Marker);
    assert_eq!(m.data, "");
    let r = Event::resize(8, (100, 40));
    assert_eq!(r.data, "100x40");
}

#[test]
fn duration_of_events() {
    assert_eq!(get_duration(&vec![]), 0);
    let evs = vec![Event::output(3, "a".as_bytes()), Event::output(9, "b".as_bytes())];
    assert_eq!(get_duration(&evs), 9);
}

#[test]
fn v2_header_optional_fields_decode() {
    let mut line = String::new();
    line.push_str("{\"version\": 2, \"width\": 80, \"height\": 24, \"timestamp\": null, ");
    line.push_str("\"idle_time_limit\": 1.5, \"command\": \"/bin/sh\", ");
    line.push_str("\"env\": {\"TERM\": \"xterm\"}}");
    let lines = vec![line];
    let reader = open(lines).unwrap();
    assert_eq!(reader.header.version, 2);
    assert_eq!(reader.header.timestamp, None);
    assert_eq!(reader.header.idle_time_limit, Some(1_500_000));
    assert_eq!(reader.header.command.as_deref(), Some("/bin/sh"));
    assert_eq!(reader.header.title, None);
    let env = reader.header.env.unwrap();
    assert_eq!(env.len(), 1);
    assert_eq!(env[0].0, "TERM");
    assert_eq!(env[0].1, "xterm");
}

#[test]
fn writer_offset_saturation_guard() {
    let fw = Writer::new(1);
    let line = fw.write_event(&Event::output(41, "x".as_bytes()));
    assert!(line.starts_with("[0.000042, "));
}

#[test]
fn v1_decode_never_populates_v2_fields() {
    let lines = vec![
        "{".to_owned(),
        "\"version\": 1, \"width\": 10, \"height\": 5,".to_owned(),
        "\"stdout\": [{\"time\": 0.5, \"data\": \"x\"}]".to_owned(),
        "}".to_owned(),
    ];
    let reader = open(lines).unwrap();
    assert_eq!(reader.header.version, 1);
    assert_eq!(reader.header.timestamp, None);
    assert_eq!(reader.header.idle_time_limit, None);
    for e in &reader.events {
        assert_eq!(e.as_ref().unwrap().code, EventCode::Output);
    }
}

#[test]
fn v2_integer_idle_time_limit_decodes() {
    let lines =
        vec!["{\"version\": 2, \"width\": 80, \"height\": 24, \"idle_time_limit\": 2}".to_owned()];
    let reader = open(lines).unwrap();
    assert_eq!(reader.header.idle_time_limit, Some(2_000_000));
}

#[test]
fn bad_line_is_local_and_blank_lines_vanish() {
    let lines = vec![
        "{\"version\": 2, \"width\": 80, \"height\": 24}".to_owned(),
        "[0.5, \"o\", \"a\"]".to_owned(),
        "not json".to_owned(),
        "".to_owned(),
        "[1.5, \"o\", \"b\"]".to_owned(),
    ];
    let reader = open(lines).unwrap();
    assert_eq!(reader.events.len(), 3);
    assert_eq!(reader.events[0].as_ref().unwrap().time, 500_000);
    assert_eq!(reader.events[1].as_ref().unwrap_err(), &Error::Decode);
    assert_eq!(reader.events[2].as_ref().unwrap().time, 1_500_000);
}
