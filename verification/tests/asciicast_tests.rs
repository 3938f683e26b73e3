use asciicast::Error;
use asciicast::Event;
use asciicast::EventCode;
use asciicast::Header;
use asciicast::Writer;
use asciicast::open;

fn parse(lines: Vec<String>) -> Vec<serde_json::Value> {
    lines
        .iter()
        .filter(|s| !s.is_empty())
        .map(|s| serde_json::from_str::<serde_json::Value>(s).unwrap())
        .collect::<Vec<_>>()
}

fn collect_events(events: Vec<Result<Event, Error>>) -> Vec<Event> {
    events.into_iter().collect::<Result<Vec<_>, _>>().unwrap()
}

#[test]
fn open_v1_minimal() {
    let lines = vec![
        "{".to_owned(),
        "\"version\": 1, \"width\": 100, \"height\": 50,".to_owned(),
        "\"stdout\": [{\"time\": 1.23, \"data\": \"hello\"}]".to_owned(),
        "}".to_owned(),
    ];
    let reader = open(lines).unwrap();
    let events = collect_events(reader.events);

    assert_eq!(reader.header.version, 1);
    assert_eq!((reader.header.cols, reader.header.rows), (100, 50));

    assert_eq!(events[0].time, 1230000);
    assert_eq!(events[0].code, EventCode::Output);
    assert_eq!(events[0].data, "hello");
}

#[test]
fn open_v1_full() {
    let lines = vec![
        "{".to_owned(),
        "\"version\": 1, \"width\": 100, \"height\": 50,".to_owned(),
        "\"command\": \"/bin/bash\", \"title\": \"Demo\",".to_owned(),
        "\"env\": {\"TERM\": \"xterm\"},".to_owned(),
        "\"stdout\": [".to_owned(),
        "{\"time\": 0.000001, \"data\": \"\u{17c}\"},".to_owned(),
        "{\"time\": 0.1, \"data\": \"\u{f3}\u{142}\u{107}\"},".to_owned(),
        "{\"time\": 10.5, \"data\": \"\\r\\n\"}".to_owned(),
        "]".to_owned(),
        "}".to_owned(),
    ];
    let reader = open(lines).unwrap();
    let events = collect_events(reader.events);

    assert_eq!(reader.header.version, 1);
    assert_eq!((reader.header.cols, reader.header.rows), (100, 50));

    assert_eq!(events[0].time, 1);
    assert_eq!(events[0].code, EventCode::Output);
    assert_eq!(events[0].data, "\u{17c}");

    assert_eq!(events[1].time, 100000);
    assert_eq!(events[1].code, EventCode::Output);
    assert_eq!(events[1].data, "\u{f3}\u{142}\u{107}");

    assert_eq!(events[2].time, 10500000);
    assert_eq!(events[2].code, EventCode::Output);
    assert_eq!(events[2].data, "\r\n");
}

#[test]
fn open_v2() {
    let lines = vec![
        "{\"version\": 2, \"width\": 75, \"height\": 18}".to_owned(),
        "[0.010303, \"o\", \"ready\"]".to_owned(),
        "[0.100989, \"o\", \"\\u001b[?2004h\"]".to_owned(),
        "[0.2, \"o\", \"a\"]".to_owned(),
        "[0.3, \"o\", \"b\"]".to_owned(),
        "[1.1, \"o\", \"c\"]".to_owned(),
        "[1.511526, \"i\", \"v\"]".to_owned(),
        "[1.511937, \"o\", \"v\"]".to_owned(),
    ];
    let reader = open(lines).unwrap();
    let events = collect_events(reader.events);

    assert_eq!((reader.header.cols, reader.header.rows), (75, 18));

    assert_eq!(events[1].time, 100989);
    assert_eq!(events[1].code, EventCode::Output);
    assert_eq!(events[1].data, "\u{1b}[?2004h");

    assert_eq!(events[5].time, 1511526);
    assert_eq!(events[5].code, EventCode::Input);
    assert_eq!(events[5].data, "v");

    assert_eq!(events[6].time, 1511937);
    assert_eq!(events[6].code, EventCode::Output);
    assert_eq!(events[6].data, "v");
}

#[test]
fn writer() {
    let mut data: Vec<String> = Vec::new();

    {
        let fw = Writer::new(0);

        let header = Header {
            version: 2,
            cols: 80,
            rows: 24,
            timestamp: None,
            idle_time_limit: None,
            command: None,
            title: None,
            env: Default::default(),
        };

        data.push(fw.write_header(&header));
        data.push(fw.write_event(&Event::output(1000001, "hello\r\n".as_bytes())));
    }

    {
        let fw = Writer::new(1000001);

        data.push(fw.write_event(&Event::output(1000001, "world".as_bytes())));
        data.push(fw.write_event(&Event::input(2000002, " ".as_bytes())));
        data.push(fw.write_event(&Event::resize(3000003, (100, 40))));
        data.push(fw.write_event(&Event::output(
            4000004,
            "\u{17c}\u{f3}\u{142}\u{107}".as_bytes(),
        )));
    }

    let lines = parse(data);

    assert_eq!(lines[0]["version"], 2);
    assert_eq!(lines[0]["width"], 80);
    assert_eq!(lines[0]["height"], 24);
    assert!(lines[0]["timestamp"].is_null());
    assert_eq!(lines[1][0], 1.000001);
    assert_eq!(lines[1][1], "o");
    assert_eq!(lines[1][2], "hello\r\n");
    assert_eq!(lines[2][0], 2.000002);
    assert_eq!(lines[2][1], "o");
    assert_eq!(lines[2][2], "world");
    assert_eq!(lines[3][0], 3.000003);
    assert_eq!(lines[3][1], "i");
    assert_eq!(lines[3][2], " ");
    assert_eq!(lines[4][0], 4.000004);
    assert_eq!(lines[4][1], "r");
    assert_eq!(lines[4][2], "100x40");
    assert_eq!(lines[5][0], 5.000005);
    assert_eq!(lines[5][1], "o");
    assert_eq!(lines[5][2], "\u{17c}\u{f3}\u{142}\u{107}");
}

#[test]
fn write_header() {
    let fw = Writer::new(0);
    let env = vec![
        ("SHELL".to_owned(), "/usr/bin/fish".to_owned()),
        ("TERM".to_owned(), "xterm256-color".to_owned()),
    ];

    let header = Header {
        version: 2,
        cols: 80,
        rows: 24,
        timestamp: Some(1704719152),
        idle_time_limit: Some(1_500_000),
        command: Some("/bin/bash".to_owned()),
        title: Some("Demo".to_owned()),
        env: Some(env),
    };

    let lines = parse(vec![fw.write_header(&header)]);

    assert_eq!(lines[0]["version"], 2);
    assert_eq!(lines[0]["width"], 80);
    assert_eq!(lines[0]["height"], 24);
    assert_eq!(lines[0]["timestamp"], 1704719152);
    assert_eq!(lines[0]["idle_time_limit"], 1.5);
    assert_eq!(lines[0]["command"], "/bin/bash");
    assert_eq!(lines[0]["title"], "Demo");
    assert_eq!(lines[0]["env"].as_object().unwrap().len(), 2);
    assert_eq!(lines[0]["env"]["SHELL"], "/usr/bin/fish");
    assert_eq!(lines[0]["env"]["TERM"], "xterm256-color");
}

#[test]
fn accelerate() {
    let stdout = vec![
        Event::output(0, "foo".as_bytes()),
        Event::output(20, "bar".as_bytes()),
        Event::output(50, "baz".as_bytes()),
    ];

    let stdout = asciicast::accelerate(&stdout, 2_000_000);

    assert_eq!(stdout[0].time, 0);
    assert_eq!(stdout[0].data, "foo");
    assert_eq!(stdout[1].time, 10);
    assert_eq!(stdout[1].data, "bar");
    assert_eq!(stdout[2].time, 25);
    assert_eq!(stdout[2].data, "baz");
}

#[test]
fn limit_idle_time() {
    let stdout = vec![
        Event::output(0, "foo".as_bytes()),
        Event::output(1_000_000, "bar".as_bytes()),
        Event::output(3_500_000, "baz".as_bytes()),
        Event::output(4_000_000, "qux".as_bytes()),
        Event::output(7_500_000, "quux".as_bytes()),
    ];

    let stdout = asciicast::limit_idle_time(&stdout, 2_000_000);

    assert_eq!(stdout[0].time, 0);
    assert_eq!(stdout[0].data, "foo");
    assert_eq!(stdout[1].time, 1_000_000);
    assert_eq!(stdout[1].data, "bar");
    assert_eq!(stdout[2].time, 3_000_000);
    assert_eq!(stdout[2].data, "baz");
    assert_eq!(stdout[3].time, 3_500_000);
    assert_eq!(stdout[3].data, "qux");
    assert_eq!(stdout[4].time, 5_500_000);
    assert_eq!(stdout[4].data, "quux");
}
