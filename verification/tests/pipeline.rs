use vatfeed::codec::decode_status;
use vatfeed::codec::encode_status;
use vatfeed::data::Datafeed;
use vatfeed::data::General;
use vatfeed::data::Pilot;
use vatfeed::data::Status;
use vatfeed::data::StatusData;
use vatfeed::downloader::DatafeedError;
use vatfeed::downloader::Downloader;
use vatfeed::downloader::Event;
use vatfeed::downloader::Phase;
use vatfeed::downloader::Step;
use vatfeed::downloader::TransportError;
use vatfeed::downloader::PersistError;
use vatfeed::downloader::StatusStorage;
use vatfeed::downloader::status_url;

fn strings(v: &[&str]) -> Vec<String> {
    v.iter().map(|s| s.to_string()).collect()
}

fn status_with_urls(urls: &[&str]) -> Status {
    Status {
        data: StatusData { v3: strings(urls), transceivers: Vec::new() },
        user: Vec::new(),
        metar: Vec::new(),
    }
}

fn minimal_feed() -> Datafeed {
    Datafeed {
        general: General {
            version: 3,
            reload: 1,
            update: "20240101000000".to_string(),
            update_timestamp: "2024-01-01T00:00:00Z".to_string(),
            connected_clients: 1,
            unique_users: 1,
        },
        pilots: vec![Pilot {
            cid: 1000001,
            name: "A Pilot".to_string(),
            callsign: "ABC123".to_string(),
            server: "SERVER1".to_string(),
            pilot_rating: 0,
            latitude: 51.5f64.to_bits(),
            longitude: (-0.12f64).to_bits(),
            altitude: 36000,
            groundspeed: 450,
            transponder: "2000".to_string(),
            heading: 270,
            qnh_i_hg: 29.92f32.to_bits(),
            qnh_mb: 1013,
            flight_plan: None,
            logon_time: "2024-01-01T00:00:00Z".to_string(),
            last_updated: "2024-01-01T00:00:00Z".to_string(),
        }],
        controllers: Vec::new(),
        atis: Vec::new(),
        servers: Vec::new(),
        prefiles: Vec::new(),
    }
}

#[test]
fn status_url_is_fixed() {
    assert_eq!(status_url(), "https://status.vatsim.net/status.json");
}

#[test]
fn new_uses_memory_and_default_timeout() {
    let d = Downloader::new();
    assert_eq!(d.timeout_secs, 15);
    assert!(matches!(d.status, StatusStorage::Memory(None)));
}

#[test]
fn encode_minimal_status_is_exact() {
    let st = status_with_urls(&["https://a.example/x"]);
    assert_eq!(
        encode_status(&st),
        "{\"data\":{\"v3\":[\"https://a.example/x\"],\"transceivers\":[]},\"user\":[],\"metar\":[]}"
    );
}

#[test]
fn encode_escapes_specials() {
    let st = Status {
        data: StatusData { v3: strings(&["a\"b\\c\nd"]), transceivers: Vec::new() },
        user: Vec::new(),
        metar: Vec::new(),
    };
    assert_eq!(
        encode_status(&st),
        "{\"data\":{\"v3\":[\"a\\\"b\\\\c\\u000ad\"],\"transceivers\":[]},\"user\":[],\"metar\":[]}"
    );
}

#[test]
fn decode_inverts_encode() {
    let st = Status {
        data: StatusData {
            v3: strings(&["https://a.example/x", "https://b.example/y"]),
            transceivers: strings(&["https://t.example/z"]),
        },
        user: strings(&["control \u{1} char", "quote\"and\\slash"]),
        metar: strings(&["https://m.example/metar"]),
    };
    let text = encode_status(&st);
    let back = decode_status(&text).expect("canonical text must decode");
    assert_eq!(back.data.v3, st.data.v3);
    assert_eq!(back.data.transceivers, st.data.transceivers);
    assert_eq!(back.user, st.user);
    assert_eq!(back.metar, st.metar);
}

#[test]
fn decode_accepts_exact_canonical_text() {
    let text = "{\"data\":{\"v3\":[\"https://a.example/x\"],\"transceivers\":[]},\"user\":[],\"metar\":[]}";
    let st = decode_status(text).expect("canonical text must decode");
    assert_eq!(st.data.v3, strings(&["https://a.example/x"]));
    assert!(st.data.transceivers.is_empty());
    assert!(st.user.is_empty());
    assert!(st.metar.is_empty());
}

#[test]
fn decode_rejects_malformed_text() {
    assert!(decode_status("").is_none());
    assert!(decode_status("{").is_none());
    assert!(decode_status("not json at all").is_none());
    assert!(decode_status("{\"data\":{\"v3\":[],\"transceivers\":[]},\"user\":[]}").is_none());
}

#[test]
fn decode_rejects_noncanonical_whitespace() {
    let spaced =
        "{ \"data\": {\"v3\": [\"https://a.example/x\"], \"transceivers\": []}, \"user\": [], \"metar\": [] }";
    assert!(decode_status(spaced).is_none());
}

#[test]
fn encoded_status_is_valid_json_for_serde() {
    let st = Status {
        data: StatusData {
            v3: strings(&["https://a.example/x"]),
            transceivers: Vec::new(),
        },
        user: strings(&["weird \"quoted\" \\ and \n newline"]),
        metar: Vec::new(),
    };
    let text = encode_status(&st);
    let value: serde_json::Value = serde_json::from_str(&text).expect("valid JSON");
    assert_eq!(
        value["data"]["v3"][0].as_str().unwrap(),
        "https://a.example/x"
    );
    assert_eq!(
        value["user"][0].as_str().unwrap(),
        "weird \"quoted\" \\ and \n newline"
    );
}

#[test]
fn fetch_selects_first_url_and_returns_feed() {
    // Bootstrap lists one URL; the feed there has one pilot without a
    // flight plan.
    let mut d = Downloader::new();
    let (phase, step) = d.begin();
    assert!(matches!(step, Step::FetchStatus));
    let st = status_with_urls(&["https://a.example/x"]);
    let (phase, step) = d.step(phase, Event::StatusFetched(Ok(st)));
    match &step {
        Step::FetchFeed(url) => assert_eq!(url, "https://a.example/x"),
        other => panic!("expected FetchFeed, got {:?}", other),
    }
    let (_, step) = d.step(phase, Event::FeedFetched(Ok(minimal_feed())));
    match step {
        Step::Finish(feed) => {
            assert_eq!(feed.pilots.len(), 1);
            assert!(feed.pilots[0].flight_plan.is_none());
        },
        other => panic!("expected Finish, got {:?}", other),
    }
}

#[test]
fn first_url_wins_regardless_of_later_entries() {
    let mut d = Downloader::new();
    let (phase, _) = d.begin();
    let st = status_with_urls(&["https://first.example/a", "https://second.example/b", "https://third.example/c"]);
    let (_, step) = d.step(phase, Event::StatusFetched(Ok(st)));
    match step {
        Step::FetchFeed(url) => assert_eq!(url, "https://first.example/a"),
        other => panic!("expected FetchFeed, got {:?}", other),
    }
}

#[test]
fn memory_strategy_fetches_status_only_once() {
    let mut d = Downloader::new();
    let mut status_fetches = 0;
    let (phase, step) = d.begin();
    if matches!(step, Step::FetchStatus) {
        status_fetches += 1;
    }
    let st = status_with_urls(&["https://a.example/x"]);
    let (phase, _) = d.step(phase, Event::StatusFetched(Ok(st)));
    let _ = d.step(phase, Event::FeedFetched(Ok(minimal_feed())));
    // Second download on the same instance: straight to the feed.
    let (_, step) = d.begin();
    if matches!(step, Step::FetchStatus) {
        status_fetches += 1;
    }
    match step {
        Step::FetchFeed(url) => assert_eq!(url, "https://a.example/x"),
        other => panic!("expected FetchFeed, got {:?}", other),
    }
    assert_eq!(status_fetches, 1);
}

#[test]
fn empty_v3_fails_with_no_url_error_and_no_feed_step() {
    let mut d = Downloader::new();
    let (phase, _) = d.begin();
    let st = status_with_urls(&[]);
    let (phase, step) = d.step(phase, Event::StatusFetched(Ok(st)));
    assert!(matches!(phase, Phase::Terminal));
    assert!(matches!(step, Step::Fail(DatafeedError::NoUrlError)));
}

#[test]
fn status_transport_failure_propagates_unwrapped() {
    let mut d = Downloader::new();
    let (phase, _) = d.begin();
    let err = TransportError { message: "connection timed out".to_string() };
    let (phase, step) = d.step(phase, Event::StatusFetched(Err(err)));
    assert!(matches!(phase, Phase::Terminal));
    match step {
        Step::Fail(DatafeedError::StatusHttpError(e)) => {
            assert_eq!(e.message, "connection timed out");
        },
        other => panic!("expected StatusHttpError, got {:?}", other),
    }
}

#[test]
fn feed_failure_reports_feed_error_and_keeps_cache() {
    let mut d = Downloader::new();
    let (phase, _) = d.begin();
    let st = status_with_urls(&["https://a.example/x"]);
    let (phase, _) = d.step(phase, Event::StatusFetched(Ok(st)));
    let err = TransportError { message: "feed unreachable".to_string() };
    let (phase, step) = d.step(phase, Event::FeedFetched(Err(err)));
    assert!(matches!(phase, Phase::Terminal));
    assert!(matches!(step, Step::Fail(DatafeedError::DatafeedHttpError(_))));
    // The cached status is unaffected: the next download needs no fetch.
    let (_, step) = d.begin();
    match step {
        Step::FetchFeed(url) => assert_eq!(url, "https://a.example/x"),
        other => panic!("expected FetchFeed, got {:?}", other),
    }
}

#[test]
fn file_strategy_uses_valid_cache_file_without_network() {
    let mut d = Downloader::with_status_file("status.json".to_string());
    let (phase, step) = d.begin();
    match &step {
        Step::ReadStatusFile(path) => assert_eq!(path, "status.json"),
        other => panic!("expected ReadStatusFile, got {:?}", other),
    }
    let cached = encode_status(&status_with_urls(&["https://a.example/x"]));
    let (_, step) = d.step(phase, Event::FileRead(Some(cached)));
    match step {
        Step::FetchFeed(url) => assert_eq!(url, "https://a.example/x"),
        other => panic!("expected FetchFeed, got {:?}", other),
    }
}

#[test]
fn file_strategy_missing_file_fetches_and_writes_round_trip() {
    let mut d = Downloader::with_status_file("status.json".to_string());
    let (phase, _) = d.begin();
    let (phase, step) = d.step(phase, Event::FileRead(None));
    assert!(matches!(step, Step::FetchStatus));
    let st = status_with_urls(&["https://a.example/x"]);
    let (phase, step) = d.step(phase, Event::StatusFetched(Ok(st)));
    let content = match step {
        Step::WriteStatusFile(path, content) => {
            assert_eq!(path, "status.json");
            content
        },
        other => panic!("expected WriteStatusFile, got {:?}", other),
    };
    // Round trip: what is written reads back as an equal document.
    let back = decode_status(&content).expect("written cache must decode");
    assert_eq!(back.data.v3, vec!["https://a.example/x".to_string()]);
    let (_, step) = d.step(phase, Event::FileWritten(Ok(())));
    match step {
        Step::FetchFeed(url) => assert_eq!(url, "https://a.example/x"),
        other => panic!("expected FetchFeed, got {:?}", other),
    }
}

#[test]
fn file_strategy_corrupt_file_falls_back_to_network() {
    let mut d = Downloader::with_status_file("status.json".to_string());
    let (phase, _) = d.begin();
    let (_, step) = d.step(phase, Event::FileRead(Some("{corrupt".to_string())));
    assert!(matches!(step, Step::FetchStatus));
}

#[test]
fn file_write_failure_is_a_distinct_error() {
    let mut d = Downloader::with_status_file("status.json".to_string());
    let (phase, _) = d.begin();
    let (phase, _) = d.step(phase, Event::FileRead(None));
    let st = status_with_urls(&["https://a.example/x"]);
    let (phase, _) = d.step(phase, Event::StatusFetched(Ok(st)));
    let err = PersistError { message: "permission denied".to_string() };
    let (phase, step) = d.step(phase, Event::FileWritten(Err(err)));
    assert!(matches!(phase, Phase::Terminal));
    match step {
        Step::Fail(DatafeedError::StatusWriteError(e)) => {
            assert_eq!(e.message, "permission denied");
        },
        other => panic!("expected StatusWriteError, got {:?}", other),
    }
}
