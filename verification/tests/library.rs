use api_traffic_report::aggregate::{Report, ReportAccumulator};
use api_traffic_report::blank_scan::BlankScan;
use api_traffic_report::ids::{ClientId, Endpoint, StatusCode};
use api_traffic_report::order::{compare_bytes, compare_text, Comparison};
use api_traffic_report::record::{
    bucket_of_seconds, check_members, is_blank, is_whitespace, JsonField, RequestRecord,
};
use api_traffic_report::report::{build_report, MAX_INPUT_LINE_BYTES};

fn record_line(request_id: &str, timestamp: &str, client: &str, endpoint: &str, status: u32) -> String {
    format!(
        "{{\"request_id\":\"{request_id}\",\"timestamp\":\"{timestamp}\",\"client_id\":\"{client}\",\"endpoint\":\"{endpoint}\",\"status_code\":{status}}}"
    )
}

fn field(key: &str, text: Option<&str>, unsigned: Option<u64>) -> JsonField {
    JsonField { key: key.to_string(), text: text.map(|t| t.to_string()), unsigned }
}

fn cube(report: &Report) -> Vec<(String, String, u16, u64)> {
    report
        .request_counts_by_client_endpoint_status
        .iter()
        .map(|row| {
            (
                row.client_id.as_str().to_string(),
                row.endpoint.as_str().to_string(),
                row.status_code.code(),
                row.request_count,
            )
        })
        .collect()
}

fn rates(report: &Report) -> Vec<(String, u64, u64)> {
    report
        .rate_limit_counts_by_client
        .iter()
        .map(|row| {
            (
                row.client_id.as_str().to_string(),
                row.client_bucket_rate_limit_violation_count,
                row.rate_limit_excess_request_count,
            )
        })
        .collect()
}

#[test]
fn whitespace_follows_the_unicode_white_space_property() {
    for c in ['\t', '\n', '\u{b}', '\u{c}', '\r', ' ', '\u{85}', '\u{a0}', '\u{1680}', '\u{2000}', '\u{200a}', '\u{2028}', '\u{2029}', '\u{202f}', '\u{205f}', '\u{3000}'] {
        assert!(is_whitespace(c), "{:?}", c);
        assert_eq!(is_whitespace(c), c.is_whitespace());
    }
    for c in ['a', '\u{0}', '\u{8}', '\u{e}', '\u{200b}', '\u{feff}', '\u{180e}', '\u{2060}'] {
        assert!(!is_whitespace(c), "{:?}", c);
        assert_eq!(is_whitespace(c), c.is_whitespace());
    }
}

#[test]
fn whitespace_agrees_with_char_is_whitespace_on_every_char() {
    for code in 0..=0x10ffffu32 {
        if let Some(c) = char::from_u32(code) {
            assert_eq!(is_whitespace(c), c.is_whitespace(), "U+{code:04X}");
        }
    }
}

#[test]
fn blank_agrees_with_trimmed_utf8_text() {
    let samples: [&[u8]; 12] = [
        b"",
        b" ",
        b"\t\r\x0b\x0c",
        b"x",
        b" x",
        "\u{2028}\u{205f}".as_bytes(),
        "\u{180e}".as_bytes(),
        &[0xe3, 0x80, 0x80],
        &[0xe3, 0x80],
        &[0xc2, 0x85, 0x20],
        &[0xed, 0xa0, 0x80],
        &[0xc0, 0xa0],
    ];
    for bytes in samples {
        let expected = std::str::from_utf8(bytes).is_ok_and(|text| text.trim().is_empty());
        assert_eq!(is_blank(bytes), expected, "{bytes:?}");
    }
}

#[test]
fn blank_lines_are_utf8_white_space_only() {
    assert!(is_blank(b""));
    assert!(is_blank(b" \t\r"));
    assert!(is_blank("\u{3000}\u{a0} ".as_bytes()));
    assert!(!is_blank(b" x "));
    assert!(!is_blank("\u{200b}".as_bytes()));
    assert!(!is_blank(&[0x20, 0xff]));
    assert!(!is_blank(&[0xc2]));
}

#[test]
fn compares_text_by_bytes() {
    assert!(matches!(compare_text("alpha", "bravo"), Comparison::Less));
    assert!(matches!(compare_text("bravo", "alpha"), Comparison::Greater));
    assert!(matches!(compare_text("acct", "acct_1"), Comparison::Less));
    assert!(matches!(compare_text("", ""), Comparison::Equal));
    assert!(matches!(compare_text("Z", "a"), Comparison::Less));
    assert!(matches!(compare_text("\u{e9}", "z"), Comparison::Greater));
    assert!(matches!(compare_bytes(&[1, 2], &[1, 3]), Comparison::Less));
}

#[test]
fn buckets_are_floored_ten_second_windows() {
    assert_eq!(bucket_of_seconds(0), 0);
    assert_eq!(bucket_of_seconds(9), 0);
    assert_eq!(bucket_of_seconds(10), 1);
    assert_eq!(bucket_of_seconds(-1), -1);
    assert_eq!(bucket_of_seconds(-10), -1);
    assert_eq!(bucket_of_seconds(-11), -2);
    assert_eq!(bucket_of_seconds(1705312809), 170531280);
}

#[test]
fn parses_a_valid_record_into_its_utc_bucket() {
    let line = record_line("r1", "2024-01-15T11:00:09+01:00", "acct_1", "/v1/widgets", 204);
    let record = RequestRecord::parse(line.as_bytes()).expect("valid record");
    assert_eq!(record.client_id.as_str(), "acct_1");
    assert_eq!(record.endpoint.as_str(), "/v1/widgets");
    assert_eq!(record.status_code.code(), 204);
    assert_eq!(record.bucket, 170531280);

    let line = record_line("r2", "1969-12-31T23:59:59Z", "acct_1", "/v1/widgets", 200);
    assert_eq!(RequestRecord::parse(line.as_bytes()).expect("valid record").bucket, -1);
}

#[test]
fn rejects_malformed_records() {
    let malformed = [
        "[]".to_string(),
        "not json".to_string(),
        String::new(),
        record_line("r", "2024-01-15T10:00:00Z", "", "/v1/widgets", 200),
        record_line("r", "2024-01-15T10:00:00Z", "acct_1", "", 200),
        record_line("", "2024-01-15T10:00:00Z", "acct_1", "/v1/widgets", 200),
        record_line("r", "", "acct_1", "/v1/widgets", 200),
        record_line("r", "2024-01-15 10:00:00", "acct_1", "/v1/widgets", 200),
        record_line("r", "2024-01-15T10:00:00Z", "acct_1", "/v1/widgets", 99),
        record_line("r", "2024-01-15T10:00:00Z", "acct_1", "/v1/widgets", 600),
        r#"{"request_id":"r","timestamp":"2024-01-15T10:00:00Z","client_id":"acct_1","endpoint":"/v1/widgets","status_code":200.0}"#.to_string(),
        r#"{"request_id":"r","timestamp":"2024-01-15T10:00:00Z","client_id":"acct_1","endpoint":"/v1/widgets","status_code":"200"}"#.to_string(),
        r#"{"request_id":"r","timestamp":"2024-01-15T10:00:00Z","client_id":"acct_1","endpoint":"/v1/widgets","status_code":-200}"#.to_string(),
        r#"{"request_id":7,"timestamp":"2024-01-15T10:00:00Z","client_id":"acct_1","endpoint":"/v1/widgets","status_code":200}"#.to_string(),
        r#"{"request_id":"r","timestamp":"2024-01-15T10:00:00Z","client_id":"acct_1","endpoint":"/v1/widgets","status_code":200} x"#.to_string(),
    ];
    for line in &malformed {
        assert!(RequestRecord::parse(line.as_bytes()).is_none(), "{line}");
    }
    assert!(RequestRecord::parse(&[0xff, 0xfe]).is_none());
}

#[test]
fn accepts_extra_members_and_surrounding_json_white_space() {
    let line = r#" {"extra":[1,2],"status_code":500,"endpoint":"/e","client_id":"c","timestamp":"2024-01-15T10:00:00Z","request_id":"r"} "#;
    let record = RequestRecord::parse(line.as_bytes()).expect("valid record");
    assert_eq!(record.client_id.as_str(), "c");
    assert_eq!(record.status_code.code(), 500);
    assert_eq!(record.bucket, 170531280);
}

#[test]
fn a_repeated_member_keeps_its_last_value() {
    let line = r#"{"request_id":"r","timestamp":"2024-01-15T10:00:00Z","client_id":"first","client_id":"last","endpoint":"/e","status_code":200}"#;
    let record = RequestRecord::parse(line.as_bytes()).expect("valid record");
    assert_eq!(record.client_id.as_str(), "last");
}

#[test]
fn checks_members_by_name_and_type() {
    let members = vec![
        field("request_id", Some("r"), None),
        field("timestamp", Some("2024-01-15T10:00:00Z"), None),
        field("client_id", Some("acct_9"), None),
        field("endpoint", Some("/v1/x"), None),
        field("status_code", None, Some(302)),
        field("ignored", None, None),
    ];
    let checked = check_members(&members).expect("members pass");
    assert_eq!(checked.client_id, "acct_9");
    assert_eq!(checked.endpoint, "/v1/x");
    assert_eq!(checked.timestamp, "2024-01-15T10:00:00Z");
    assert_eq!(checked.status_code, 302);

    let mut missing = members;
    missing.remove(3);
    assert!(check_members(&missing).is_none());

    let wrong_type = vec![
        field("request_id", Some("r"), None),
        field("timestamp", Some("t"), None),
        field("client_id", None, Some(1)),
        field("endpoint", Some("/v1/x"), None),
        field("status_code", None, Some(200)),
    ];
    assert!(check_members(&wrong_type).is_none());
}

#[test]
fn builds_records_from_checked_fields() {
    let members = vec![
        field("request_id", Some("r"), None),
        field("timestamp", Some("ignored here"), None),
        field("client_id", Some("acct_9"), None),
        field("endpoint", Some("/v1/x"), None),
        field("status_code", None, Some(599)),
    ];
    let checked = check_members(&members).expect("members pass");
    let record = RequestRecord::from_checked(checked, 25);
    assert_eq!(record.client_id.as_str(), "acct_9");
    assert_eq!(record.status_code.code(), 599);
    assert_eq!(record.bucket, 2);
}

#[test]
fn line_counters_add_up() {
    let mut input = String::new();
    input.push_str(&record_line("r1", "2024-01-15T10:00:00Z", "a", "/e", 200));
    input.push_str("\n\n   \n{}\n");
    input.push_str(&record_line("r2", "2024-01-15T10:00:01Z", "a", "/e", 200));
    let report = build_report(input.as_bytes());
    assert_eq!(report.total_line_count, 5);
    assert_eq!(report.processed_line_count + report.ignored_blank_line_count, report.total_line_count);
    assert_eq!(report.valid_request_count + report.malformed_input_count, report.processed_line_count);
    assert_eq!(report.valid_request_count, 2);
    assert_eq!(report.ignored_blank_line_count, 2);
    let cube_total: u64 = report.request_counts_by_client_endpoint_status.iter().map(|r| r.request_count).sum();
    assert_eq!(cube_total, report.valid_request_count);
}

#[test]
fn one_final_terminator_adds_no_line_and_a_second_one_does() {
    let line = record_line("r1", "2024-01-15T10:00:00Z", "a", "/e", 200);
    assert_eq!(build_report(line.as_bytes()).total_line_count, 1);
    assert_eq!(build_report(format!("{line}\n").as_bytes()).total_line_count, 1);
    let two = build_report(format!("{line}\n\n").as_bytes());
    assert_eq!(two.total_line_count, 2);
    assert_eq!(two.ignored_blank_line_count, 1);
    assert_eq!(build_report(b"").total_line_count, 0);
    let only_terminator = build_report(b"\n");
    assert_eq!(only_terminator.total_line_count, 1);
    assert_eq!(only_terminator.ignored_blank_line_count, 1);
}

#[test]
fn oversized_white_space_is_blank_and_oversized_text_is_malformed() {
    let input = " ".repeat(MAX_INPUT_LINE_BYTES + 1);
    let report = build_report(input.as_bytes());
    assert_eq!(report.total_line_count, 1);
    assert_eq!(report.ignored_blank_line_count, 1);
    assert_eq!(report.processed_line_count, 0);

    let mut text = " ".repeat(MAX_INPUT_LINE_BYTES);
    text.push('x');
    let report = build_report(text.as_bytes());
    assert_eq!(report.total_line_count, 1);
    assert_eq!(report.malformed_input_count, 1);
    assert_eq!(report.ignored_blank_line_count, 0);

    let at_limit = " ".repeat(MAX_INPUT_LINE_BYTES);
    assert_eq!(build_report(at_limit.as_bytes()).ignored_blank_line_count, 1);
}

fn scan_in_pieces(bytes: &[u8], piece: usize) -> bool {
    let mut scan = BlankScan::new();
    for chunk in bytes.chunks(piece.max(1)) {
        scan.feed(chunk);
    }
    assert_eq!(scan.byte_count(), bytes.len());
    scan.is_blank()
}

#[test]
fn a_blank_scan_agrees_with_is_blank_however_the_line_is_cut() {
    let mut samples: Vec<Vec<u8>> = vec![
        Vec::new(),
        b"   ".to_vec(),
        "\u{3000}\u{3000}\u{a0} \u{2028}\t".as_bytes().to_vec(),
        "\u{3000}x\u{3000}".as_bytes().to_vec(),
        "\u{200b}".as_bytes().to_vec(),
        vec![0x80, 0x20],
        vec![0x20, 0x80],
        vec![0xe3, 0x80],
        vec![0xe3, 0x80, 0x80, 0x80],
        vec![0xf0, 0x80, 0x80, 0x80, 0x80, 0x80],
        vec![0xc2, 0xa0, 0xc2],
        vec![0xed, 0xa0, 0x80],
        vec![0xff],
    ];
    samples.push("\u{3000}".repeat(40).into_bytes());
    let mut mixed = "\u{85} ".repeat(30).into_bytes();
    mixed.push(b'.');
    samples.push(mixed);
    for bytes in &samples {
        let expected = is_blank(bytes);
        for piece in 1..=7 {
            assert_eq!(scan_in_pieces(bytes, piece), expected, "{bytes:?} in pieces of {piece}");
        }
    }
}

#[test]
fn long_lines_are_counted_from_their_scan() {
    let mut acc = ReportAccumulator::new();
    let mut blank = BlankScan::new();
    blank.feed(" ".repeat(MAX_INPUT_LINE_BYTES).as_bytes());
    blank.feed("\u{3000}".as_bytes());
    acc.add_long_line(&blank);
    let mut text = BlankScan::new();
    text.feed(" ".repeat(MAX_INPUT_LINE_BYTES).as_bytes());
    text.feed(b"x");
    acc.add_long_line(&text);
    assert_eq!(acc.total_line_count(), 2);
    assert_eq!(acc.ignored_blank_line_count(), 1);
    assert_eq!(acc.malformed_input_count(), 1);
}

#[test]
fn the_order_of_input_lines_does_not_change_the_report() {
    let mut lines = vec![
        String::new(),
        "   ".to_string(),
        "{}".to_string(),
        "not json".to_string(),
    ];
    for (i, client) in ["b", "a", "b", "a", "a", "a", "a", "a"].iter().enumerate() {
        lines.push(record_line(&format!("r{i}"), "2024-01-15T10:00:03Z", client, "/e", 200 + i as u32 % 3));
    }
    let terminated = |lines: &[String]| -> String { lines.iter().map(|l| format!("{l}\n")).collect() };
    let forward = build_report(terminated(&lines).as_bytes());
    let mut rotated = lines.clone();
    rotated.rotate_left(5);
    let mut reversed = lines.clone();
    reversed.reverse();
    for other in [rotated, reversed] {
        let report = build_report(terminated(&other).as_bytes());
        assert_eq!(report.total_line_count, forward.total_line_count);
        assert_eq!(report.processed_line_count, forward.processed_line_count);
        assert_eq!(report.valid_request_count, forward.valid_request_count);
        assert_eq!(report.malformed_input_count, forward.malformed_input_count);
        assert_eq!(report.ignored_blank_line_count, forward.ignored_blank_line_count);
        assert_eq!(cube(&report), cube(&forward));
        assert_eq!(rates(&report), rates(&forward));
    }
    assert_eq!(forward.ignored_blank_line_count, 2);
    assert_eq!(forward.malformed_input_count, 2);
}

#[test]
fn text_order_is_the_order_of_strings() {
    let words = ["", "a", "A", "ab", "a b", "b", "\u{e9}", "\u{3000}", "\u{1f600}", "z", "acct_1", "acct_10", "acct_2"];
    for a in words {
        for b in words {
            let expected = a.cmp(b);
            let got = compare_text(a, b);
            match expected {
                std::cmp::Ordering::Less => assert!(matches!(got, Comparison::Less), "{a:?} {b:?}"),
                std::cmp::Ordering::Equal => assert!(matches!(got, Comparison::Equal), "{a:?} {b:?}"),
                std::cmp::Ordering::Greater => assert!(matches!(got, Comparison::Greater), "{a:?} {b:?}"),
            }
        }
    }
}

#[test]
fn invalid_utf8_lines_are_malformed() {
    let report = build_report(&[0xff, b'\n', b' ', 0xc0, b'\n']);
    assert_eq!(report.total_line_count, 2);
    assert_eq!(report.malformed_input_count, 2);
}

#[test]
fn carriage_returns_before_terminators_are_json_white_space() {
    let line = record_line("r1", "2024-01-15T10:00:00Z", "a", "/e", 200);
    let report = build_report(format!("{line}\r\n\r\n").as_bytes());
    assert_eq!(report.valid_request_count, 1);
    assert_eq!(report.ignored_blank_line_count, 1);
}

#[test]
fn the_rate_limit_covers_every_endpoint_of_a_client() {
    let mut input = String::new();
    for i in 0..4 {
        input.push_str(&record_line(&format!("x{i}"), "2024-01-15T10:00:01Z", "acct", "/v1/a", 200));
        input.push('\n');
        input.push_str(&record_line(&format!("y{i}"), "2024-01-15T10:00:02Z", "acct", "/v1/b", 404));
        input.push('\n');
    }
    input.push_str(&record_line("other", "2024-01-15T10:00:02Z", "bcct", "/v1/a", 200));
    let report = build_report(input.as_bytes());
    assert_eq!(report.client_bucket_rate_limit_violation_count, 1);
    assert_eq!(report.rate_limit_excess_request_count, 3);
    assert_eq!(rates(&report), vec![("acct".to_string(), 1, 3)]);
    assert_eq!(
        cube(&report),
        vec![
            ("acct".to_string(), "/v1/a".to_string(), 200, 4),
            ("acct".to_string(), "/v1/b".to_string(), 404, 4),
            ("bcct".to_string(), "/v1/a".to_string(), 200, 1),
        ]
    );
}

#[test]
fn a_bucket_at_the_limit_is_no_violation_and_buckets_split_at_ten_seconds() {
    let mut input = String::new();
    for second in ["09", "09", "09", "09", "09", "10", "10", "10", "10", "10", "10"] {
        input.push_str(&record_line("r", &format!("2024-01-15T10:00:{second}Z"), "acct", "/e", 200));
        input.push('\n');
    }
    let report = build_report(input.as_bytes());
    assert_eq!(report.client_bucket_rate_limit_violation_count, 1);
    assert_eq!(report.rate_limit_excess_request_count, 1);
    let violating: Vec<&str> = report.rate_limit_violating_clients.iter().map(|c| c.as_str()).collect();
    assert_eq!(violating, vec!["acct"]);
}

#[test]
fn the_order_of_lines_does_not_change_the_report() {
    let mut lines = Vec::new();
    for (i, client) in ["c", "a", "b", "a", "c", "a", "a", "a", "a", "a"].iter().enumerate() {
        lines.push(record_line(&format!("r{i}"), "2024-01-15T10:00:03Z", client, "/e", 200 + i as u32 % 2));
    }
    let forward = build_report(lines.join("\n").as_bytes());
    lines.reverse();
    let backward = build_report(lines.join("\n").as_bytes());
    assert_eq!(cube(&forward), cube(&backward));
    assert_eq!(rates(&forward), rates(&backward));
    assert_eq!(rates(&forward), vec![("a".to_string(), 1, 2)]);
}

#[test]
fn accumulates_line_by_line() {
    let mut acc = ReportAccumulator::new();
    acc.add_line(record_line("r", "2024-01-15T10:00:00Z", "a", "/e", 200).as_bytes());
    acc.add_line(b"  ");
    acc.add_line(b"{");
    acc.received_line();
    acc.received_blank_line();
    assert_eq!(acc.total_line_count(), 4);
    assert_eq!(acc.processed_line_count(), 2);
    assert_eq!(acc.valid_request_count(), 1);
    assert_eq!(acc.malformed_input_count(), 1);
    assert_eq!(acc.ignored_blank_line_count(), 2);
    acc.received_malformed_input();
    let record = RequestRecord {
        client_id: ClientId::new("a".to_string()),
        endpoint: Endpoint::new("/e".to_string()),
        status_code: StatusCode::new(200),
        bucket: 170531280,
    };
    acc.add_request(record);
    let report = acc.finish();
    assert_eq!(report.processed_line_count, 4);
    assert_eq!(report.malformed_input_count, 2);
    assert_eq!(report.valid_request_count, 2);
    assert_eq!(cube(&report), vec![("a".to_string(), "/e".to_string(), 200, 2)]);
}

#[test]
fn ids_keep_their_text() {
    let id = ClientId::new("acct_1".to_string());
    assert_eq!(id.clone().as_str(), "acct_1");
    let endpoint = Endpoint::new("/v1".to_string());
    assert_eq!(endpoint.clone().as_str(), "/v1");
    assert_eq!(StatusCode::new(418).code(), 418);
}
