use api_traffic_report::aggregate::Report;
use api_traffic_report::report::build_report;

const MAX_INPUT_LINE_BYTES: usize = 1024 * 1024;

struct Expected<'a> {
    total_line_count: u64,
    processed_line_count: u64,
    valid_request_count: u64,
    malformed_input_count: u64,
    ignored_blank_line_count: u64,
    client_bucket_rate_limit_violation_count: u64,
    rate_limit_excess_request_count: u64,
    rate_limit_violating_clients: Vec<&'a str>,
    request_counts_by_client_endpoint_status: Vec<(&'a str, &'a str, u16, u64)>,
    rate_limit_counts_by_client: Vec<(&'a str, u64, u64)>,
}

fn lines(records: &[&str]) -> String {
    let mut input = String::new();
    for record in records {
        input.push_str(record);
        input.push('\n');
    }
    input
}

fn assert_report(report: Report, expected: Expected) {
    assert_eq!(report.total_line_count, expected.total_line_count);
    assert_eq!(report.processed_line_count, expected.processed_line_count);
    assert_eq!(report.valid_request_count, expected.valid_request_count);
    assert_eq!(report.malformed_input_count, expected.malformed_input_count);
    assert_eq!(report.ignored_blank_line_count, expected.ignored_blank_line_count);
    assert_eq!(
        report.client_bucket_rate_limit_violation_count,
        expected.client_bucket_rate_limit_violation_count
    );
    assert_eq!(report.rate_limit_excess_request_count, expected.rate_limit_excess_request_count);
    let clients: Vec<&str> = report.rate_limit_violating_clients.iter().map(|c| c.as_str()).collect();
    assert_eq!(clients, expected.rate_limit_violating_clients);
    let cube: Vec<(&str, &str, u16, u64)> = report
        .request_counts_by_client_endpoint_status
        .iter()
        .map(|row| (row.client_id.as_str(), row.endpoint.as_str(), row.status_code.code(), row.request_count))
        .collect();
    assert_eq!(cube, expected.request_counts_by_client_endpoint_status);
    let rates: Vec<(&str, u64, u64)> = report
        .rate_limit_counts_by_client
        .iter()
        .map(|row| {
            (
                row.client_id.as_str(),
                row.client_bucket_rate_limit_violation_count,
                row.rate_limit_excess_request_count,
            )
        })
        .collect();
    assert_eq!(rates, expected.rate_limit_counts_by_client);
}

#[test]
fn reports_valid_traffic_and_a_client_wide_rate_limit_violation() {
    let input = lines(&[
        r#"{"request_id":"a1_1","timestamp":"2024-01-15T10:00:00Z","client_id":"acct_1","endpoint":"/v1/widgets","status_code":200}"#,
        r#"{"request_id":"a1_2","timestamp":"2024-01-15T10:00:02Z","client_id":"acct_1","endpoint":"/v1/widgets","status_code":200}"#,
        r#"{"request_id":"a1_3","timestamp":"2024-01-15T10:00:04Z","client_id":"acct_1","endpoint":"/v1/widgets","status_code":200}"#,
        r#"{"request_id":"a1_4","timestamp":"2024-01-15T10:00:05Z","client_id":"acct_1","endpoint":"/v1/widgets","status_code":200}"#,
        r#"{"request_id":"a1_5","timestamp":"2024-01-15T10:00:06Z","client_id":"acct_1","endpoint":"/v1/widgets","status_code":200}"#,
        r#"{"request_id":"a1_6","timestamp":"2024-01-15T10:00:08Z","client_id":"acct_1","endpoint":"/v1/widgets","status_code":200}"#,
    ]);
    assert_report(
        build_report(input.as_bytes()),
        Expected {
            total_line_count: 6,
            processed_line_count: 6,
            valid_request_count: 6,
            malformed_input_count: 0,
            ignored_blank_line_count: 0,
            client_bucket_rate_limit_violation_count: 1,
            rate_limit_excess_request_count: 1,
            rate_limit_violating_clients: vec!["acct_1"],
            request_counts_by_client_endpoint_status: vec![("acct_1", "/v1/widgets", 200, 6)],
            rate_limit_counts_by_client: vec![("acct_1", 1, 1)],
        },
    );
}

#[test]
fn aligns_offset_timestamps_to_utc_buckets_and_orders_report_arrays() {
    let input = lines(&[
        r#"{"request_id":"b1","timestamp":"2024-01-15T11:00:08+01:00","client_id":"bravo","endpoint":"/v1/zulu","status_code":200}"#,
        r#"{"request_id":"b2","timestamp":"2024-01-15T10:00:07Z","client_id":"bravo","endpoint":"/v1/alpha","status_code":204}"#,
        r#"{"request_id":"b3","timestamp":"2024-01-15T11:00:06+01:00","client_id":"bravo","endpoint":"/v1/zulu","status_code":200}"#,
        r#"{"request_id":"b4","timestamp":"2024-01-15T10:00:05Z","client_id":"bravo","endpoint":"/v1/alpha","status_code":204}"#,
        r#"{"request_id":"b5","timestamp":"2024-01-15T11:00:04+01:00","client_id":"bravo","endpoint":"/v1/zulu","status_code":200}"#,
        r#"{"request_id":"b6","timestamp":"2024-01-15T10:00:03Z","client_id":"bravo","endpoint":"/v1/alpha","status_code":204}"#,
        r#"{"request_id":"a1","timestamp":"2024-01-15T10:00:09Z","client_id":"alpha","endpoint":"/v1/beta","status_code":200}"#,
        r#"{"request_id":"a2","timestamp":"2024-01-15T11:00:08+01:00","client_id":"alpha","endpoint":"/v1/alpha","status_code":500}"#,
        r#"{"request_id":"a3","timestamp":"2024-01-15T10:00:07Z","client_id":"alpha","endpoint":"/v1/beta","status_code":200}"#,
        r#"{"request_id":"a4","timestamp":"2024-01-15T11:00:06+01:00","client_id":"alpha","endpoint":"/v1/alpha","status_code":500}"#,
        r#"{"request_id":"a5","timestamp":"2024-01-15T10:00:05Z","client_id":"alpha","endpoint":"/v1/beta","status_code":200}"#,
        r#"{"request_id":"a6","timestamp":"2024-01-15T11:00:04+01:00","client_id":"alpha","endpoint":"/v1/alpha","status_code":500}"#,
        r#"{"request_id":"a7","timestamp":"2024-01-15T10:00:10Z","client_id":"alpha","endpoint":"/v1/alpha","status_code":500}"#,
    ]);
    assert_report(
        build_report(input.as_bytes()),
        Expected {
            total_line_count: 13,
            processed_line_count: 13,
            valid_request_count: 13,
            malformed_input_count: 0,
            ignored_blank_line_count: 0,
            client_bucket_rate_limit_violation_count: 2,
            rate_limit_excess_request_count: 2,
            rate_limit_violating_clients: vec!["alpha", "bravo"],
            request_counts_by_client_endpoint_status: vec![
                ("alpha", "/v1/alpha", 500, 4),
                ("alpha", "/v1/beta", 200, 3),
                ("bravo", "/v1/alpha", 204, 3),
                ("bravo", "/v1/zulu", 200, 3),
            ],
            rate_limit_counts_by_client: vec![("alpha", 1, 1), ("bravo", 1, 1)],
        },
    );
}

#[test]
fn counts_blank_and_malformed_lines_without_losing_valid_records() {
    let mut input = String::new();
    input.push_str(r#"{"request_id":"valid_1","timestamp":"2024-01-15T10:00:00Z","client_id":"acct_1","endpoint":"/v1/widgets","status_code":200}"#);
    input.push('\n');
    input.push_str(" \t\r\n");
    input.push_str("[]\n");
    input.push_str(r#"{"request_id":"missing_endpoint","timestamp":"2024-01-15T10:00:01Z","client_id":"acct_1","status_code":200}"#);
    input.push('\n');
    input.push_str(r#"{"request_id":"wrong_type","timestamp":"2024-01-15T10:00:02Z","client_id":1,"endpoint":"/v1/widgets","status_code":200}"#);
    input.push('\n');
    input.push_str(r#"{"request_id":"empty_endpoint","timestamp":"2024-01-15T10:00:03Z","client_id":"acct_1","endpoint":"","status_code":200}"#);
    input.push('\n');
    input.push_str(r#"{"request_id":"bad_timestamp","timestamp":"not-a-timestamp","client_id":"acct_1","endpoint":"/v1/widgets","status_code":200}"#);
    input.push('\n');
    input.push_str(r#"{"request_id":"bad_status","timestamp":"2024-01-15T10:00:04Z","client_id":"acct_1","endpoint":"/v1/widgets","status_code":99}"#);
    input.push('\n');
    input.push_str(r#"{"request_id":"valid_2","timestamp":"2024-01-15T10:00:05Z","client_id":"acct_1","endpoint":"/v1/widgets","status_code":200,"upstream_provider":"example"}"#);
    input.push('\n');
    input.push('\n');
    assert_report(
        build_report(input.as_bytes()),
        Expected {
            total_line_count: 10,
            processed_line_count: 8,
            valid_request_count: 2,
            malformed_input_count: 6,
            ignored_blank_line_count: 2,
            client_bucket_rate_limit_violation_count: 0,
            rate_limit_excess_request_count: 0,
            rate_limit_violating_clients: vec![],
            request_counts_by_client_endpoint_status: vec![("acct_1", "/v1/widgets", 200, 2)],
            rate_limit_counts_by_client: vec![],
        },
    );
}

#[test]
fn discards_oversized_lines_and_resumes_at_the_next_record() {
    let prefix = r#"{"request_id":"at_limit","timestamp":"2024-01-15T10:00:00Z","client_id":"acct_1","endpoint":"/v1/widgets","status_code":200,"padding":""#;
    let suffix = r#""}"#;
    let at_limit = format!(
        "{prefix}{}{suffix}",
        "x".repeat(MAX_INPUT_LINE_BYTES - prefix.len() - suffix.len()),
    );
    assert_eq!(at_limit.len(), MAX_INPUT_LINE_BYTES);

    let oversized = format!("{at_limit} ");
    let following = r#"{"request_id":"following","timestamp":"2024-01-15T10:00:01Z","client_id":"acct_1","endpoint":"/v1/widgets","status_code":200}"#;
    let input = format!("{at_limit}\n{oversized}\n{following}\n");

    assert_report(
        build_report(input.as_bytes()),
        Expected {
            total_line_count: 3,
            processed_line_count: 3,
            valid_request_count: 2,
            malformed_input_count: 1,
            ignored_blank_line_count: 0,
            client_bucket_rate_limit_violation_count: 0,
            rate_limit_excess_request_count: 0,
            rate_limit_violating_clients: vec![],
            request_counts_by_client_endpoint_status: vec![("acct_1", "/v1/widgets", 200, 2)],
            rate_limit_counts_by_client: vec![],
        },
    );
}

#[test]
fn reports_an_entirely_malformed_file_with_no_traffic_summaries() {
    let input = lines(&[
        r#"{"request_id":"","timestamp":"2024-01-15T10:00:00Z","client_id":"acct_1","endpoint":"/v1/widgets","status_code":200}"#,
    ]);
    assert_report(
        build_report(input.as_bytes()),
        Expected {
            total_line_count: 1,
            processed_line_count: 1,
            valid_request_count: 0,
            malformed_input_count: 1,
            ignored_blank_line_count: 0,
            client_bucket_rate_limit_violation_count: 0,
            rate_limit_excess_request_count: 0,
            rate_limit_violating_clients: vec![],
            request_counts_by_client_endpoint_status: vec![],
            rate_limit_counts_by_client: vec![],
        },
    );
}

#[test]
fn accepts_status_code_599_and_rejects_status_code_600() {
    let input = lines(&[
        r#"{"request_id":"valid_599","timestamp":"2024-01-15T10:00:00Z","client_id":"acct_1","endpoint":"/v1/widgets","status_code":599}"#,
        r#"{"request_id":"invalid_600","timestamp":"2024-01-15T10:00:01Z","client_id":"acct_1","endpoint":"/v1/widgets","status_code":600}"#,
    ]);
    assert_report(
        build_report(input.as_bytes()),
        Expected {
            total_line_count: 2,
            processed_line_count: 2,
            valid_request_count: 1,
            malformed_input_count: 1,
            ignored_blank_line_count: 0,
            client_bucket_rate_limit_violation_count: 0,
            rate_limit_excess_request_count: 0,
            rate_limit_violating_clients: vec![],
            request_counts_by_client_endpoint_status: vec![("acct_1", "/v1/widgets", 599, 1)],
            rate_limit_counts_by_client: vec![],
        },
    );
}

#[test]
fn aggregates_a_deterministic_larger_input() {
    let mut input = String::new();
    for (client_id, endpoint, status_code, requests_per_bucket) in [
        ("charlie", "/v1/charlie", 202, 8),
        ("bravo", "/v1/bravo", 201, 5),
        ("alpha", "/v1/alpha", 200, 6),
    ] {
        for bucket in (0..12).rev() {
            let seconds_since_hour = bucket * 10;
            let minute = seconds_since_hour / 60;
            let second = seconds_since_hour % 60;
            for request in 0..requests_per_bucket {
                input.push_str(&format!(
                    "{{\"request_id\":\"{client_id}_{bucket}_{request}\",\"timestamp\":\"2024-01-15T10:{minute:02}:{second:02}Z\",\"client_id\":\"{client_id}\",\"endpoint\":\"{endpoint}\",\"status_code\":{status_code}}}\n",
                ));
            }
        }
    }
    assert_report(
        build_report(input.as_bytes()),
        Expected {
            total_line_count: 228,
            processed_line_count: 228,
            valid_request_count: 228,
            malformed_input_count: 0,
            ignored_blank_line_count: 0,
            client_bucket_rate_limit_violation_count: 24,
            rate_limit_excess_request_count: 48,
            rate_limit_violating_clients: vec!["alpha", "charlie"],
            request_counts_by_client_endpoint_status: vec![
                ("alpha", "/v1/alpha", 200, 72),
                ("bravo", "/v1/bravo", 201, 60),
                ("charlie", "/v1/charlie", 202, 96),
            ],
            rate_limit_counts_by_client: vec![("alpha", 12, 12), ("charlie", 12, 36)],
        },
    );
}

#[test]
fn counts_identical_valid_records_independently() {
    let repeated_record = r#"{"request_id":"repeat_1","timestamp":"2024-01-15T10:00:00Z","client_id":"acct_1","endpoint":"/v1/widgets","status_code":200}"#;
    let input = format!("{repeated_record}\n{repeated_record}\n");
    assert_report(
        build_report(input.as_bytes()),
        Expected {
            total_line_count: 2,
            processed_line_count: 2,
            valid_request_count: 2,
            malformed_input_count: 0,
            ignored_blank_line_count: 0,
            client_bucket_rate_limit_violation_count: 0,
            rate_limit_excess_request_count: 0,
            rate_limit_violating_clients: vec![],
            request_counts_by_client_endpoint_status: vec![("acct_1", "/v1/widgets", 200, 2)],
            rate_limit_counts_by_client: vec![],
        },
    );
}
