use chicon_runner::harvest::{attach_issue_refs, parse_data, parse_issues, IssueEntry};
use chicon_runner::json::{decode_scan, encode_issues, encode_scan};
use chicon_runner::models::{
    CodeIssue, GitCommit, MassIssues, MetricValue, Scan, ScanMetadata,
};

fn sample_scan() -> Scan {
    Scan {
        function_id: "4ed8e41b".to_string(),
        repository_id: "7b2c112a".to_string(),
        commit: GitCommit {
            commit_id: "abc123".to_string(),
            message: Some("fix: \"quotes\" and \\ slashes\nsecond line".to_string()),
            branch: "master".to_string(),
        },
        has_failed: true,
        logs: "out line\n\terr \"line\"\u{1}".to_string(),
        timing_ms: 1234,
        results: vec![
            ScanMetadata {
                key: "count".to_string(),
                description: "How many".to_string(),
                value: MetricValue::Number(-42),
            },
            ScanMetadata {
                key: "label".to_string(),
                description: String::new(),
                value: MetricValue::Text("ok\n".to_string()),
            },
            ScanMetadata {
                key: "clean".to_string(),
                description: "Spotless".to_string(),
                value: MetricValue::Boolean(true),
            },
        ],
    }
}

#[test]
fn scan_encoding_round_trips() {
    let scan = sample_scan();
    let encoded = encode_scan(&scan);
    let decoded = decode_scan(encoded.as_str()).unwrap();
    assert_eq!(scan, decoded);
}

#[test]
fn scan_encoding_round_trips_without_message_or_results() {
    let scan = Scan {
        function_id: "f".to_string(),
        repository_id: "r".to_string(),
        commit: GitCommit {
            commit_id: "c".to_string(),
            message: None,
            branch: "main".to_string(),
        },
        has_failed: false,
        logs: String::new(),
        timing_ms: 0,
        results: vec![],
    };
    let encoded = encode_scan(&scan);
    let decoded = decode_scan(encoded.as_str()).unwrap();
    assert_eq!(scan, decoded);
}

#[test]
fn scan_encoding_is_exact() {
    let scan = Scan {
        function_id: "fid".to_string(),
        repository_id: "rid".to_string(),
        commit: GitCommit {
            commit_id: "c1".to_string(),
            message: None,
            branch: "master".to_string(),
        },
        has_failed: false,
        logs: "a\nb".to_string(),
        timing_ms: 7,
        results: vec![ScanMetadata {
            key: "count".to_string(),
            description: "d".to_string(),
            value: MetricValue::Number(3),
        }],
    };
    let encoded = encode_scan(&scan);
    assert_eq!(
        encoded,
        "{\"functionId\":\"fid\",\"repositoryId\":\"rid\",\"commit\":{\"commitId\":\"c1\",\"message\":null,\"branch\":\"master\"},\"hasFailed\":false,\"logs\":\"a\\nb\",\"timingMs\":7,\"results\":[{\"key\":\"count\",\"description\":\"d\",\"value\":3}]}"
    );
}

#[test]
fn decode_accepts_four_digit_escapes() {
    let decoded = decode_scan(
        "{\"functionId\":\"fid\",\"repositoryId\":\"rid\",\"commit\":{\"commitId\":\"c1\",\"message\":null,\"branch\":\"master\"},\"hasFailed\":false,\"logs\":\"\\u0041\\u00e9\",\"timingMs\":7,\"results\":[]}",
    )
    .unwrap();
    assert_eq!(decoded.logs, "A\u{e9}");
}

#[test]
fn decode_rejects_tampered_text() {
    let scan = sample_scan();
    let encoded = encode_scan(&scan);
    let mut tampered = encoded.clone();
    tampered.push('x');
    assert!(decode_scan(tampered.as_str()).is_none());
    assert!(decode_scan("{\"functionId\":\"f\"").is_none());
    assert!(decode_scan("").is_none());
}

#[test]
fn issue_upload_encoding_is_exact() {
    let upload = MassIssues {
        issues: vec![CodeIssue {
            name: "weak hash".to_string(),
            severity: Some("high".to_string()),
            repository_id: Some("rid".to_string()),
            function_id: Some("fid".to_string()),
            scan_id: Some("sid".to_string()),
        }],
    };
    let encoded = encode_issues(&upload);
    assert_eq!(
        encoded,
        "{\"issues\":[{\"name\":\"weak hash\",\"severity\":\"high\",\"repositoryId\":\"rid\",\"functionId\":\"fid\",\"scanId\":\"sid\"}]}"
    );
}

#[test]
fn parse_data_reads_each_value_kind() {
    let content = "# metrics\ncount = 3\nname = \"hello\"\nflag = true\nneg = -7\noff = false\n\n";
    let pairs = parse_data(content).unwrap();
    assert_eq!(pairs.len(), 5);
    assert_eq!(pairs[0], ("count".to_string(), MetricValue::Number(3)));
    assert_eq!(pairs[1], ("name".to_string(), MetricValue::Text("hello".to_string())));
    assert_eq!(pairs[2], ("flag".to_string(), MetricValue::Boolean(true)));
    assert_eq!(pairs[3], ("neg".to_string(), MetricValue::Number(-7)));
    assert_eq!(pairs[4], ("off".to_string(), MetricValue::Boolean(false)));
}

#[test]
fn parse_data_rejects_malformed_lines() {
    assert!(parse_data("count").is_none());
    assert!(parse_data("count = ").is_none());
    assert!(parse_data("= 3").is_none());
    assert!(parse_data("a b = 3").is_none());
    assert!(parse_data("count = 3\nbroken").is_none());
    assert!(parse_data("count = \"unterminated").is_none());
}

#[test]
fn parse_data_accepts_empty_file() {
    assert_eq!(parse_data("").unwrap(), vec![]);
}

#[test]
fn parse_data_allows_trailing_comments() {
    let pairs = parse_data("count = 3 # total\nflag = true # on\nname = \"a # b\"").unwrap();
    assert_eq!(pairs[0], ("count".to_string(), MetricValue::Number(3)));
    assert_eq!(pairs[1], ("flag".to_string(), MetricValue::Boolean(true)));
    assert_eq!(pairs[2], ("name".to_string(), MetricValue::Text("a # b".to_string())));
    assert!(parse_data("count = 3 trailing").is_none());
    assert!(parse_data("flag = truest").is_none());
}

#[test]
fn parse_data_reads_grouped_and_prefixed_integers() {
    let pairs = parse_data(
        "big = 1_000_000\nhex = 0xFf\noct = 0o17\nbin = 0b101\nzero = 0\nplus = +5\nneg = -1_2",
    )
    .unwrap();
    assert_eq!(pairs[0], ("big".to_string(), MetricValue::Number(1_000_000)));
    assert_eq!(pairs[1], ("hex".to_string(), MetricValue::Number(255)));
    assert_eq!(pairs[2], ("oct".to_string(), MetricValue::Number(15)));
    assert_eq!(pairs[3], ("bin".to_string(), MetricValue::Number(5)));
    assert_eq!(pairs[4], ("zero".to_string(), MetricValue::Number(0)));
    assert_eq!(pairs[5], ("plus".to_string(), MetricValue::Number(5)));
    assert_eq!(pairs[6], ("neg".to_string(), MetricValue::Number(-12)));
}

#[test]
fn parse_data_rejects_malformed_integers() {
    assert!(parse_data("a = 1__0").is_none());
    assert!(parse_data("a = _1").is_none());
    assert!(parse_data("a = 1_").is_none());
    assert!(parse_data("a = 01").is_none());
    assert!(parse_data("a = 0x").is_none());
    assert!(parse_data("a = 0b2").is_none());
    assert!(parse_data("a = -0x1").is_none());
}

#[test]
fn parse_data_rejects_repeated_keys() {
    assert!(parse_data("a = 1\nb = 2\na = 3").is_none());
    assert_eq!(parse_data("a = 1\nb = 2").unwrap().len(), 2);
}

#[test]
fn quoted_values_accept_four_digit_escapes() {
    let pairs = parse_data("a = \"\\u0041\"\nb = \"\\u004A\"\nc = \"\\u00e9\"").unwrap();
    assert_eq!(pairs[0].1, MetricValue::Text("A".to_string()));
    assert_eq!(pairs[1].1, MetricValue::Text("J".to_string()));
    assert_eq!(pairs[2].1, MetricValue::Text("\u{e9}".to_string()));
    assert!(parse_data("a = \"\\ud800\"").is_none());
}

#[test]
fn parse_issues_reads_sections() {
    let content = "[[issues]]\nname = \"weak hash\"\nseverity = \"high\"\n\n[[issues]]\nname = \"open port\"\n";
    let entries = parse_issues(content).unwrap();
    assert_eq!(
        entries,
        vec![
            IssueEntry {
                name: "weak hash".to_string(),
                severity: Some("high".to_string()),
            },
            IssueEntry { name: "open port".to_string(), severity: None },
        ]
    );
}

#[test]
fn parse_issues_rejects_nameless_entries_and_bad_values() {
    assert!(parse_issues("[[issues]]\nseverity = \"high\"\n").is_none());
    assert!(parse_issues("[[issues]]\nname = 3\n").is_none());
    assert!(parse_issues("[[issues]]\nname = \"a\"\nname = \"b\"\n").is_none());
    assert!(parse_issues("[[issues]]\nname = \"a\"\nseverity = \"x\"\nseverity = \"y\"\n").is_none());
    assert!(parse_issues("issues = 3\n").is_none());
}

#[test]
fn parse_issues_skips_what_it_does_not_know() {
    let ignored_top_level = parse_issues("name = \"early\"\n").unwrap();
    assert_eq!(ignored_top_level, vec![]);
    let with_extras =
        parse_issues("[[issues]]\nname = \"weak hash\"\nconfidence = 3\nseen = true\n").unwrap();
    assert_eq!(
        with_extras,
        vec![IssueEntry { name: "weak hash".to_string(), severity: None }]
    );
}

#[test]
fn issue_headers_allow_spacing_and_comments() {
    let entries =
        parse_issues("[[ issues ]] # first\nname = \"a\" # named\n\n[[issues]]\nname = \"b\"\n")
            .unwrap();
    assert_eq!(
        entries,
        vec![
            IssueEntry { name: "a".to_string(), severity: None },
            IssueEntry { name: "b".to_string(), severity: None },
        ]
    );
    assert!(parse_issues("[[problems]]\nname = \"a\"\n").is_none());
}

#[test]
fn attach_issue_refs_fills_back_references() {
    let entries = vec![IssueEntry {
        name: "weak hash".to_string(),
        severity: Some("high".to_string()),
    }];
    let issues = attach_issue_refs(entries, "rid", "fid", "sid");
    assert_eq!(issues.len(), 1);
    assert_eq!(issues[0].name, "weak hash");
    assert_eq!(issues[0].severity, Some("high".to_string()));
    assert_eq!(issues[0].repository_id, Some("rid".to_string()));
    assert_eq!(issues[0].function_id, Some("fid".to_string()));
    assert_eq!(issues[0].scan_id, Some("sid".to_string()));
}
