use otap_dataflow::number::read_count;
use otap_dataflow::stats::{
    http_request, parse_prom_counter, records_in_response, records_request, response_body,
    MemorySnapshot, ReportedMemory, RunReporter,
};

fn count(text: &str) -> Option<u64> {
    read_count(&text.chars().collect())
}

/// A number as the standard library reads it.
fn std_count(text: &str) -> Option<u64> {
    if let Ok(v) = text.parse::<u64>() {
        Some(v)
    } else if let Ok(v) = text.parse::<f64>() {
        Some(v as u64)
    } else {
        None
    }
}

/// The counter as the standard library's splitting gives it.
fn std_counter(text: &str, name: &str) -> Option<u64> {
    let mut total: Option<u64> = None;
    for line in text.lines() {
        if line.starts_with('#') {
            continue;
        }
        let Some(after) = line.strip_prefix(name) else {
            continue;
        };
        if !after.starts_with('{') && !after.starts_with(' ') {
            continue;
        }
        let parts: Vec<&str> = line.split_whitespace().collect();
        if parts.len() < 2 {
            continue;
        }
        let word = if parts.len() >= 3 { parts[parts.len() - 2] } else { parts[1] };
        if let Some(v) = std_count(word) {
            total = Some(total.unwrap_or(0).saturating_add(v));
        }
    }
    total
}

#[test]
fn parse_counter_with_labels_and_timestamp() {
    let txt = "# HELP log_records_uploaded foo\n\
               # TYPE log_records_uploaded counter\n\
               log_records_uploaded{set=\"otap.exporter.geneva\"} 31000 1777581738705\n";
    assert_eq!(parse_prom_counter(txt, "log_records_uploaded"), Some(31000));
}

#[test]
fn parse_counter_sums_multiple_label_sets() {
    let txt = "log_records_uploaded{set=\"a\"} 100\n\
               log_records_uploaded{set=\"b\"} 50 1234\n";
    assert_eq!(parse_prom_counter(txt, "log_records_uploaded"), Some(150));
}

#[test]
fn parse_counter_missing_returns_none() {
    let txt = "other_metric{x=\"y\"} 1\n";
    assert_eq!(parse_prom_counter(txt, "log_records_uploaded"), None);
}

#[test]
fn counter_needs_its_whole_name() {
    assert_eq!(parse_prom_counter("records_total 7\n", "records"), None);
    assert_eq!(parse_prom_counter("records 7\n", "records"), Some(7));
    assert_eq!(parse_prom_counter("records\t7\n", "records"), None);
    assert_eq!(parse_prom_counter(" records 7\n", "records"), None);
    assert_eq!(parse_prom_counter("records", "records"), None);
    assert_eq!(parse_prom_counter("records ", "records"), None);
    assert_eq!(parse_prom_counter("records{} ", "records"), None);
}

#[test]
fn counter_saturates() {
    let text = "n 18446744073709551615\nn 1\n";
    assert_eq!(parse_prom_counter(text, "n"), Some(u64::MAX));
    assert_eq!(parse_prom_counter("n 1e300\n", "n"), Some(u64::MAX));
}

#[test]
fn values_that_are_no_numbers_are_skipped() {
    assert_eq!(parse_prom_counter("n abc\nn 4\n", "n"), Some(4));
    assert_eq!(parse_prom_counter("n abc\n", "n"), None);
    assert_eq!(parse_prom_counter("n 0\n", "n"), Some(0));
}

#[test]
fn lines_end_with_or_without_a_carriage_return() {
    assert_eq!(parse_prom_counter("n 1\r\nn 2\r\nn 3", "n"), Some(6));
    assert_eq!(parse_prom_counter("n 1\r", "n"), Some(1));
    assert_eq!(parse_prom_counter("\n\nn 1\n\n", "n"), Some(1));
    assert_eq!(parse_prom_counter("", "n"), None);
}

#[test]
fn the_counter_of_two_texts_is_their_sum() {
    let first = "n{a=\"1\"} 5 17\nm 3\n";
    let second = "# n 9\nn 2\n";
    let both = format!("{first}{second}");
    assert_eq!(parse_prom_counter(&both, "n"), Some(7));
    let with_other = format!("{first}m 8\n{second}");
    assert_eq!(parse_prom_counter(&with_other, "n"), Some(7));
}

#[test]
fn texts_are_split_as_the_standard_library_does() {
    for text in [
        "n 1\u{a0}2 3\n",
        "n\u{2003}1\n",
        "n \u{3000}4 5\n",
        "n 1\r\r\nn 2\n",
        "n 1 2 3 4\n",
        "n{a=\"b\"} 5\n",
        "n{a=\"b\"} 5 6\n",
        "n{a=\"b\"}5\n",
        "n{a=\"b\"}x 5\n",
        "n{a=\"}\"} 5\n",
        "n{a=\"\\\"}\"} 5 6\n",
        "n{a=\"b} 5\n",
        "n{a 5\n",
        "n{} 5 6 7\n",
        "n{x 5 }7\n",
        "n{a=\"b c\"}x 7\n",
        "n{a=\"b c\"} 1 2 3\n",
        "n{a=\"b c\"}\n",
        "n{}\n",
        "n{\n",
        "n{\u{e9}} 1.9\n",
        "n 1\u{85}2\n",
        "n 1\u{b}2\n",
        "n 1\u{200b}2\n",
        "# n 1\nn 2\n#n 3",
    ] {
        assert_eq!(parse_prom_counter(text, "n"), std_counter(text, "n"), "{text:?}");
    }
    assert_eq!(parse_prom_counter("{ 5\n", ""), std_counter("{ 5\n", ""));
}

#[test]
fn labels_with_spaces_do_not_hide_the_value() {
    assert_eq!(parse_prom_counter("m{set=\"a b\"} 7\n", "m"), Some(7));
    assert_eq!(parse_prom_counter("m{set=\"a b\"} 7 1777581738705\n", "m"), Some(7));
    assert_eq!(parse_prom_counter("m{a=\"x  y z\", b=\"c\"} 7\n", "m"), Some(7));
    assert_eq!(parse_prom_counter("m{a=\"} 3 4\"} 7\n", "m"), Some(7));
    assert_eq!(parse_prom_counter("m{a=\"\\\"} 3 4\"} 7\n", "m"), Some(7));
    assert_eq!(parse_prom_counter("m{a=\"\\\\\"} 7 8\n", "m"), Some(7));
    assert_eq!(parse_prom_counter("m{ } 7\n", "m"), Some(7));
    assert_eq!(parse_prom_counter("m{set=\"a b\"} 7\nm{set=\"c\"} 5 1\n", "m"), Some(12));
    assert_eq!(parse_prom_counter("m{set=\"a b\"}\n", "m"), None);
}

#[test]
fn numbers_are_read_as_the_standard_library_does() {
    for text in [
        "", "0", "00", "7", "+7", "-7", "-0", "+", "-", ".", "+.", "1.", ".5", "0.5", "1.5", "2.5",
        "1e3", "1E3", "1e+3", "1e-3", "1e", "1e+", "e5", "1.e2", ".e2", "1.5e1", "1.5e0", "15e-1",
        "inf", "INF", "Infinity", "-inf", "+inf", "nan", "NaN", "-nan", "infinit", "infinityy",
        "18446744073709551615", "18446744073709551616", "+18446744073709551615",
        "18446744073709551615.0", "18446744073709549568.0", "18446744073709550592.0",
        "9007199254740993", "9007199254740993.0", "9007199254740992.5", "9007199254740993.5",
        "9007199254740994.99999999999999999999", "4503599627370495.5", "4503599627370496.5",
        "4503599627370497.5", "0.9999999999999999", "0.99999999999999999", "0.999999999999999944",
        "0.9999999999999999444888487687421760603063754910", "0.99999999999999994448884876874217",
        "0.999999999999999944488848768742172978818416595458984375",
        "0.9999999999999999444888487687421729788184165954589843751",
        "0.9999999999999999444888487687421729788184165954589843749",
        "1.9999999999999999", "1.99999999999999988897769753748434596",
        "1.9999999999999998889776975374843459576368331909179687500",
        "1.9999999999999998889776975374843459576368331909179687499",
        "31000.0", "3.1e4", "1e19", "2e19", "1e20", "1e400", "1e-400", "0e400", "0e999999999999",
        "0.0000000000000000000000000000001e31", "123456789e-8", "123456789e-9", "123456789e-10",
        "1e99999999999999999999999999999999999999999999", "1e-99999999999999999999999999999999999",
        "-1e99999999999999999999999999999999999999999999", "1_000", "0x10", "1,5", "1 2", "\u{661}",
        "9223372036854775807.5", "9223372036854775808.5", "9223372036854776832", "1.8446744073709552e19",
        "9223372036854776832.0", "9223372036854776833.0", "9223372036854776831.9", "12345678901234567890.12",
    ] {
        assert_eq!(count(text), std_count(text), "{text:?}");
    }
}

#[test]
fn many_numbers_are_read_as_the_standard_library_does() {
    let mut state: u64 = 1;
    let mut next = move || {
        state = state.wrapping_mul(6_364_136_223_846_793_005).wrapping_add(1_442_695_040_888_963_407);
        state >> 16
    };
    for _ in 0..50_000 {
        let whole = next() >> (next() % 48);
        let fraction = next() >> (next() % 48);
        let exponent = (next() % 45) as i64 - 25;
        for text in [
            format!("{whole}.{fraction}"),
            format!("{whole}.{fraction}e{exponent}"),
            format!("{whole}{fraction}"),
            format!("{whole}{fraction}e{exponent}"),
            format!("0.{whole}{fraction}"),
        ] {
            assert_eq!(count(&text), std_count(&text), "{text}");
        }
    }
}

#[test]
fn request_is_a_plain_get() {
    let expected = "GET /x HTTP/1.0\r\nHost: 127.0.0.1:8080\r\nUser-Agent: df_engine-stats\r\n\
                    Connection: close\r\nAccept: text/plain\r\n\r\n";
    assert_eq!(http_request("127.0.0.1:8080", "/x"), expected);
    assert!(records_request("h").starts_with("GET /api/v1/telemetry/metrics/aggregate HTTP/1.0\r\nHost: h\r\n"));
}

#[test]
fn body_follows_the_first_empty_line() {
    assert_eq!(response_body("HTTP/1.0 200 OK\r\nA: b\r\n\r\nbody\r\n\r\nmore").as_deref(), Some("body\r\n\r\nmore"));
    assert_eq!(response_body("HTTP/1.0 200 OK\r\n\r\n").as_deref(), Some(""));
    assert_eq!(response_body("HTTP/1.0 200 OK\r\nA: b\r\n"), None);
    assert_eq!(response_body("\r\n\r\n\u{e9}").as_deref(), Some("\u{e9}"));
    assert_eq!(response_body("x\r\r\n\r\ny").as_deref(), Some("y"));
    assert_eq!(response_body(""), None);
}

#[test]
fn records_come_out_of_a_response() {
    let response = "HTTP/1.0 200 OK\r\n\r\nlog_records_uploaded{set=\"a\"} 12\n";
    assert_eq!(records_in_response(response), Some(12));
    assert_eq!(records_in_response("log_records_uploaded 12\n"), None);
    assert_eq!(records_in_response("HTTP/1.0 200 OK\r\n\r\nnothing 12\n"), None);
}

#[test]
fn only_the_first_claim_prints() {
    let mut reporter = RunReporter::new("127.0.0.1:8080".to_string(), None);
    assert!(reporter.claim());
    assert!(!reporter.claim());
    assert!(!reporter.claim());
    assert_eq!(reporter.address(), "127.0.0.1:8080");
    assert!(reporter.records_request().contains("\r\nHost: 127.0.0.1:8080\r\n"));
}

#[test]
fn a_failed_start_reading_counts_as_zero() {
    let memory = MemorySnapshot::default();
    let reporter = RunReporter::new(String::new(), None);
    assert_eq!(reporter.summary(1, 2, Some(30), memory).records, Some(30));
    let reporter = RunReporter::new(String::new(), Some(10));
    let summary = reporter.summary(5, 6, Some(30), memory);
    assert_eq!(summary.records, Some(20));
    assert_eq!((summary.wall_nanos, summary.cpu_nanos, summary.memory), (5, 6, memory));
    assert_eq!(reporter.summary(5, 6, Some(10), memory).records, Some(0));
    assert_eq!(reporter.summary(5, 6, Some(9), memory).records, None);
    assert_eq!(reporter.summary(5, 6, None, memory).records, None);
}

#[test]
fn uploads_add_up() {
    let memory = MemorySnapshot::default();
    let whole = RunReporter::new(String::new(), Some(3)).summary(0, 0, Some(50), memory).records.unwrap();
    let first = RunReporter::new(String::new(), Some(3)).summary(0, 0, Some(20), memory).records.unwrap();
    let second = RunReporter::new(String::new(), Some(20)).summary(0, 0, Some(50), memory).records.unwrap();
    assert_eq!(whole, first + second);
}

#[test]
fn memory_is_zero_where_the_report_failed() {
    let report = ReportedMemory {
        peak_working_set_size: 3,
        working_set_size: 1,
        private_working_set_size: 2,
    };
    assert_eq!(MemorySnapshot::from_report(0, &report), MemorySnapshot::default());
    let expected = MemorySnapshot { working_set: 1, private_working_set: 2, peak_working_set: 3 };
    assert_eq!(MemorySnapshot::from_report(1, &report), expected);
    assert_eq!(MemorySnapshot::from_report(-1, &report), expected);
}
