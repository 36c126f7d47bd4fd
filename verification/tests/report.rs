use otap_dataflow::number::{read_count, write_count};
use otap_dataflow::report::{right_align, Figures};
use otap_dataflow::stats::{MemorySnapshot, RunReporter, RunSummary};

fn figures() -> Figures {
    Figures {
        duration: "12.34".to_string(),
        cpu_time: "5.678".to_string(),
        core_share: "46.01".to_string(),
        working_set: "100.5".to_string(),
        peak_working_set: "200.0".to_string(),
        private_working_set: "12345678901.5".to_string(),
        record_rate: "81".to_string(),
        record_cost: "5678".to_string(),
    }
}

fn summary(start: Option<u64>, end: Option<u64>) -> RunSummary {
    RunReporter::new("admin".to_string(), start).summary(1, 2, end, MemorySnapshot::default())
}

#[test]
fn text_is_aligned_to_the_right() {
    assert_eq!(right_align("", 3), "   ");
    assert_eq!(right_align("ab", 5), "   ab");
    assert_eq!(right_align("abcde", 5), "abcde");
    assert_eq!(right_align("abcdef", 5), "abcdef");
    assert_eq!(right_align("\u{e9}\u{4e2d}", 4), format!("{:>4}", "\u{e9}\u{4e2d}"));
}

#[test]
fn counts_are_written_in_decimal() {
    for n in [0, 1, 9, 10, 11, 99, 100, 1_000_007, u64::MAX - 1, u64::MAX] {
        let text = write_count(n);
        assert_eq!(text, n.to_string());
        assert_eq!(read_count(&text.chars().collect()), Some(n));
    }
}

#[test]
fn summary_with_records() {
    let expected = "\n\
=== Run summary ===\n\
\x20 duration             :      12.34 s\n\
\x20 cpu_time             :      5.678 s (46.01% of one core)\n\
\x20 rss (working set)    :      100.5 MiB\n\
\x20 peak working set     :      200.0 MiB\n\
\x20 private working set  : 12345678901.5 MiB\n\
\x20 log_records_uploaded :       1000 (       81/s)\n\
\x20 cpu_time per record  :       5678 ns/log\n";
    assert_eq!(summary(Some(7), Some(1007)).text(&figures()), expected);
}

#[test]
fn summary_without_records() {
    let expected = "\n\
=== Run summary ===\n\
\x20 duration             :      12.34 s\n\
\x20 cpu_time             :      5.678 s (46.01% of one core)\n\
\x20 rss (working set)    :      100.5 MiB\n\
\x20 peak working set     :      200.0 MiB\n\
\x20 private working set  : 12345678901.5 MiB\n\
\x20 log_records_uploaded : <unavailable>\n";
    assert_eq!(summary(None, None).text(&figures()), expected);
    assert_eq!(summary(Some(8), Some(7)).text(&figures()), expected);
}
