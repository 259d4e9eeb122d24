use sima_pipeline::fault::Fault;
use sima_pipeline::report::{
    render_stats, report_records, report_task_records, resolve_task, Record, ReportRow, StatScalar,
};
use sima_pipeline::run_observer::RunObserver;
use sima_pipeline::runs::check_store;

fn scalar(name: &str, value: f64) -> StatScalar {
    StatScalar {
        name: name.to_string(),
        value: format!("{value}"),
    }
}

fn committed(task: &str, scalars: Vec<StatScalar>) -> Record {
    Record::Committed {
        task: task.to_string(),
        stats: scalars,
        stats_blob_hex: String::new(),
    }
}

/// A line of the search itself, which names no task.
fn started() -> Record {
    Record::Other { task: None }
}

/// A line of `task` that commits nothing.
fn line_of(task: &str) -> Record {
    Record::Other {
        task: Some(task.to_string()),
    }
}

fn row(task: &str, stats: &str) -> ReportRow {
    ReportRow {
        task: task.to_string(),
        stats: stats.to_string(),
    }
}

#[test]
fn rows_are_one_per_task_sorted_by_key() {
    let rows = report_records(&vec![
        started(),
        committed("bb", vec![scalar("attempt", 1.0)]),
        committed("aa", vec![scalar("attempt", 0.0)]),
        committed("aa", vec![scalar("attempt", 2.0)]),
    ]);
    assert_eq!(rows, vec![row("aa", "attempt=2"), row("bb", "attempt=1")]);
}

#[test]
fn scalars_render_space_joined() {
    let rows = report_records(&vec![
        started(),
        committed("aa", vec![scalar("attempt", 0.0), scalar("steps", 5.0)]),
    ]);
    assert_eq!(rows[0].stats, "attempt=0 steps=5");
}

#[test]
fn a_non_empty_blob_reports_its_byte_length() {
    let rows = report_records(&vec![
        started(),
        Record::Committed {
            task: "aa".to_string(),
            stats: vec![scalar("attempt", 0.0)],
            stats_blob_hex: "aabbcc".to_string(),
        },
    ]);
    assert_eq!(rows[0].stats, "attempt=0 blob=3B");
    assert_eq!(render_stats(&vec![], "aa"), "blob=1B");
    assert_eq!(render_stats(&vec![], ""), "");
}

#[test]
fn a_task_report_resolves_a_prefix_and_renders_that_task_alone() {
    let records = vec![
        started(),
        committed("abcd", vec![scalar("attempt", 0.0)]),
        committed("bcde", vec![scalar("attempt", 1.0)]),
    ];
    assert_eq!(
        report_task_records(&records, "ab"),
        Ok(row("abcd", "attempt=0"))
    );
}

#[test]
fn a_task_that_never_committed_has_no_report() {
    // The task was leased and rejected, so the prefix resolves; it produced no
    // result to report.
    let records = vec![started(), line_of("abcd"), line_of("abcd")];
    assert_eq!(resolve_task(&records, "ab"), Ok("abcd".to_string()));
    let reported = report_task_records(&records, "ab");
    let Err(Fault::Validation(message)) = reported else {
        panic!("expected a refusal, got {reported:?}");
    };
    assert_eq!(message, "task abcd has no committed result");
    assert!(message.contains("has no committed result"), "{message}");
    assert!(!message.contains("sima "), "{message}");
}

#[test]
fn the_record_folds_equal_the_reports_read_from_the_journal() {
    let records = vec![
        started(),
        committed("abcd", vec![scalar("attempt", 0.0)]),
        committed("bcde", vec![scalar("attempt", 1.0)]),
    ];
    let read_back = records.clone();
    assert_eq!(report_records(&records), report_records(&read_back));
    assert_eq!(
        report_records(&records),
        vec![row("abcd", "attempt=0"), row("bcde", "attempt=1")]
    );
    assert_eq!(
        report_task_records(&records, "ab"),
        report_task_records(&read_back, "ab")
    );
    assert_eq!(
        report_task_records(&records, "ab"),
        Ok(report_records(&records).remove(0))
    );
}

#[test]
fn a_prefix_addresses_a_task_only_where_it_is_the_one() {
    let records = vec![
        started(),
        line_of("abcd"),
        committed("abce", vec![]),
        line_of("b"),
        line_of("abcd"),
    ];
    assert_eq!(resolve_task(&records, "abcd"), Ok("abcd".to_string()));
    assert_eq!(resolve_task(&records, "b"), Ok("b".to_string()));
    for prefix in ["abc", "a", "", "c", "abcde"] {
        assert!(
            matches!(resolve_task(&records, prefix), Err(Fault::Validation(_))),
            "{prefix:?}"
        );
        assert!(
            matches!(report_task_records(&records, prefix), Err(Fault::Validation(_))),
            "{prefix:?}"
        );
    }
}

#[test]
fn a_missing_store_is_a_validation_error() {
    assert!(matches!(
        check_store("/no/such/store/here", false),
        Err(Fault::Validation(_))
    ));
}

fn observer() -> RunObserver {
    RunObserver::new("/w/store", true).expect("the store is there")
}

/// A journal that grows, read from a place in it on.
fn read_from(journal: &[&str], offset: u64) -> (Vec<String>, u64) {
    let lines = journal[offset as usize..]
        .iter()
        .map(|line| line.to_string())
        .collect();
    (lines, journal.len() as u64)
}

#[test]
fn the_first_poll_replays_history_and_later_polls_return_increments() {
    let mut observer = observer();
    let mut journal = vec!["started", "aa"];
    let read: Result<_, String> = Ok(read_from(&journal, observer.offset));
    assert_eq!(
        observer.poll(read),
        Ok(vec!["started".to_string(), "aa".to_string()])
    );
    journal.push("bb");
    let read: Result<_, String> = Ok(read_from(&journal, observer.offset));
    assert_eq!(observer.poll(read), Ok(vec!["bb".to_string()]));
    let read: Result<_, String> = Ok(read_from(&journal, observer.offset));
    assert_eq!(observer.poll(read), Ok(vec![]));
}

#[test]
fn a_region_that_does_not_parse_is_reported_again() {
    let mut observer = observer();
    let torn: Result<(Vec<String>, u64), String> = Err("corrupt".to_string());
    assert_eq!(observer.poll(torn), Err("corrupt".to_string()));
    assert_eq!(observer.offset, 0, "the region stays unconsumed");
    let read: Result<_, String> = Ok(read_from(&["started"], observer.offset));
    assert_eq!(observer.poll(read), Ok(vec!["started".to_string()]));
}

#[test]
fn raw_lines_are_consumed_as_they_are_read() {
    let mut observer = observer();
    let read: Result<_, String> = Ok(read_from(&["not a lifecycle event"], observer.offset));
    assert_eq!(
        observer.poll_lines(read),
        Ok(vec!["not a lifecycle event".to_string()])
    );
    assert_eq!(observer.offset, 1);
}

#[test]
fn a_missing_store_is_validation_and_creates_nothing() {
    assert_eq!(
        RunObserver::new("/w/no-store", false),
        Err(Fault::Validation(
            "store /w/no-store does not exist: no run was ever driven there".to_string()
        ))
    );
}
