//! Records of the database.

use dagger::dag_flow::sqlite_cache::{database_url, pack, unpack, Stored};
use dagger::dag_flow::tree::Timestamp;
use dagger::storage::records::{
    flow_run_row, node_run_row, read_flow_run, FlowRun, FlowRunStatus, NodeRun, NodeRunStatus, StorageError,
};
use dagger::storage::sqlite_storage::{artifact_source, open_failure, ArtifactRow, ArtifactSource, ArtifactStorage};

fn run() -> FlowRun {
    FlowRun {
        id: "r1".to_string(),
        name: "flow".to_string(),
        status: FlowRunStatus::Running,
        created_at: Timestamp { secs: 0, nanos: 0 },
        updated_at: Timestamp { secs: 1_700_000_000, nanos: 123_000_000 },
        started_at: Some(Timestamp { secs: -1, nanos: 5 }),
        finished_at: None,
        parameters: Some("{}".to_string()),
        error_message: None,
    }
}

#[test]
fn statuses_are_read_back() {
    let flow = [
        (FlowRunStatus::Pending, "pending"),
        (FlowRunStatus::Running, "running"),
        (FlowRunStatus::Completed, "completed"),
        (FlowRunStatus::Failed, "failed"),
        (FlowRunStatus::Cancelled, "cancelled"),
    ];
    for (status, word) in flow {
        assert_eq!(status.as_str(), word);
        assert_eq!(FlowRunStatus::from_str(word), Ok(status));
    }
    let node = [
        (NodeRunStatus::Pending, "pending"),
        (NodeRunStatus::Running, "running"),
        (NodeRunStatus::Completed, "completed"),
        (NodeRunStatus::Failed, "failed"),
        (NodeRunStatus::Skipped, "skipped"),
        (NodeRunStatus::Cancelled, "cancelled"),
    ];
    for (status, word) in node {
        assert_eq!(status.as_str(), word);
        assert_eq!(NodeRunStatus::from_str(word), Ok(status));
    }
    assert_eq!(FlowRunStatus::from_str("skipped"), Err("Unknown flow run status: skipped".to_string()));
    assert_eq!(NodeRunStatus::from_str("Pending"), Err("Unknown node run status: Pending".to_string()));
}

#[test]
fn runs_are_read_back() {
    let run = run();
    let row = flow_run_row(&run);
    assert_eq!(row.created_at, "1970-01-01T00:00:00+00:00");
    assert_eq!(row.updated_at, "2023-11-14T22:13:20.123+00:00");
    assert_eq!(row.started_at, Some("1969-12-31T23:59:59.000000005+00:00".to_string()));
    assert_eq!(row.status, "running");
    let read = read_flow_run(row).unwrap();
    assert_eq!(read.id, run.id);
    assert_eq!(read.status, run.status);
    assert_eq!(read.created_at, run.created_at);
    assert_eq!(read.updated_at, run.updated_at);
    assert_eq!(read.started_at, run.started_at);
    assert_eq!(read.finished_at, None);
    assert_eq!(read.parameters, run.parameters);
}

#[test]
fn the_first_and_last_ordinary_times_are_read_back() {
    for t in [Timestamp { secs: -62_167_219_200, nanos: 0 }, Timestamp { secs: 253_402_300_799, nanos: 999_999_999 }] {
        let mut run = run();
        run.created_at = t;
        assert_eq!(read_flow_run(flow_run_row(&run)).unwrap().created_at, t);
    }
    let mut run = run();
    run.created_at = Timestamp { secs: 253_402_300_800, nanos: 0 };
    let row = flow_run_row(&run);
    assert_eq!(row.created_at, "+10000-01-01T00:00:00+00:00");
    assert!(matches!(read_flow_run(row), Err(StorageError::ParseError(_))));
    run.created_at = Timestamp { secs: -8_334_601_228_800, nanos: 0 };
    assert_eq!(flow_run_row(&run).created_at, "-262143-01-01T00:00:00+00:00");
    run.created_at = Timestamp { secs: 8_210_266_876_799, nanos: 1_500_000_000 };
    assert_eq!(flow_run_row(&run).created_at, "+262142-12-31T23:59:60.500+00:00");
}

#[test]
fn rows_that_say_nothing_are_refused() {
    let mut row = flow_run_row(&run());
    row.status = "lost".to_string();
    let e = read_flow_run(row).unwrap_err();
    assert_eq!(e.message(), "Invalid status: Unknown flow run status: lost");
    let mut row = flow_run_row(&run());
    row.finished_at = Some("yesterday".to_string());
    assert!(read_flow_run(row).unwrap_err().message().starts_with("Date parse error: "));
    let mut row = flow_run_row(&run());
    row.created_at = "2024-02-29T01:00:00+01:00".to_string();
    assert_eq!(read_flow_run(row).unwrap().created_at, Timestamp { secs: 1_709_164_800, nanos: 0 });
}

#[test]
fn runs_of_nodes_are_written() {
    let row = node_run_row(&NodeRun {
        id: "n1".to_string(),
        flow_run_id: "r1".to_string(),
        node_name: "a".to_string(),
        status: NodeRunStatus::Skipped,
        created_at: Timestamp { secs: 0, nanos: 1_000 },
        updated_at: Timestamp { secs: 0, nanos: 0 },
        started_at: None,
        finished_at: None,
        inputs: None,
        outputs: Some("[]".to_string()),
        error_message: None,
        retry_count: -1,
    });
    assert_eq!(row.status, "skipped");
    assert_eq!(row.created_at, "1970-01-01T00:00:00.000001+00:00");
    assert_eq!(row.outputs, Some("[]".to_string()));
    assert_eq!(row.retry_count, -1);
}

#[test]
fn artifacts_are_kept_by_size() {
    let storage = ArtifactStorage::default();
    assert_eq!(storage.artifact_dir, "artifacts");
    assert!(storage.keeps_inline(1024 * 1024));
    assert!(!storage.keeps_inline(1024 * 1024 + 1));
    assert_eq!(storage.generate_artifact_file_path("abcdef", "image"), vec!["image", "ab", "abcdef.dat"]);
    assert_eq!(storage.generate_artifact_file_path("a", "image"), vec!["image", "a.dat"]);
    assert_eq!(storage.generate_artifact_file_path("\u{e9}t", "image"), vec!["image", "\u{e9}", "\u{e9}t.dat"]);
    assert_eq!(storage.generate_artifact_file_path("", "image"), vec!["image", ".dat"]);
}

#[test]
fn artifacts_are_found_where_they_are() {
    let row = |data: Option<&str>, file: Option<&str>| {
        Some(ArtifactRow { data: data.map(|s| s.to_string()), file_path: file.map(|s| s.to_string()) })
    };
    assert!(matches!(artifact_source("a", row(Some("[1]"), Some("f"))), Ok(ArtifactSource::Inline(d)) if d == "[1]"));
    assert!(matches!(artifact_source("a", row(None, Some("f"))), Ok(ArtifactSource::File(f)) if f == "f"));
    assert_eq!(
        artifact_source("a", row(None, None)).unwrap_err().message(),
        "Artifact not found: No data found for artifact a"
    );
    assert_eq!(artifact_source("a", None).unwrap_err().message(), "Artifact not found: a");
    assert_eq!(
        open_failure("f", "gone").message(),
        "File operation error: Failed to open artifact file f: gone"
    );
}

#[test]
fn errors_of_the_storage_in_words() {
    let s = || "x".to_string();
    assert_eq!(StorageError::Database(s()).message(), "Database error: x");
    assert_eq!(StorageError::JsonSerialization(s()).message(), "JSON serialization error: x");
    assert_eq!(StorageError::Io(s()).message(), "IO error: x");
    assert_eq!(StorageError::Configuration(s()).message(), "Invalid configuration: x");
}

#[test]
fn addresses_of_databases() {
    assert_eq!(database_url("dagger.db"), "sqlite:dagger.db");
    assert_eq!(database_url("sqlite:dagger.db"), "sqlite:dagger.db");
    assert_eq!(database_url("sqlite"), "sqlite:sqlite");
}

#[test]
fn packed_bytes_are_read_back() {
    let bytes: Vec<u8> = (0..2000u32).map(|i| (i % 7) as u8).collect();
    let packed = pack(Stored::Snapshot, &bytes).unwrap();
    assert_ne!(packed, bytes);
    assert!(packed.len() < bytes.len());
    assert_eq!(unpack(&packed).unwrap(), bytes);
    assert_eq!(unpack(&pack(Stored::ExecutionTree, &[]).unwrap()).unwrap(), Vec::<u8>::new());
    assert!(unpack(&[1, 2, 3]).is_err());
}
