//! The ingest scenarios run through the library's decisions: which files are
//! taken, how each is planned, and how the run's totals advance. The file
//! walk, the embedder and the writer are the caller's; here a file is its
//! path and text, and a written row is a planned record.

use skeg_rigging::ingest::{accepts, check_dims, plan_file, relpath, PlannedRecord};
use skeg_rigging::{IngestOptions, IngestStats};

const DIM: u32 = 64;

/// One ingest run over `(path under root, text)` files, as the caller drives
/// it: files that are not accepted are skipped, every other is planned from
/// the current next id and counted.
fn run(root: &str, files: &[(&str, &str)], opts: &IngestOptions) -> (IngestStats, Vec<PlannedRecord>) {
    let mut sorted: Vec<(String, &str)> =
        files.iter().map(|(p, t)| (format!("{root}/{p}"), *t)).collect();
    sorted.sort();
    let mut stats = IngestStats {
        next_id: opts.start_id,
        ..Default::default()
    };
    let mut rows = Vec::new();
    for (path, text) in &sorted {
        let ext = path.rsplit_once('.').map(|(_, e)| e);
        if !accepts(path, ext, opts) {
            continue;
        }
        let stripped = path.strip_prefix(&format!("{root}/")).map(|s| s.to_string());
        let rel = relpath(stripped.as_deref(), None, path);
        let plan = plan_file(text, ext.unwrap_or(""), &rel, opts, stats.next_id).unwrap();
        assert!(stats.fits(&plan));
        rows.extend(plan.records.iter().cloned());
        stats.add_file(&plan);
    }
    (stats, rows)
}

fn md(extra: IngestOptions) -> IngestOptions {
    IngestOptions {
        exts: vec!["md".into()],
        ..extra
    }
}

#[test]
fn ingest_dir_counts_and_payloads() {
    let (stats, rows) = run(
        "/tmp/dir",
        &[
            ("a.md", "first paragraph here.\n\nsecond paragraph here.\n"),
            ("b.md", "lonely paragraph.\n"),
        ],
        &md(IngestOptions::default()),
    );
    assert_eq!(stats.files, 2, "two files");
    assert_eq!(stats.chunks, 3, "three paragraphs total");
    assert_eq!(stats.next_id, 3, "ids 0,1,2 allocated");
    assert_eq!(rows.len(), 3);
    assert_eq!(
        rows.iter().map(|r| r.record_id.0).collect::<Vec<_>>(),
        vec![0, 1, 2]
    );
    assert!(rows
        .iter()
        .any(|r| String::from_utf8_lossy(&r.payload).contains("first paragraph")));
    assert!(rows
        .iter()
        .all(|r| r.tags.iter().any(|t| t.starts_with("src:"))));
    assert_eq!(rows[0].tags, vec!["src:a.md:1-1"]);
    assert_eq!(rows[2].tags, vec!["src:b.md:1-1"]);
}

#[test]
fn shareable_and_extra_tags_propagate() {
    let opts = md(IngestOptions {
        shareable: true,
        tags: vec!["corpus".into()],
        ..Default::default()
    });
    let (_, rows) = run("/tmp/tags", &[("n.md", "alpha beta gamma.\n")], &opts);
    assert_eq!(rows.len(), 1);
    assert!(opts.shareable);
    assert!(rows[0].tags.iter().any(|t| t == "corpus"));
    assert_eq!(rows[0].words, 3);
}

#[test]
fn ext_filter_excludes_other_files() {
    let (stats, rows) = run(
        "/tmp/ext",
        &[("keep.md", "keep me.\n"), ("skip.rs", "fn skipped() {}\n")],
        &md(IngestOptions::default()),
    );
    assert_eq!(stats.files, 1, "only the .md file");
    assert!(String::from_utf8_lossy(&rows[0].payload).contains("keep me"));
}

#[test]
fn excludes_skip_matching_paths() {
    let (stats, rows) = run(
        "/tmp/excl",
        &[
            ("src/keep.md", "keep this.\n"),
            ("target/skip.md", "build artifact.\n"),
        ],
        &md(IngestOptions::default()),
    );
    assert_eq!(stats.files, 1);
    assert!(rows
        .iter()
        .all(|r| !String::from_utf8_lossy(&r.payload).contains("build artifact")));
}

#[test]
fn start_id_offsets_allocation() {
    let opts = md(IngestOptions {
        start_id: 100,
        ..Default::default()
    });
    let (stats, rows) = run("/tmp/startid", &[("x.md", "one.\n\ntwo.\n")], &opts);
    assert_eq!(
        rows.iter().map(|r| r.record_id.0).collect::<Vec<_>>(),
        vec![100, 101]
    );
    assert_eq!(stats.next_id, 102);
}

#[test]
fn dim_mismatch_is_rejected() {
    let checked = check_dims(32, DIM);
    assert!(checked.is_err(), "dim mismatch must error before inserting");
    assert_eq!(
        checked.unwrap_err().to_string(),
        "embedding dim 32 does not match tenant dim 64"
    );
    assert!(check_dims(DIM, DIM).is_ok());
}
