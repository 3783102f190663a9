use skeg_rigging::ids::RecordId;
use skeg_rigging::ingest::{
    accepts, check_dims, plan_file, relpath, watch_should_ingest, IngestError, IngestOptions,
    IngestStats, WATCH_DEBOUNCE_MS,
};

fn md_opts() -> IngestOptions {
    IngestOptions {
        exts: vec!["md".into()],
        ..Default::default()
    }
}

#[test]
fn default_options() {
    let o = IngestOptions::default();
    assert!(o.exts.is_empty());
    assert_eq!(
        o.excludes,
        vec!["/.git/", "/target/", "/node_modules/", "/.venv/", "/dist/"]
    );
    assert!(!o.shareable);
    assert!(o.tags.is_empty());
    assert_eq!(o.start_id, 0);
}

#[test]
fn plan_counts_ids_tags_and_payloads() {
    let text = "first paragraph here.\n\nsecond paragraph here.\n";
    let opts = IngestOptions {
        exts: vec!["md".into()],
        tags: vec!["corpus".into()],
        shareable: true,
        ..Default::default()
    };
    let plan = plan_file(text, "md", "a.md", &opts, 100).unwrap();
    assert_eq!(plan.records.len(), 2);
    assert_eq!(plan.next_id, 102);
    assert_eq!(plan.records[0].record_id, RecordId(100));
    assert_eq!(plan.records[1].record_id, RecordId(101));
    assert_eq!(plan.records[0].text, "first paragraph here.");
    assert_eq!(plan.records[1].payload, b"second paragraph here.".to_vec());
    assert_eq!(plan.records[0].tags, vec!["corpus", "src:a.md:1-1"]);
    assert_eq!(plan.records[1].tags, vec!["corpus", "src:a.md:3-3"]);
    assert_eq!(plan.records[0].words, 3);
}

#[test]
fn plan_code_uses_line_windows() {
    let text = (1..=50)
        .map(|n| format!("line {n}"))
        .collect::<Vec<_>>()
        .join("\n");
    let plan = plan_file(&text, "rs", "src/x.rs", &IngestOptions::default(), 0).unwrap();
    let tags: Vec<String> = plan.records.iter().map(|r| r.tags[0].clone()).collect();
    assert_eq!(tags, vec!["src:src/x.rs:1-40", "src:src/x.rs:31-50"]);
    assert_eq!(plan.next_id, 2);
}

#[test]
fn stats_accumulate() {
    let mut stats = IngestStats {
        next_id: 5,
        ..Default::default()
    };
    let plan = plan_file("one.\n\ntwo three.\n", "md", "x.md", &md_opts(), 5).unwrap();
    assert!(stats.fits(&plan));
    stats.add_file(&plan);
    assert_eq!((stats.files, stats.chunks, stats.words, stats.next_id), (1, 2, 3, 7));
    let plan2 = plan_file("lonely paragraph.\n", "md", "b.md", &md_opts(), stats.next_id).unwrap();
    stats.add_file(&plan2);
    assert_eq!((stats.files, stats.chunks, stats.words, stats.next_id), (2, 3, 5, 8));
    let full = IngestStats {
        words: usize::MAX,
        ..Default::default()
    };
    assert!(!full.fits(&plan));
}

#[test]
fn accepts_applies_excludes_then_exts() {
    let opts = md_opts();
    assert!(accepts("/r/src/keep.md", Some("md"), &opts));
    assert!(!accepts("/r/target/skip.md", Some("md"), &opts));
    assert!(!accepts("/r/skip.rs", Some("rs"), &opts));
    assert!(!accepts("/r/README", None, &opts));
    let all = IngestOptions::default();
    assert!(accepts("/r/README", None, &all));
    assert!(!accepts("/r/.git/config", None, &all));
}

#[test]
fn relpath_falls_back() {
    assert_eq!(relpath(Some("a/b.md"), Some("b.md"), "/r/a/b.md"), "a/b.md");
    assert_eq!(relpath(None, Some("b.md"), "/r/a/b.md"), "b.md");
    assert_eq!(relpath(None, None, "/"), "/");
}

#[test]
fn relpath_of_root_file_is_its_name() {
    // Ingesting a single file: the root is the file, nothing is left after
    // stripping it, and the tag names the file.
    assert_eq!(relpath(Some(""), Some("x.md"), "/d/x.md"), "x.md");
    assert_eq!(relpath(Some(""), None, "/d/x.md"), "/d/x.md");
}

#[test]
fn dim_check_message() {
    let e = check_dims(32, 64).unwrap_err();
    assert_eq!(e, IngestError::DimMismatch { embed: 32, tenant: 64 });
    assert_eq!(e.to_string(), "embedding dim 32 does not match tenant dim 64");
    assert!(check_dims(64, 64).is_ok());
}

#[test]
fn watch_debounces_repeated_changes() {
    assert_eq!(WATCH_DEBOUNCE_MS, 800);
    // First change to an accepted file: ingest.
    assert!(watch_should_ingest(true, true, true, None));
    // Another event from the same save, 5 ms later: skipped.
    assert!(!watch_should_ingest(true, true, true, Some(5)));
    assert!(!watch_should_ingest(true, true, true, Some(799)));
    // A later edit, past the window: ingest again.
    assert!(watch_should_ingest(true, true, true, Some(800)));
    // Removals, directories and filtered files are never ingested.
    assert!(!watch_should_ingest(false, true, true, None));
    assert!(!watch_should_ingest(true, false, true, None));
    assert!(!watch_should_ingest(true, true, false, None));
}

#[test]
fn plan_refuses_ids_past_the_end() {
    let opts = md_opts();
    assert!(plan_file("one.\n\ntwo.\n", "md", "x.md", &opts, u64::MAX - 1).is_none());
    let last = plan_file("one.\n\ntwo.\n", "md", "x.md", &opts, u64::MAX - 2).unwrap();
    assert_eq!(last.next_id, u64::MAX);
}

#[test]
fn ids_stay_fresh_after_a_file_fails_part_way() {
    let mut stats = IngestStats {
        next_id: 10,
        ..Default::default()
    };
    let plan = plan_file("one.\n\ntwo.\n\nthree.\n", "md", "a.md", &md_opts(), stats.next_id).unwrap();
    // Two of the three records were written before the file failed.
    for rec in &plan.records[..2] {
        assert!(stats.fits_record(rec));
        stats.add_record(rec);
    }
    assert_eq!((stats.files, stats.chunks, stats.next_id), (0, 2, 12));
    let next = plan_file("four.\n", "md", "b.md", &md_opts(), stats.next_id).unwrap();
    assert_eq!(next.records[0].record_id, RecordId(12));
    stats.add_record(&next.records[0]);
    stats.count_file();
    assert_eq!((stats.files, stats.chunks, stats.words, stats.next_id), (1, 3, 3, 13));
}
