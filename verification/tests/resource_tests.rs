use ragd::chunker::ChunkingConfig;
use ragd::db::{ChunkFingerprint, ChunkRecord, IndexingStatus, ResourceRecord, ResourceStatus};
use ragd::error::RagdError;
use ragd::indexer::{Action, Event, FileIndexer, IndexJob};
use ragd::resource::{
    content_hash, finish_indexing, indexable_extension, is_lockfile, scan_entry, start_indexing,
    uri_to_path, worker_count, IndexOutcome, ScanStep,
};
use std::hash::{Hash, Hasher};

fn job(extension: &str) -> IndexJob {
    IndexJob {
        resource_name: "proj".to_string(),
        file_path: format!("/tmp/proj/a.{extension}"),
        extension: extension.to_string(),
        config: ChunkingConfig { chunk_lines: 1, overlap_lines: 0, max_chars: 1000 },
    }
}

fn fingerprints(records: &[ChunkRecord]) -> Vec<(i32, ChunkFingerprint)> {
    records
        .iter()
        .map(|r| {
            (
                r.chunk_index,
                ChunkFingerprint {
                    content_hash: r.content_hash.clone(),
                    embedding: r.embedding.clone(),
                },
            )
        })
        .collect()
}

/// Drives an indexer against a file and what is stored of it. Gives the texts
/// that were embedded, what was written, and the result.
fn run(
    content: &str,
    stored: &[ChunkRecord],
) -> (Vec<String>, Option<Vec<ChunkRecord>>, bool) {
    let mut embedded = Vec::new();
    let mut written = None;
    let mut indexer = FileIndexer::new(job("md"));
    let mut event = Event::Started;
    loop {
        let (next, action) = indexer.step(event, false, "now");
        indexer = next;
        event = match action {
            Action::Read => Event::Read(Some(content.to_string())),
            Action::LookUp => Event::Stored(Some(fingerprints(stored))),
            Action::Embed(text) => {
                let vector = vec![text.len() as u32];
                embedded.push(text);
                Event::Embedded(Some(vector))
            }
            Action::Write(records) => {
                written = Some(records);
                Event::Written(true)
            }
            Action::Finished(ok) => return (embedded, written, ok),
        };
    }
}

#[test]
fn indexing_embeds_and_writes_every_chunk() {
    let (embedded, written, ok) = run("one\ntwo\n", &[]);
    assert!(ok);
    assert_eq!(embedded, vec!["one".to_string(), "two".to_string()]);
    let written = written.expect("written");
    assert_eq!(written.len(), 2);
    assert_eq!(
        written[1],
        ChunkRecord {
            resource_name: "proj".to_string(),
            file_path: "/tmp/proj/a.md".to_string(),
            chunk_index: 1,
            content: "two".to_string(),
            content_hash: content_hash("two"),
            start_line: 1,
            end_line: 1,
            embedding: vec![3],
            updated_at: "now".to_string(),
        }
    );
}

#[test]
fn unchanged_content_is_not_embedded_again() {
    let (_, written, _) = run("one\ntwo\n", &[]);
    let first = written.expect("written");
    let mut stored = first.clone();
    stored.reverse();
    let (embedded, written, ok) = run("one\ntwo\n", &stored);
    assert!(ok);
    assert!(embedded.is_empty());
    assert_eq!(written, Some(first));
}

#[test]
fn a_chunk_that_moved_is_stored_where_it_is_now() {
    let job = || IndexJob {
        config: ChunkingConfig { chunk_lines: 2, overlap_lines: 0, max_chars: 1000 },
        ..job("rs")
    };
    let chunks_of = |content: &str, stored: &[ChunkRecord]| {
        let (indexer, _) = FileIndexer::new(job()).step(Event::Started, false, "now");
        let (indexer, _) = indexer.step(Event::Read(Some(content.to_string())), false, "now");
        let (indexer, action) =
            indexer.step(Event::Stored(Some(fingerprints(stored))), false, "now");
        match action {
            Action::Embed(_) => indexer.step(Event::Embedded(Some(vec![7])), false, "now").1,
            other => other,
        }
    };
    let Action::Write(first) = chunks_of("fn a() {\n}\n", &[]) else { panic!("not written") };
    assert_eq!(first.len(), 1);
    assert_eq!((first[0].start_line, first[0].end_line), (0, 1));
    // The same chunk, one line further down: nothing is embedded.
    let Action::Write(moved) = chunks_of("\nfn a() {\n}\n", &first) else {
        panic!("not written")
    };
    assert_eq!(moved.len(), 1);
    assert_eq!((moved[0].start_line, moved[0].end_line), (1, 2));
    assert_eq!(moved[0].content, first[0].content);
    assert_eq!(moved[0].embedding, vec![7]);
}

#[test]
fn only_the_changed_chunk_is_embedded_again() {
    let (_, written, _) = run("one\ntwo\nthree\n", &[]);
    let stored = written.expect("written");
    let (embedded, written, ok) = run("one\nother\nthree\n", &stored);
    assert!(ok);
    assert_eq!(embedded, vec!["other".to_string()]);
    let written = written.expect("written");
    assert_eq!(written.len(), 3);
    assert_eq!(written[0].embedding, stored[0].embedding);
    assert_eq!(written[1].content, "other");
    assert_eq!(written[2].content_hash, stored[2].content_hash);
}

#[test]
fn a_shorter_file_is_written_without_embedding() {
    let (_, written, _) = run("one\ntwo\n", &[]);
    let stored = written.expect("written");
    let (embedded, written, ok) = run("one\n", &stored);
    assert!(ok);
    assert!(embedded.is_empty());
    assert_eq!(written.expect("written").len(), 1);
}

#[test]
fn an_empty_file_prunes_what_is_stored() {
    let (embedded, written, ok) = run("", &[]);
    assert_eq!((embedded.len(), written, ok), (0, Some(Vec::new()), true));
    let (_, stored, _) = run("one\n", &[]);
    let (embedded, written, ok) = run("", &stored.expect("written"));
    assert_eq!((embedded.len(), written, ok), (0, Some(Vec::new()), true));
}

#[test]
fn cancellation_stops_before_anything_is_written() {
    let (_, action) = FileIndexer::new(job("md")).step(Event::Started, true, "now");
    assert_eq!(action, Action::Finished(false));

    let (indexer, action) = FileIndexer::new(job("md")).step(Event::Started, false, "now");
    assert_eq!(action, Action::Read);
    let (indexer, action) = indexer.step(Event::Read(Some("one".to_string())), false, "now");
    assert_eq!(action, Action::LookUp);
    let (indexer, action) = indexer.step(Event::Stored(Some(Vec::new())), false, "now");
    assert_eq!(action, Action::Embed("one".to_string()));
    let (_, action) = indexer.clone().step(Event::Embedded(Some(vec![1])), true, "now");
    assert_eq!(action, Action::Finished(false));

    // What is already being written is reported as it comes out.
    let (indexer, action) = indexer.step(Event::Embedded(Some(vec![1])), false, "now");
    assert!(matches!(action, Action::Write(_)));
    let (_, action) = indexer.step(Event::Written(true), true, "now");
    assert_eq!(action, Action::Finished(true));
}

#[test]
fn failures_end_the_work() {
    let start = || FileIndexer::new(job("md")).step(Event::Started, false, "now").0;
    let read = || start().step(Event::Read(Some("one".to_string())), false, "now").0;
    let looked_up = || read().step(Event::Stored(Some(Vec::new())), false, "now").0;
    let embedded = || looked_up().step(Event::Embedded(Some(vec![1])), false, "now").0;
    let failed = Action::Finished(false);
    assert_eq!(start().step(Event::Read(None), false, "now").1, failed);
    assert_eq!(read().step(Event::Stored(None), false, "now").1, failed);
    assert_eq!(looked_up().step(Event::Embedded(None), false, "now").1, failed);
    assert_eq!(embedded().step(Event::Written(false), false, "now").1, failed);
    assert_eq!(start().step(Event::Written(true), false, "now").1, failed);
}

#[test]
fn any_text_can_be_indexed() {
    for text in ["", "\n", "/// doc\n", "fn a() {", "\u{e9}\r\n"] {
        let (indexer, _) = FileIndexer::new(job("rs")).step(Event::Started, false, "now");
        let (_, action) = indexer.step(Event::Read(Some(text.to_string())), false, "now");
        assert_eq!(action, Action::LookUp, "{text:?}");
    }
}

#[test]
fn content_hash_is_the_hash_of_the_text() {
    for text in ["", "fn a() {}", "caf\u{e9}\n", "a much longer text that fills several blocks"] {
        let mut hasher = std::collections::hash_map::DefaultHasher::new();
        text.hash(&mut hasher);
        assert_eq!(content_hash(text), format!("{:x}", hasher.finish()));
    }
    assert_ne!(content_hash("a"), content_hash("b"));
}

#[test]
fn extensions_follow_the_last_full_stop() {
    let cases = [
        ("a.rs", Some("rs")),
        ("archive.tar.gz", None),
        ("notes.tar.md", Some("md")),
        (".gitignore", None),
        (".config.toml", Some("toml")),
        ("Makefile", None),
        ("logo.PNG", None),
        ("a.", Some("")),
        ("", None),
        (".", None),
        ("..", None),
        ("...", Some("")),
    ];
    for (name, expected) in cases {
        assert_eq!(indexable_extension(name).as_deref(), expected, "{name}");
        let path = std::path::Path::new(name);
        if path.file_name().is_some() && expected.is_some() {
            assert_eq!(path.extension().and_then(|e| e.to_str()), expected, "{name}");
        }
    }
}

#[test]
fn lockfiles_are_skipped() {
    for name in ["Cargo.lock", "package-lock.json", "yarn.lock", "poetry.lock", "go.sum"] {
        assert!(is_lockfile(name), "{name}");
        assert_eq!(indexable_extension(name), None, "{name}");
    }
    assert!(!is_lockfile("package.json"));
    assert_eq!(indexable_extension("package.json").as_deref(), Some("json"));
    assert_eq!(indexable_extension("unlock.lock").as_deref(), Some("lock"));
}

#[test]
fn a_scan_takes_text_files_and_skips_the_rest() {
    let step = |name: &str| scan_entry(false, true, &Some(name.to_string()));
    assert_eq!(step("a.rs"), ScanStep::Index("rs".to_string()));
    assert_eq!(step("b.md"), ScanStep::Index("md".to_string()));
    assert_eq!(step("logo.png"), ScanStep::Skip);
    assert_eq!(scan_entry(false, false, &Some("dir.rs".to_string())), ScanStep::Skip);
    assert_eq!(scan_entry(false, true, &None), ScanStep::Skip);
}

#[test]
fn a_cancelled_scan_stops_at_once() {
    assert_eq!(scan_entry(true, true, &Some("a.rs".to_string())), ScanStep::Stop);
}

#[test]
fn outcomes_count_every_file_once() {
    let results = vec![Some(true), Some(false), None, Some(true)];
    let outcome = IndexOutcome::tally(&results);
    assert_eq!(outcome, IndexOutcome { files_indexed: 2, files_failed: 2 });
    assert_eq!(IndexOutcome::tally(&Vec::new()), IndexOutcome::default());
    assert_eq!(worker_count(0), 1);
    assert_eq!(worker_count(4), 4);
}

#[test]
fn uris_name_local_directories() {
    assert_eq!(uri_to_path("file:///tmp/proj/").expect("path"), "/tmp/proj/");
    assert_eq!(uri_to_path("file:///").expect("path"), "/");
    for uri in ["http://example.com/", "/tmp/proj", "file://", "file://host/x", "FILE:///x", ""] {
        let error = uri_to_path(uri).expect_err("no file URI");
        assert_eq!(error.http_status(), 400);
        assert!(matches!(
            error,
            RagdError::Config(m) if m == format!("uri `{uri}` is not a file:// URI of a local directory")
        ));
    }
}

#[test]
fn resources_move_through_their_lifecycle() {
    let resource = ResourceRecord {
        uri: "file:///tmp/proj/".to_string(),
        name: "proj".to_string(),
        status: ResourceStatus::Active,
        indexing_status: IndexingStatus::Pending,
        indexing_status_message: None,
        created_at: "t0".to_string(),
        indexing_started_at: None,
        last_indexed_at: None,
        last_error: Some("before".to_string()),
    };
    let during = start_indexing(resource, "t1");
    assert_eq!(during.indexing_status, IndexingStatus::Indexing);
    assert_eq!(during.indexing_started_at.as_deref(), Some("t1"));

    let all = IndexOutcome { files_indexed: 3, files_failed: 0 };
    let done = finish_indexing(during.clone(), all, "t2");
    assert_eq!(done.indexing_status, IndexingStatus::Indexed);
    assert_eq!(done.last_indexed_at.as_deref(), Some("t2"));
    assert_eq!(done.last_error, None);
    assert_eq!(done.created_at, "t0");

    let some = IndexOutcome { files_indexed: 3, files_failed: 12 };
    let done = finish_indexing(during.clone(), some, "t2");
    assert_eq!(done.indexing_status, IndexingStatus::Indexed);
    assert_eq!(done.last_error.as_deref(), Some("12 file(s) could not be indexed"));

    let none = IndexOutcome { files_indexed: 0, files_failed: 1 };
    let done = finish_indexing(during, none, "t2");
    assert_eq!(done.indexing_status, IndexingStatus::Failed);
    assert_eq!(done.last_indexed_at, None);
    assert_eq!(done.last_error.as_deref(), Some("1 file(s) could not be indexed"));
}

#[test]
fn indexing_again_neither_duplicates_nor_orphans_chunks() {
    let content = "# one\n# two\n";
    let (_, first, _) = run(content, &[]);
    let first = first.expect("first run writes");
    let (embedded, second, ok) = run(content, &first);
    assert!(ok);
    assert!(embedded.is_empty());
    assert_eq!(second.as_ref(), Some(&first));

    // An edit replaces the chunk set as a whole.
    let (_, third, _) = run("# edited\n", &first);
    let third = third.expect("the edit is written");
    assert_eq!(third.len(), 1);
    assert_eq!(third[0].content, "# edited");
    assert_eq!(third[0].chunk_index, 0);
}
