use ragd::chunker::{chunk_file, ChunkingConfig};
use ragd::db::{ChunkFingerprint, ChunkRecord};
use ragd::indexer::{Action, Event, FileIndexer, IndexJob};
use ragd::resource::{content_hash, IndexOutcome};
use std::collections::BTreeMap;

const CONFIG: ChunkingConfig = ChunkingConfig { chunk_lines: 2, overlap_lines: 1, max_chars: 1000 };

type Table = BTreeMap<String, ChunkRecord>;

fn extension(path: &str) -> &str {
    path.rsplit('.').next().unwrap_or_default()
}

fn rows_of<'a>(table: &'a Table, path: &str) -> Vec<&'a ChunkRecord> {
    let mut rows: Vec<&ChunkRecord> = table.values().filter(|r| r.file_path == path).collect();
    rows.sort_by_key(|r| r.chunk_index);
    rows
}

/// Indexes the files one after the other against a table. A file without a
/// text cannot be read. Gives the outcome and how many texts were embedded.
fn scan(files: &[(&str, Option<&str>)], table: &mut Table, now: &str) -> (IndexOutcome, usize) {
    let mut embedded = 0;
    let mut results = Vec::new();
    for (path, content) in files {
        let mut indexer = FileIndexer::new(IndexJob {
            resource_name: "proj".to_string(),
            file_path: path.to_string(),
            extension: extension(path).to_string(),
            config: CONFIG,
        });
        let mut event = Event::Started;
        let ok = loop {
            let (next, action) = indexer.step(event, false, now);
            indexer = next;
            event = match action {
                Action::Read => Event::Read(content.map(str::to_string)),
                Action::LookUp => {
                    let mut stored: Vec<(i32, ChunkFingerprint)> = Vec::new();
                    for row in table.values().rev().filter(|r| r.file_path == *path) {
                        stored.push((
                            row.chunk_index,
                            ChunkFingerprint {
                                content_hash: row.content_hash.clone(),
                                embedding: row.embedding.clone(),
                            },
                        ));
                    }
                    Event::Stored(Some(stored))
                }
                Action::Embed(text) => {
                    embedded += 1;
                    Event::Embedded(Some(vec![text.len() as u32]))
                }
                Action::Write(records) => {
                    table.retain(|_, row| row.file_path != *path);
                    for record in records {
                        table.insert(record.chunk_key(), record);
                    }
                    Event::Written(true)
                }
                Action::Finished(ok) => break ok,
            };
        };
        results.push(Some(ok));
    }
    (IndexOutcome::tally(&results), embedded)
}

fn check_stored(table: &Table, path: &str, content: &str) {
    let chunks = chunk_file(extension(path), content, &CONFIG);
    let rows = rows_of(table, path);
    assert_eq!(rows.len(), chunks.len(), "{path}");
    for (i, (row, chunk)) in rows.iter().zip(&chunks).enumerate() {
        assert_eq!(row.chunk_index, i as i32);
        assert_eq!(row.content, chunk.content);
        assert_eq!(row.content_hash, content_hash(&chunk.content));
        assert_eq!(row.start_line, chunk.start_line as i32);
        assert_eq!(row.end_line, chunk.end_line as i32);
    }
}

const RUST: &str = "fn a() {\n}\nfn b() {\n}\n";
const TEXT: &str = "one\ntwo\nthree\nfour\n";

#[test]
fn a_scan_stores_each_file_as_its_chunks() {
    let mut table = Table::new();
    let files = [("a.rs", Some(RUST)), ("b.md", Some(TEXT)), ("c.md", Some(""))];
    let (outcome, embedded) = scan(&files, &mut table, "now");
    assert_eq!((outcome.files_indexed, outcome.files_failed), (3, 0));
    assert_eq!(embedded, table.len());
    check_stored(&table, "a.rs", RUST);
    check_stored(&table, "b.md", TEXT);
    assert!(rows_of(&table, "c.md").is_empty());

    let edited = "one\ntwo\n";
    let files = [("a.rs", Some(RUST)), ("b.md", Some(edited)), ("c.md", Some("new\n"))];
    let (outcome, embedded) = scan(&files, &mut table, "now");
    assert_eq!(outcome.files_failed, 0);
    assert_eq!(embedded, 1);
    check_stored(&table, "a.rs", RUST);
    check_stored(&table, "b.md", edited);
    check_stored(&table, "c.md", "new\n");
}

#[test]
fn scanning_again_embeds_nothing_and_changes_only_times() {
    let mut table = Table::new();
    let files = [("a.rs", Some(RUST)), ("b.md", Some(TEXT)), ("c.md", Some("\n\n"))];
    scan(&files, &mut table, "now");
    for now in ["later", "later still"] {
        let mut expected = table.clone();
        for row in expected.values_mut() {
            row.updated_at = now.to_string();
        }
        let (outcome, embedded) = scan(&files, &mut table, now);
        assert_eq!((outcome.files_indexed, outcome.files_failed), (3, 0));
        assert_eq!(embedded, 0);
        assert_eq!(table, expected);
    }
}

#[test]
fn chunks_that_moved_are_stored_where_they_are_now() {
    let mut table = Table::new();
    scan(&[("a.rs", Some(RUST))], &mut table, "now");
    let moved = format!("\n\n{RUST}");
    let (outcome, embedded) = scan(&[("a.rs", Some(&moved))], &mut table, "now");
    assert_eq!((outcome.files_failed, embedded), (0, 0));
    check_stored(&table, "a.rs", &moved);
    assert_eq!(rows_of(&table, "a.rs")[0].start_line, 2);
}

#[test]
fn a_file_that_fails_leaves_the_others_as_they_should_be() {
    let mut table = Table::new();
    scan(&[("a.rs", Some(RUST)), ("b.md", Some(TEXT))], &mut table, "now");
    let files = [("a.rs", None), ("b.md", Some("five\n"))];
    let (outcome, embedded) = scan(&files, &mut table, "now");
    assert_eq!((outcome.files_indexed, outcome.files_failed), (1, 1));
    assert_eq!(embedded, 1);
    check_stored(&table, "a.rs", RUST);
    check_stored(&table, "b.md", "five\n");
}
