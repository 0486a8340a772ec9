//! Indexing one file, step by step: read it, look up what is stored of it,
//! embed the chunks that changed, and write the result. The decisions stand
//! here; whoever drives a [`FileIndexer`] performs its actions and reports
//! back what came of them.

use crate::chunker::{
    chunk_file, chunk_views, file_chunks, Chunk, ChunkView, ChunkingConfig,
};
use crate::db::{chunk_rows, ChunkFingerprint, ChunkRecord, ChunkRow, FingerprintView};
use crate::resource::{content_hash, hash_of};
use crate::store::fingerprint_views;
use crate::text::{opt_text, same_text};
use vstd::prelude::*;
use vstd::string::*;

verus! {

/// The file to index, and how.
#[derive(Debug, Clone)]
pub struct IndexJob {
    pub resource_name: String,
    pub file_path: String,
    pub extension: String,
    pub config: ChunkingConfig,
}

/// What an [`IndexJob`] holds.
pub struct JobView {
    pub resource_name: Seq<char>,
    pub file_path: Seq<char>,
    pub extension: Seq<char>,
    pub config: ChunkingConfig,
}

impl View for IndexJob {
    type V = JobView;

    open spec fn view(&self) -> JobView {
        JobView {
            resource_name: self.resource_name@,
            file_path: self.file_path@,
            extension: self.extension@,
            config: self.config,
        }
    }
}

/// How far the indexing of a file has come.
#[derive(Debug, Clone)]
pub enum Phase {
    /// Nothing was done yet.
    Starting,
    /// The file is being read.
    Reading,
    /// What is stored of the file is being looked up.
    LookingUp { chunks: Vec<Chunk> },
    /// The next chunk, the first without a record, is being embedded.
    Embedding {
        chunks: Vec<Chunk>,
        stored: Vec<(i32, ChunkFingerprint)>,
        records: Vec<ChunkRecord>,
    },
    /// The file's chunks are being written.
    Writing,
    /// There is no more to do.
    Done,
}

/// What a [`Phase`] holds.
pub enum PhaseView {
    Starting,
    Reading,
    LookingUp { chunks: Seq<ChunkView> },
    Embedding {
        chunks: Seq<ChunkView>,
        stored: Seq<(i32, FingerprintView)>,
        rows: Seq<ChunkRow>,
    },
    Writing,
    Done,
}

impl View for Phase {
    type V = PhaseView;

    open spec fn view(&self) -> PhaseView {
        match self {
            Phase::Starting => PhaseView::Starting,
            Phase::Reading => PhaseView::Reading,
            Phase::LookingUp { chunks } => PhaseView::LookingUp { chunks: chunk_views(chunks@) },
            Phase::Embedding { chunks, stored, records } => PhaseView::Embedding {
                chunks: chunk_views(chunks@),
                stored: fingerprint_views(stored@),
                rows: chunk_rows(records@),
            },
            Phase::Writing => PhaseView::Writing,
            Phase::Done => PhaseView::Done,
        }
    }
}

/// What came of the last action.
#[derive(Debug, Clone)]
pub enum Event {
    /// Indexing is to start.
    Started,
    /// The file's content; none if it could not be read as text.
    Read(Option<String>),
    /// The index and fingerprint of each chunk stored for the file; none if
    /// the lookup failed.
    Stored(Option<Vec<(i32, ChunkFingerprint)>>),
    /// The embedding of the chunk; none if there is none to be had.
    Embedded(Option<Vec<u32>>),
    /// Whether the chunks were written.
    Written(bool),
}

/// What an [`Event`] holds.
pub enum EventView {
    Started,
    Read(Option<Seq<char>>),
    Stored(Option<Seq<(i32, FingerprintView)>>),
    Embedded(Option<Seq<u32>>),
    Written(bool),
}

impl View for Event {
    type V = EventView;

    open spec fn view(&self) -> EventView {
        match self {
            Event::Started => EventView::Started,
            Event::Read(content) => EventView::Read(opt_text(*content)),
            Event::Stored(stored) => EventView::Stored(
                match stored {
                    Some(found) => Some(fingerprint_views(found@)),
                    None => None,
                },
            ),
            Event::Embedded(embedding) => EventView::Embedded(
                match embedding {
                    Some(vector) => Some(vector@),
                    None => None,
                },
            ),
            Event::Written(ok) => EventView::Written(*ok),
        }
    }
}

/// What is to be done next.
#[derive(Debug, Clone, PartialEq)]
pub enum Action {
    /// Read the file.
    Read,
    /// Look up the fingerprints of the chunks stored for the file.
    LookUp,
    /// Embed a text.
    Embed(String),
    /// Replace the chunks stored for the file by these.
    Write(Vec<ChunkRecord>),
    /// Nothing: the file is dealt with, as it should be or not.
    Finished(bool),
}

/// What an [`Action`] holds.
pub enum ActionView {
    Read,
    LookUp,
    Embed(Seq<char>),
    Write(Seq<ChunkRow>),
    Finished(bool),
}

impl View for Action {
    type V = ActionView;

    open spec fn view(&self) -> ActionView {
        match self {
            Action::Read => ActionView::Read,
            Action::LookUp => ActionView::LookUp,
            Action::Embed(text) => ActionView::Embed(text@),
            Action::Write(records) => ActionView::Write(chunk_rows(records@)),
            Action::Finished(ok) => ActionView::Finished(*ok),
        }
    }
}

/// Whether the chunks of a file can be numbered, each with an index of its
/// own.
pub open spec fn can_be_numbered(chunks: Seq<ChunkView>) -> bool {
    chunks.len() <= i32::MAX + 1
}

/// The row that stores a chunk of the file.
pub open spec fn row_for(
    job: JobView,
    chunk: ChunkView,
    position: int,
    embedding: Seq<u32>,
    now: Seq<char>,
) -> ChunkRow {
    ChunkRow {
        resource_name: job.resource_name,
        file_path: job.file_path,
        chunk_index: position as i32,
        content: chunk.content,
        content_hash: hash_of(chunk.content),
        start_line: chunk.start_line as i32,
        end_line: chunk.end_line as i32,
        embedding,
        updated_at: now,
    }
}

/// The stored embedding of a chunk, if one is stored under its index for the
/// same content.
pub open spec fn kept(
    stored: Seq<(i32, FingerprintView)>,
    index: i32,
    content_hash: Seq<char>,
) -> Option<Seq<u32>>
    decreases stored.len(),
{
    if stored.len() == 0 {
        None
    } else if stored[0].0 == index && stored[0].1.content_hash == content_hash {
        Some(stored[0].1.embedding)
    } else {
        kept(stored.drop_first(), index, content_hash)
    }
}

/// The stored embedding of the chunk at a position.
pub open spec fn kept_at(
    chunks: Seq<ChunkView>,
    stored: Seq<(i32, FingerprintView)>,
    position: int,
) -> Option<Seq<u32>> {
    kept(stored, position as i32, hash_of(chunks[position].content))
}

/// The rows with those added that need no new embedding, up to the first
/// chunk that does.
pub open spec fn with_kept(
    job: JobView,
    chunks: Seq<ChunkView>,
    stored: Seq<(i32, FingerprintView)>,
    rows: Seq<ChunkRow>,
    now: Seq<char>,
) -> Seq<ChunkRow>
    decreases chunks.len() - rows.len(),
{
    let n = rows.len() as int;
    if n >= chunks.len() {
        rows
    } else {
        match kept_at(chunks, stored, n) {
            Some(embedding) => with_kept(
                job,
                chunks,
                stored,
                rows.push(row_for(job, chunks[n], n, embedding, now)),
                now,
            ),
            None => rows,
        }
    }
}

/// What is next once some of the chunks have their rows: another chunk to
/// embed; else all of them to write.
pub open spec fn proceed(
    job: JobView,
    chunks: Seq<ChunkView>,
    stored: Seq<(i32, FingerprintView)>,
    rows: Seq<ChunkRow>,
    now: Seq<char>,
) -> (PhaseView, ActionView) {
    let filled = with_kept(job, chunks, stored, rows, now);
    if filled.len() < chunks.len() {
        (
            PhaseView::Embedding { chunks, stored, rows: filled },
            ActionView::Embed(chunks[filled.len() as int].content),
        )
    } else {
        (PhaseView::Writing, ActionView::Write(filled))
    }
}

/// The next phase and action. Cancellation ends the work wherever nothing was
/// written yet; so does any failure, a file of more chunks than can be
/// numbered, and an event that was not asked for.
pub open spec fn next(
    job: JobView,
    phase: PhaseView,
    event: EventView,
    cancelled: bool,
    now: Seq<char>,
) -> (PhaseView, ActionView) {
    match (phase, event) {
        (PhaseView::Writing, EventView::Written(ok)) => (
            PhaseView::Done,
            ActionView::Finished(ok),
        ),
        (PhaseView::Starting, EventView::Started) if !cancelled => (
            PhaseView::Reading,
            ActionView::Read,
        ),
        (PhaseView::Reading, EventView::Read(Some(content))) if !cancelled && can_be_numbered(
            file_chunks(job.extension, content, job.config),
        ) => (
            PhaseView::LookingUp { chunks: file_chunks(job.extension, content, job.config) },
            ActionView::LookUp,
        ),
        (PhaseView::LookingUp { chunks }, EventView::Stored(Some(stored))) if !cancelled => proceed(
            job,
            chunks,
            stored,
            seq![],
            now,
        ),
        (
            PhaseView::Embedding { chunks, stored, rows },
            EventView::Embedded(Some(embedding)),
        ) if !cancelled => proceed(
            job,
            chunks,
            stored,
            rows.push(row_for(job, chunks[rows.len() as int], rows.len() as int, embedding, now)),
            now,
        ),
        _ => (PhaseView::Done, ActionView::Finished(false)),
    }
}

/// The indexing of one file.
#[derive(Debug, Clone)]
pub struct FileIndexer {
    pub job: IndexJob,
    pub phase: Phase,
}

impl FileIndexer {
    /// Whether the phase makes sense: the chunks can be numbered, and in
    /// [`Phase::Embedding`] there is one left to embed.
    pub open spec fn wf(self) -> bool {
        match self.phase {
            Phase::LookingUp { chunks } => can_be_numbered(chunk_views(chunks@)),
            Phase::Embedding { chunks, stored, records } => records@.len() < chunks@.len()
                && can_be_numbered(chunk_views(chunks@)),
            _ => true,
        }
    }

    /// Prepares the indexing of a file.
    pub fn new(job: IndexJob) -> (r: FileIndexer)
        ensures
            r.wf(),
            r.job == job,
            r.phase == Phase::Starting,
    {
        FileIndexer { job, phase: Phase::Starting }
    }

    /// Takes in what came of the last action and gives the next one.
    /// `cancelled` says whether the work was called off meanwhile, and `now`
    /// is the time to record for what is indexed.
    pub fn step(self, event: Event, cancelled: bool, now: &str) -> (r: (FileIndexer, Action))
        requires
            self.wf(),
        ensures
            r.0.wf(),
            r.0.job == self.job,
            (r.0.phase@, r.1@) == next(self.job@, self.phase@, event@, cancelled, now@),
    {
        let FileIndexer { job, phase } = self;
        match (phase, event) {
            (Phase::Writing, Event::Written(ok)) => {
                return (FileIndexer { job, phase: Phase::Done }, Action::Finished(ok));
            },
            (Phase::Starting, Event::Started) => {
                if !cancelled {
                    return (FileIndexer { job, phase: Phase::Reading }, Action::Read);
                }
            },
            (Phase::Reading, Event::Read(Some(content))) => {
                if !cancelled {
                    let chunks = chunk_file(job.extension.as_str(), content.as_str(), &job.config);
                    if chunks.len() as u64 <= i32::MAX as u64 + 1 {
                        return (
                            FileIndexer { job, phase: Phase::LookingUp { chunks } },
                            Action::LookUp,
                        );
                    }
                }
            },
            (Phase::LookingUp { chunks }, Event::Stored(Some(stored))) => {
                if !cancelled {
                    let records: Vec<ChunkRecord> = Vec::new();
                    assert(chunk_rows(records@) =~= seq![]);
                    return go_on(job, chunks, stored, records, now);
                }
            },
            (Phase::Embedding { chunks, stored, records }, Event::Embedded(Some(embedding))) => {
                if !cancelled {
                    let mut records = records;
                    let ghost before = records@;
                    let position: usize = records.len();
                    assert(chunk_views(chunks@)[position as int] == chunks@[position as int]@);
                    let record = record_for(&job, &chunks[position], position, embedding, now);
                    records.push(record);
                    assert(chunk_rows(records@) =~= chunk_rows(before).push(record@));
                    return go_on(job, chunks, stored, records, now);
                }
            },
            _ => {},
        }
        (FileIndexer { job, phase: Phase::Done }, Action::Finished(false))
    }
}

fn record_for(
    job: &IndexJob,
    chunk: &Chunk,
    position: usize,
    embedding: Vec<u32>,
    now: &str,
) -> (r: ChunkRecord)
    requires
        position <= i32::MAX,
    ensures
        r@ == row_for(job@, chunk@, position as int, embedding@, now@),
{
    ChunkRecord {
        resource_name: job.resource_name.clone(),
        file_path: job.file_path.clone(),
        chunk_index: position as i32,
        content: chunk.content.clone(),
        content_hash: content_hash(chunk.content.as_str()),
        start_line: chunk.start_line as i32,
        end_line: chunk.end_line as i32,
        embedding,
        updated_at: now.to_owned(),
    }
}

fn kept_embedding(
    stored: &Vec<(i32, ChunkFingerprint)>,
    index: i32,
    hash: &str,
) -> (r: Option<Vec<u32>>)
    ensures
        match kept(fingerprint_views(stored@), index, hash@) {
            Some(embedding) => r matches Some(vector) && vector@ == embedding,
            None => r is None,
        },
{
    let ghost all = fingerprint_views(stored@);
    assert(all.skip(0) =~= all);
    for i in 0..stored.len()
        invariant
            all == fingerprint_views(stored@),
            kept(all, index, hash@) == kept(all.skip(i as int), index, hash@),
    {
        proof {
            let rest = all.skip(i as int);
            assert(rest[0] == (stored@[i as int].0, stored@[i as int].1@));
            assert(rest.drop_first() =~= all.skip(i + 1));
        }
        if stored[i].0 == index && same_text(stored[i].1.content_hash.as_str(), hash) {
            let vector = stored[i].1.embedding.clone();
            assert(vector@ =~= stored@[i as int].1@.embedding);
            return Some(vector);
        }
    }
    None
}

fn go_on(
    job: IndexJob,
    chunks: Vec<Chunk>,
    stored: Vec<(i32, ChunkFingerprint)>,
    records: Vec<ChunkRecord>,
    now: &str,
) -> (r: (FileIndexer, Action))
    requires
        records@.len() <= chunks@.len(),
        can_be_numbered(chunk_views(chunks@)),
    ensures
        r.0.wf(),
        r.0.job == job,
        (r.0.phase@, r.1@) == proceed(
            job@,
            chunk_views(chunks@),
            fingerprint_views(stored@),
            chunk_rows(records@),
            now@,
        ),
{
    let mut records = records;
    let ghost views = chunk_views(chunks@);
    let ghost found = fingerprint_views(stored@);
    let ghost rows = chunk_rows(records@);
    #[verifier::loop_isolation(false)]
    while records.len() < chunks.len()
        invariant
            records@.len() <= chunks@.len(),
            views == chunk_views(chunks@),
            found == fingerprint_views(stored@),
            with_kept(job@, views, found, rows, now@) == with_kept(
                job@,
                views,
                found,
                chunk_rows(records@),
                now@,
            ),
        decreases chunks@.len() - records@.len(),
    {
        let position: usize = records.len();
        assert(views[position as int] == chunks@[position as int]@);
        let hash = content_hash(chunks[position].content.as_str());
        match kept_embedding(&stored, position as i32, hash.as_str()) {
            Some(embedding) => {
                let ghost before = records@;
                let record = record_for(&job, &chunks[position], position, embedding, now);
                records.push(record);
                assert(chunk_rows(records@) =~= chunk_rows(before).push(record@));
            },
            None => {
                assert(kept_at(views, found, position as int) is None);
                assert(with_kept(job@, views, found, rows, now@) == chunk_rows(records@));
                let text = chunks[position].content.clone();
                return (
                    FileIndexer { job, phase: Phase::Embedding { chunks, stored, records } },
                    Action::Embed(text),
                );
            },
        }
    }
    (FileIndexer { job, phase: Phase::Writing }, Action::Write(records))
}

} // verus!
