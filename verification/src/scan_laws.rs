//! What holds of whole runs of the indexer, on one file and over a resource:
//! a file that was indexed is stored as exactly its chunks, and indexing it
//! again while it stays the same embeds nothing.

use crate::chunker::{file_chunks, ChunkView};
use crate::db::{key_of, ChunkRow, FingerprintView};
use crate::db_laws::{
    has_key, in_scope, keyed, law_merge_replaces_exactly_one_file, lemma_key_parts, merged, row_of,
    Table,
};
use crate::index_laws::{
    fingerprint_of, law_stored_chunks_are_not_embedded, lemma_kept_found,
    lemma_rows_are_chunk_set, lemma_with_kept, lists_file, phase_ok, store_first, stores,
};
use crate::indexer::{
    can_be_numbered, kept, kept_at, next, proceed, row_for, with_kept, ActionView, EventView,
    JobView, PhaseView,
};
use crate::resource::{hash_of, successes};
use vstd::prelude::*;

verus! {

/// One step of a run: what came of the action, whether the work had been
/// called off by then, and the time.
pub struct Step {
    pub event: EventView,
    pub cancelled: bool,
    pub now: Seq<char>,
}

/// The run of the indexer on one file: the file's job and its text, which
/// vectors the model gives for which texts, and the steps, the first of which
/// starts the run.
pub struct FileRun {
    pub job: JobView,
    pub content: Seq<char>,
    pub model: spec_fn(Seq<char>, Seq<u32>) -> bool,
    pub steps: Seq<Step>,
}

impl FileRun {
    /// The chunks of the file.
    pub open spec fn chunks(self) -> Seq<ChunkView> {
        file_chunks(self.job.extension, self.content, self.job.config)
    }
}

/// What the store holds once an action came to an event: a write that was
/// done has merged its rows.
pub open spec fn store_after(
    job: JobView,
    action: ActionView,
    event: EventView,
    table: Table,
) -> Table {
    match (action, event) {
        (ActionView::Write(rows), EventView::Written(true)) => merged(
            table,
            rows,
            job.resource_name,
            job.file_path,
        ),
        _ => table,
    }
}

/// How a run ends that has come to a phase and an action, and what the store
/// holds then. A run whose steps end too early gives no result.
pub open spec fn outcome(
    job: JobView,
    state: (PhaseView, ActionView),
    steps: Seq<Step>,
    table: Table,
) -> (Option<bool>, Table)
    decreases steps.len(),
{
    match state.1 {
        ActionView::Finished(ok) => (Some(ok), table),
        _ => if steps.len() == 0 {
            (None, table)
        } else {
            let step = steps[0];
            outcome(
                job,
                next(job, state.0, step.event, step.cancelled, step.now),
                steps.drop_first(),
                store_after(job, state.1, step.event, table),
            )
        },
    }
}

/// How many texts the rest of a run asks to embed.
pub open spec fn embeddings(
    job: JobView,
    state: (PhaseView, ActionView),
    steps: Seq<Step>,
) -> nat
    decreases steps.len(),
{
    let asked: nat = if state.1 is Embed {
        1
    } else {
        0
    };
    if state.1 is Finished || steps.len() == 0 {
        asked
    } else {
        let step = steps[0];
        asked + embeddings(
            job,
            next(job, state.0, step.event, step.cancelled, step.now),
            steps.drop_first(),
        )
    }
}

/// Whether an event tells the truth: a text that was read is the file's, what
/// was found stored of the file is what the store holds of it, and an
/// embedding is one that the model gives for the text.
pub open spec fn is_true(
    run: FileRun,
    action: ActionView,
    event: EventView,
    table: Table,
) -> bool {
    match (action, event) {
        (ActionView::Read, EventView::Read(Some(text))) => text == run.content,
        (ActionView::LookUp, EventView::Stored(Some(stored))) => lists_file(
            stored,
            table,
            run.job.resource_name,
            run.job.file_path,
        ),
        (ActionView::Embed(text), EventView::Embedded(Some(vector))) => (run.model)(text, vector),
        _ => true,
    }
}

/// Whether every event of the rest of a run tells the truth.
pub open spec fn all_true(
    run: FileRun,
    state: (PhaseView, ActionView),
    steps: Seq<Step>,
    table: Table,
) -> bool
    decreases steps.len(),
{
    state.1 is Finished || steps.len() == 0 || {
        let step = steps[0];
        &&& is_true(run, state.1, step.event, table)
        &&& all_true(
            run,
            next(run.job, state.0, step.event, step.cancelled, step.now),
            steps.drop_first(),
            store_after(run.job, state.1, step.event, table),
        )
    }
}

/// Where a run stands after its first step.
pub open spec fn started(run: FileRun) -> (PhaseView, ActionView) {
    next(
        run.job,
        PhaseView::Starting,
        EventView::Started,
        run.steps[0].cancelled,
        run.steps[0].now,
    )
}

/// How a run ends, and what the store holds then.
pub open spec fn indexed(run: FileRun, table: Table) -> (Option<bool>, Table) {
    if run.steps.len() == 0 {
        (None, table)
    } else {
        outcome(run.job, started(run), run.steps.drop_first(), table)
    }
}

/// Whether every event of a run tells the truth of the file, the store and the
/// model.
pub open spec fn is_truthful(run: FileRun, table: Table) -> bool {
    run.steps.len() > 0 ==> all_true(run, started(run), run.steps.drop_first(), table)
}

/// Whether a row holds a chunk of a file: its index, content, fingerprint and
/// line bounds.
pub open spec fn holds_chunk(row: ChunkRow, job: JobView, chunk: ChunkView, i: int) -> bool {
    &&& in_scope(row, job.resource_name, job.file_path)
    &&& row.chunk_index == i
    &&& row.content == chunk.content
    &&& row.content_hash == hash_of(chunk.content)
    &&& row.start_line == chunk.start_line as i32
    &&& row.end_line == chunk.end_line as i32
}

/// Whether a store holds for a file just one row for each chunk, with the
/// indices from zero, each as its chunk is.
pub open spec fn lists_chunks(table: Table, job: JobView, chunks: Seq<ChunkView>) -> bool {
    &&& forall|i: int|
        0 <= i < chunks.len() ==> {
            let key = #[trigger] key_of(job.resource_name, job.file_path, i);
            table.dom().contains(key) && holds_chunk(table[key], job, chunks[i], i)
        }
    &&& forall|k: Seq<char>| #[trigger]
        table.dom().contains(k) && in_scope(table[k], job.resource_name, job.file_path) ==> 0
            <= table[k].chunk_index < chunks.len()
}

/// Whether what a store holds for a file can stand in for the model: each row
/// carries the fingerprint of its own content and a vector that the model
/// gives for it, and no chunk of the file has that fingerprint with another
/// content.
pub open spec fn can_stand_in(run: FileRun, table: Table) -> bool {
    forall|k: Seq<char>| #[trigger]
        table.dom().contains(k) && in_scope(table[k], run.job.resource_name, run.job.file_path)
            ==> {
            &&& table[k].content_hash == hash_of(table[k].content)
            &&& (run.model)(table[k].content, table[k].embedding)
            &&& forall|i: int|
                0 <= i < run.chunks().len() && hash_of(#[trigger] run.chunks()[i].content)
                    == table[k].content_hash ==> run.chunks()[i].content == table[k].content
        }
}

/// Whether each row holds a vector that the model gives for its content.
pub open spec fn are_embedded(run: FileRun, rows: Seq<ChunkRow>) -> bool {
    forall|i: int|
        0 <= i < rows.len() ==> (run.model)((#[trigger] rows[i]).content, rows[i].embedding)
}

/// Whether rows are what a run may write: one for each chunk of the file, each
/// with a vector that the model gives for it, as far as the store can stand in
/// for the model.
pub open spec fn are_rows_of(run: FileRun, table: Table, rows: Seq<ChunkRow>) -> bool {
    &&& store_first(run.job, run.chunks(), rows)
    &&& can_stand_in(run, table) ==> are_embedded(run, rows)
}

/// Whether a store results from another by putting rows for all the chunks of
/// a file in place of what it held of the file.
pub open spec fn replaces_file(run: FileRun, before: Table, after: Table) -> bool {
    &&& can_be_numbered(run.chunks())
    &&& exists|rows: Seq<ChunkRow>|
        {
            &&& #[trigger] are_rows_of(run, before, rows)
            &&& rows.len() == run.chunks().len()
            &&& after == merged(before, rows, run.job.resource_name, run.job.file_path)
        }
}

/// What a run knows once it has come to a phase and an action.
spec fn is_on_track(run: FileRun, state: (PhaseView, ActionView), table: Table) -> bool {
    match state.0 {
        PhaseView::Starting => false,
        PhaseView::Reading => state.1 is Read,
        PhaseView::LookingUp { chunks } => {
            &&& state.1 is LookUp
            &&& chunks == run.chunks()
            &&& can_be_numbered(chunks)
        },
        PhaseView::Embedding { chunks, stored, rows } => {
            &&& chunks == run.chunks()
            &&& phase_ok(run.job, state.0)
            &&& state.1 == ActionView::Embed(chunks[rows.len() as int].content)
            &&& are_rows_of(run, table, rows)
            &&& lists_file(stored, table, run.job.resource_name, run.job.file_path)
        },
        PhaseView::Writing => {
            &&& state.1 is Write
            &&& can_be_numbered(run.chunks())
            &&& are_rows_of(run, table, state.1->Write_0)
            &&& state.1->Write_0.len() == run.chunks().len()
        },
        PhaseView::Done => state.1 == ActionView::Finished(false),
    }
}

proof fn lemma_kept_is_stored(
    stored: Seq<(i32, FingerprintView)>,
    index: i32,
    hash: Seq<char>,
) -> (j: int)
    requires
        kept(stored, index, hash) is Some,
    ensures
        0 <= j < stored.len(),
        stored[j].0 == index,
        stored[j].1.content_hash == hash,
        kept(stored, index, hash) == Some(stored[j].1.embedding),
    decreases stored.len(),
{
    if stored[0].0 == index && stored[0].1.content_hash == hash {
        0
    } else {
        let rest = stored.drop_first();
        let j = lemma_kept_is_stored(rest, index, hash);
        assert(stored[j + 1] == rest[j]);
        j + 1
    }
}

proof fn lemma_filled_rows(
    run: FileRun,
    stored: Seq<(i32, FingerprintView)>,
    rows: Seq<ChunkRow>,
    now: Seq<char>,
    table: Table,
)
    requires
        can_be_numbered(run.chunks()),
        are_rows_of(run, table, rows),
        lists_file(stored, table, run.job.resource_name, run.job.file_path),
    ensures
        is_on_track(run, proceed(run.job, run.chunks(), stored, rows, now), table),
{
    let chunks = run.chunks();
    let (name, path) = (run.job.resource_name, run.job.file_path);
    let filled = with_kept(run.job, chunks, stored, rows, now);
    lemma_with_kept(run.job, chunks, stored, rows, now);
    if can_stand_in(run, table) {
        assert forall|i: int| 0 <= i < filled.len() implies (run.model)(
            (#[trigger] filled[i]).content,
            filled[i].embedding,
        ) by {
            if i < rows.len() {
                assert(filled[i] == filled.take(rows.len() as int)[i]);
            } else {
                assert(kept_at(chunks, stored, i) is Some);
                let j = lemma_kept_is_stored(stored, i as i32, hash_of(chunks[i].content));
                let k = choose|k: Seq<char>|
                    {
                        &&& #[trigger] table.dom().contains(k)
                        &&& in_scope(table[k], name, path)
                        &&& fingerprint_of(table[k]) == stored[j]
                    };
                assert(table[k].content_hash == hash_of(chunks[i].content));
            }
        }
    }
    assert(are_rows_of(run, table, filled));
}

proof fn lemma_run(
    run: FileRun,
    state: (PhaseView, ActionView),
    steps: Seq<Step>,
    table: Table,
)
    requires
        is_on_track(run, state, table),
        all_true(run, state, steps, table),
    ensures
        ({
            let (ok, after) = outcome(run.job, state, steps, table);
            if ok == Some(true) {
                replaces_file(run, table, after)
            } else {
                after == table
            }
        }),
    decreases steps.len(),
{
    if !(state.1 is Finished) && steps.len() > 0 {
        let step = steps[0];
        let job = run.job;
        let then = next(job, state.0, step.event, step.cancelled, step.now);
        let after = store_after(job, state.1, step.event, table);
        match (state.0, step.event) {
            (PhaseView::Writing, EventView::Written(ok)) => {
                assert(are_rows_of(run, table, state.1->Write_0));
                assert(outcome(job, then, steps.drop_first(), after) == (Some(ok), after));
            },
            (PhaseView::LookingUp { chunks }, EventView::Stored(Some(stored)))
                if !step.cancelled => {
                lemma_filled_rows(run, stored, seq![], step.now, table);
                lemma_run(run, then, steps.drop_first(), table);
            },
            (
                PhaseView::Embedding { chunks, stored, rows },
                EventView::Embedded(Some(embedding)),
            ) if !step.cancelled => {
                let n = rows.len() as int;
                let row = row_for(job, chunks[n], n, embedding, step.now);
                assert(stores(job, chunks[n], n, row));
                assert(are_rows_of(run, table, rows.push(row)));
                lemma_filled_rows(run, stored, rows.push(row), step.now, table);
                lemma_run(run, then, steps.drop_first(), table);
            },
            (PhaseView::Reading, EventView::Read(Some(content)))
                if !step.cancelled && can_be_numbered(run.chunks()) => {
                lemma_run(run, then, steps.drop_first(), table);
            },
            _ => {
                assert(then == (PhaseView::Done, ActionView::Finished(false)));
                assert(outcome(job, then, steps.drop_first(), after) == (Some(false), after));
            },
        }
    }
}

/// A run that succeeds has put rows for all the chunks of the file in place of
/// what was stored of it. One that does not, for whatever reason, leaves the
/// store as it was.
pub proof fn law_runs_replace_or_leave_alone(run: FileRun, table: Table)
    requires
        is_truthful(run, table),
    ensures
        indexed(run, table).0 == Some(true) ==> replaces_file(run, table, indexed(run, table).1),
        indexed(run, table).0 != Some(true) ==> indexed(run, table).1 == table,
{
    if run.steps.len() > 0 {
        lemma_run(run, started(run), run.steps.drop_first(), table);
    }
}

/// The rows that stand for a file after its chunks were replaced.
spec fn rows_written(run: FileRun, before: Table, after: Table) -> Seq<ChunkRow> {
    choose|rows: Seq<ChunkRow>|
        {
            &&& #[trigger] are_rows_of(run, before, rows)
            &&& rows.len() == run.chunks().len()
            &&& after == merged(before, rows, run.job.resource_name, run.job.file_path)
        }
}

proof fn lemma_replaced(run: FileRun, before: Table, after: Table)
    requires
        keyed(before),
        replaces_file(run, before, after),
    ensures
        keyed(after),
        lists_chunks(after, run.job, run.chunks()),
        ({
            let rows = rows_written(run, before, after);
            &&& are_rows_of(run, before, rows)
            &&& rows.len() == run.chunks().len()
            &&& after == merged(before, rows, run.job.resource_name, run.job.file_path)
            &&& forall|i: int|
                0 <= i < rows.len() ==> after[#[trigger] key_of(
                    run.job.resource_name,
                    run.job.file_path,
                    i,
                )] == rows[i]
        }),
{
    let (name, path) = (run.job.resource_name, run.job.file_path);
    let chunks = run.chunks();
    let rows = rows_written(run, before, after);
    lemma_rows_are_chunk_set(run.job, chunks, rows);
    law_merge_replaces_exactly_one_file(before, rows, name, path);
    assert forall|i: int| 0 <= i < chunks.len() implies {
        let key = #[trigger] key_of(name, path, i);
        after.contains_pair(key, rows[i]) && holds_chunk(rows[i], run.job, chunks[i], i)
    } by {
        assert(stores(run.job, chunks[i], i, rows[i]));
        assert(rows[i].key() == key_of(name, path, i));
    }
    assert forall|k: Seq<char>| #[trigger]
        after.dom().contains(k) && in_scope(after[k], name, path) implies 0
        <= after[k].chunk_index < chunks.len() by {
        let i = choose|i: int| 0 <= i < rows.len() && after[k] == rows[i];
        assert(stores(run.job, chunks[i], i, rows[i]));
    }
}

/// After a run that succeeds, the store holds for the file just one row for
/// each of its chunks, with the indices from zero, each with its chunk's
/// content, fingerprint and line bounds: nothing is missing, nothing is there
/// twice and nothing is left behind from an earlier content.
pub proof fn law_indexed_file_is_stored_as_its_chunks(run: FileRun, table: Table)
    requires
        keyed(table),
        is_truthful(run, table),
        indexed(run, table).0 == Some(true),
    ensures
        keyed(indexed(run, table).1),
        lists_chunks(indexed(run, table).1, run.job, run.chunks()),
{
    law_runs_replace_or_leave_alone(run, table);
    lemma_replaced(run, table, indexed(run, table).1);
}

/// After a run that succeeds, the row of each chunk holds a vector that the
/// model gives for the chunk's content, as long as the rows stored before held
/// such vectors and their fingerprints tell contents apart.
pub proof fn law_indexed_file_holds_its_embeddings(run: FileRun, table: Table, i: int)
    requires
        keyed(table),
        is_truthful(run, table),
        indexed(run, table).0 == Some(true),
        can_stand_in(run, table),
        0 <= i < run.chunks().len(),
    ensures
        (run.model)(
            run.chunks()[i].content,
            indexed(run, table).1[key_of(
                run.job.resource_name,
                run.job.file_path,
                i,
            )].embedding,
        ),
{
    law_runs_replace_or_leave_alone(run, table);
    let after = indexed(run, table).1;
    lemma_replaced(run, table, after);
    let rows = rows_written(run, table, after);
    assert(stores(run.job, run.chunks()[i], i, rows[i]));
    let key = key_of(run.job.resource_name, run.job.file_path, i);
    assert(after[key] == rows[i]);
    assert((run.model)(rows[i].content, rows[i].embedding));
}

/// The rows of a file's chunks as a store holds them, at another time.
pub open spec fn rows_at(
    table: Table,
    job: JobView,
    chunks: Seq<ChunkView>,
    now: Seq<char>,
) -> Seq<ChunkRow> {
    Seq::new(
        chunks.len(),
        |i: int|
            ChunkRow {
                updated_at: now,
                ..table[key_of(job.resource_name, job.file_path, i)]
            },
    )
}

proof fn lemma_listed_chunks_are_kept(
    table: Table,
    job: JobView,
    chunks: Seq<ChunkView>,
    stored: Seq<(i32, FingerprintView)>,
    now: Seq<char>,
)
    requires
        keyed(table),
        can_be_numbered(chunks),
        lists_chunks(table, job, chunks),
        lists_file(stored, table, job.resource_name, job.file_path),
    ensures
        next(
            job,
            PhaseView::LookingUp { chunks },
            EventView::Stored(Some(stored)),
            false,
            now,
        ) == (PhaseView::Writing, ActionView::Write(rows_at(table, job, chunks, now))),
{
    let (name, path) = (job.resource_name, job.file_path);
    assert forall|i: int| 0 <= i < chunks.len() implies (#[trigger] kept_at(
        chunks,
        stored,
        i,
    )) is Some && kept_at(chunks, stored, i)->0 == table[key_of(name, path, i)].embedding by {
        let key = key_of(name, path, i);
        assert(holds_chunk(table[key], job, chunks[i], i));
        assert(table.dom().contains(key));
        let at = choose|at: int|
            0 <= at < stored.len() && stored[at] == fingerprint_of(table[key]);
        lemma_kept_found(stored, at);
        let j = lemma_kept_is_stored(stored, i as i32, hash_of(chunks[i].content));
        let k = choose|k: Seq<char>|
            {
                &&& #[trigger] table.dom().contains(k)
                &&& in_scope(table[k], name, path)
                &&& fingerprint_of(table[k]) == stored[j]
            };
        assert(table[k].key() == k);
        assert(k == key);
    }
    law_stored_chunks_are_not_embedded(job, chunks, stored, now);
    let rows = Seq::new(
        chunks.len(),
        |i: int| row_for(job, chunks[i], i, kept_at(chunks, stored, i)->0, now),
    );
    assert forall|i: int| 0 <= i < chunks.len() implies rows[i] == #[trigger] rows_at(
        table,
        job,
        chunks,
        now,
    )[i] by {
        assert(holds_chunk(table[key_of(name, path, i)], job, chunks[i], i));
        assert(kept_at(chunks, stored, i) is Some);
    }
    assert(rows =~= rows_at(table, job, chunks, now));
}

/// Indexing a file again after any run that succeeded, while its text stays
/// the same, embeds nothing: once the store has listed the file's chunks, in
/// whatever order, the same rows are written with the new time, and the run
/// succeeds if that does.
pub proof fn law_indexing_again_embeds_nothing(
    run: FileRun,
    table: Table,
    stored: Seq<(i32, FingerprintView)>,
    now: Seq<char>,
    ok: bool,
)
    requires
        keyed(table),
        is_truthful(run, table),
        indexed(run, table).0 == Some(true),
        lists_file(stored, indexed(run, table).1, run.job.resource_name, run.job.file_path),
    ensures
        next(run.job, PhaseView::Starting, EventView::Started, false, now) == (
            PhaseView::Reading,
            ActionView::Read,
        ),
        next(run.job, PhaseView::Reading, EventView::Read(Some(run.content)), false, now) == (
            PhaseView::LookingUp { chunks: run.chunks() },
            ActionView::LookUp,
        ),
        next(
            run.job,
            PhaseView::LookingUp { chunks: run.chunks() },
            EventView::Stored(Some(stored)),
            false,
            now,
        ) == (
            PhaseView::Writing,
            ActionView::Write(rows_at(indexed(run, table).1, run.job, run.chunks(), now)),
        ),
        next(run.job, PhaseView::Writing, EventView::Written(ok), false, now) == (
            PhaseView::Done,
            ActionView::Finished(ok),
        ),
{
    law_runs_replace_or_leave_alone(run, table);
    law_indexed_file_is_stored_as_its_chunks(run, table);
    lemma_listed_chunks_are_kept(indexed(run, table).1, run.job, run.chunks(), stored, now);
}

/// Whether the runs are a scan of one resource: no file comes twice.
pub open spec fn is_scan(runs: Seq<FileRun>, resource_name: Seq<char>) -> bool {
    &&& forall|i: int|
        0 <= i < runs.len() ==> (#[trigger] runs[i]).job.resource_name == resource_name
    &&& forall|i: int, j: int|
        0 <= i < j < runs.len() ==> (#[trigger] runs[i]).job.file_path != (
        #[trigger] runs[j]).job.file_path
}

/// The result of each run of a scan, one after the other, and what the store
/// holds at the end.
pub open spec fn scanned(runs: Seq<FileRun>, table: Table) -> (Seq<Option<bool>>, Table)
    decreases runs.len(),
{
    if runs.len() == 0 {
        (seq![], table)
    } else {
        let (results, between) = scanned(runs.drop_last(), table);
        let (ok, after) = indexed(runs.last(), between);
        (results.push(ok), after)
    }
}

/// Whether every run of a scan is truthful.
pub open spec fn is_truthful_scan(runs: Seq<FileRun>, table: Table) -> bool
    decreases runs.len(),
{
    runs.len() > 0 ==> is_truthful_scan(runs.drop_last(), table) && is_truthful(
        runs.last(),
        scanned(runs.drop_last(), table).1,
    )
}

proof fn lemma_other_file_is_kept(
    run: FileRun,
    table: Table,
    job: JobView,
    chunks: Seq<ChunkView>,
)
    requires
        keyed(table),
        is_truthful(run, table),
        run.job.resource_name == job.resource_name,
        run.job.file_path != job.file_path,
        lists_chunks(table, job, chunks),
    ensures
        lists_chunks(indexed(run, table).1, job, chunks),
{
    let (name, path) = (run.job.resource_name, run.job.file_path);
    let after = indexed(run, table).1;
    law_runs_replace_or_leave_alone(run, table);
    if indexed(run, table).0 == Some(true) {
        lemma_replaced(run, table, after);
        let rows = rows_written(run, table, after);
        lemma_rows_are_chunk_set(run.job, run.chunks(), rows);
        assert forall|i: int| 0 <= i < chunks.len() implies {
            let key = #[trigger] key_of(name, job.file_path, i);
            after.contains_pair(key, table[key])
        } by {
            let key = key_of(name, job.file_path, i);
            assert(table.dom().contains(key));
            if has_key(rows, key) {
                let j = choose|j: int| 0 <= j < rows.len() && #[trigger] rows[j].key() == key;
                lemma_key_parts(name, path, rows[j].chunk_index as int, job.file_path, i);
            }
        }
        assert forall|k: Seq<char>| #[trigger]
            after.dom().contains(k) && in_scope(after[k], name, job.file_path) implies 0
            <= after[k].chunk_index < chunks.len() by {
            if has_key(rows, k) {
                let j = choose|j: int| 0 <= j < rows.len() && #[trigger] rows[j].key() == k;
                assert(after[k] == row_of(rows, k));
                assert(in_scope(row_of(rows, k), name, path));
            }
            assert(table.dom().contains(k));
        }
    }
}

proof fn lemma_run_keeps_keys(run: FileRun, table: Table)
    requires
        keyed(table),
        is_truthful(run, table),
    ensures
        keyed(indexed(run, table).1),
{
    law_runs_replace_or_leave_alone(run, table);
    if indexed(run, table).0 == Some(true) {
        lemma_replaced(run, table, indexed(run, table).1);
    }
}

/// After a scan of a resource, the store holds for each file whose run
/// succeeded just one row for each of its chunks, as the chunk is, whatever it
/// held before and whatever came of the other files.
pub proof fn law_scan_stores_each_file_as_its_chunks(
    runs: Seq<FileRun>,
    resource_name: Seq<char>,
    table: Table,
)
    requires
        keyed(table),
        is_scan(runs, resource_name),
        is_truthful_scan(runs, table),
    ensures
        keyed(scanned(runs, table).1),
        scanned(runs, table).0.len() == runs.len(),
        forall|i: int|
            0 <= i < runs.len() && scanned(runs, table).0[i] == Some(true) ==> lists_chunks(
                scanned(runs, table).1,
                (#[trigger] runs[i]).job,
                runs[i].chunks(),
            ) && can_be_numbered(runs[i].chunks()),
    decreases runs.len(),
{
    if runs.len() > 0 {
        let front = runs.drop_last();
        let last = runs.last();
        let (results, between) = scanned(front, table);
        let (all, after) = scanned(runs, table);
        assert forall|i: int, j: int| 0 <= i < j < front.len() implies (
        #[trigger] front[i]).job.file_path != (#[trigger] front[j]).job.file_path by {
            assert(runs[i].job.file_path != runs[j].job.file_path);
        }
        assert(is_scan(front, resource_name));
        law_scan_stores_each_file_as_its_chunks(front, resource_name, table);
        assert(runs[runs.len() - 1] == last);
        lemma_run_keeps_keys(last, between);
        assert forall|i: int| 0 <= i < runs.len() && all[i] == Some(true) implies lists_chunks(
            after,
            (#[trigger] runs[i]).job,
            runs[i].chunks(),
        ) && can_be_numbered(runs[i].chunks()) by {
            if i < front.len() {
                assert(front[i] == runs[i]);
                assert(all[i] == results[i]);
                lemma_other_file_is_kept(last, between, runs[i].job, runs[i].chunks());
            } else {
                law_runs_replace_or_leave_alone(last, between);
                law_indexed_file_is_stored_as_its_chunks(last, between);
            }
        }
    }
}

proof fn lemma_all_succeed(results: Seq<Option<bool>>)
    ensures
        successes(results) <= results.len(),
        successes(results) == results.len() ==> forall|i: int|
            0 <= i < results.len() ==> #[trigger] results[i] == Some(true),
    decreases results.len(),
{
    if results.len() > 0 {
        let front = results.drop_last();
        lemma_all_succeed(front);
        assert forall|i: int| 0 <= i < results.len() && successes(results)
            == results.len() implies #[trigger] results[i] == Some(true) by {
            if i < front.len() {
                assert(front[i] == results[i]);
            }
        }
    }
}

/// After a scan without a failed file, the store holds for every file of the
/// scan just one row for each of its chunks, as the chunk is.
pub proof fn law_scan_without_failures_stores_every_file(
    runs: Seq<FileRun>,
    resource_name: Seq<char>,
    table: Table,
)
    requires
        keyed(table),
        is_scan(runs, resource_name),
        is_truthful_scan(runs, table),
        scanned(runs, table).0.len() - successes(scanned(runs, table).0) == 0,
    ensures
        forall|i: int|
            0 <= i < runs.len() ==> lists_chunks(
                scanned(runs, table).1,
                (#[trigger] runs[i]).job,
                runs[i].chunks(),
            ),
{
    law_scan_stores_each_file_as_its_chunks(runs, resource_name, table);
    lemma_all_succeed(scanned(runs, table).0);
}

/// Whether nothing disturbs a run that has nothing to embed: it is not called
/// off, the file is read, the list of its chunks is to be had, and they are
/// written.
pub open spec fn is_undisturbed(run: FileRun) -> bool {
    &&& run.steps.len() >= 4
    &&& !run.steps[0].cancelled && !run.steps[1].cancelled && !run.steps[2].cancelled
    &&& run.steps[1].event matches EventView::Read(Some(content)) && content == run.content
    &&& run.steps[2].event is Stored && run.steps[2].event->Stored_0 is Some
    &&& run.steps[3].event == EventView::Written(true)
}

/// Whether two stores hold the same rows but for the times at which they were
/// written.
pub open spec fn same_but_times(before: Table, after: Table) -> bool {
    &&& before.dom() == after.dom()
    &&& forall|k: Seq<char>| #[trigger]
        after.dom().contains(k) ==> after[k] == (ChunkRow {
            updated_at: after[k].updated_at,
            ..before[k]
        })
}

proof fn lemma_rewritten_file(table: Table, job: JobView, chunks: Seq<ChunkView>, now: Seq<char>)
    requires
        keyed(table),
        can_be_numbered(chunks),
        lists_chunks(table, job, chunks),
    ensures
        same_but_times(
            table,
            merged(
                table,
                rows_at(table, job, chunks, now),
                job.resource_name,
                job.file_path,
            ),
        ),
        keyed(
            merged(
                table,
                rows_at(table, job, chunks, now),
                job.resource_name,
                job.file_path,
            ),
        ),
{
    let (name, path) = (job.resource_name, job.file_path);
    let rows = rows_at(table, job, chunks, now);
    let after = merged(table, rows, name, path);
    assert forall|i: int| 0 <= i < rows.len() implies stores(
        job,
        chunks[i],
        i,
        #[trigger] rows[i],
    ) && rows[i].key() == key_of(name, path, i) by {
        assert(holds_chunk(table[key_of(name, path, i)], job, chunks[i], i));
    }
    lemma_rows_are_chunk_set(job, chunks, rows);
    law_merge_replaces_exactly_one_file(table, rows, name, path);
    assert forall|k: Seq<char>| table.dom().contains(k) <==> #[trigger] after.dom().contains(k) by {
        if table.dom().contains(k) && in_scope(table[k], name, path) {
            let i = table[k].chunk_index as int;
            assert(table[k].key() == k);
            assert(rows[i].key() == k);
            assert(has_key(rows, k));
        }
        if has_key(rows, k) {
            let i = choose|i: int| 0 <= i < rows.len() && #[trigger] rows[i].key() == k;
            assert(key_of(name, path, i) == k);
        }
    }
    assert(table.dom() =~= after.dom());
    assert forall|k: Seq<char>| #[trigger] after.dom().contains(k) implies after[k] == (ChunkRow {
        updated_at: after[k].updated_at,
        ..table[k]
    }) by {
        if has_key(rows, k) {
            let i = choose|i: int| 0 <= i < rows.len() && #[trigger] rows[i].key() == k;
            assert(key_of(name, path, i) == k);
            assert(after.contains_pair(rows[i].key(), rows[i]));
        }
    }
}

proof fn lemma_undisturbed_run(run: FileRun, table: Table)
    requires
        keyed(table),
        is_truthful(run, table),
        is_undisturbed(run),
        can_be_numbered(run.chunks()),
        lists_chunks(table, run.job, run.chunks()),
    ensures
        indexed(run, table).0 == Some(true),
        same_but_times(table, indexed(run, table).1),
        keyed(indexed(run, table).1),
        embeddings(run.job, started(run), run.steps.drop_first()) == 0,
{
    let job = run.job;
    let steps = run.steps.drop_first();
    let rest = steps.drop_first();
    let last = rest.drop_first();
    let none = last.drop_first();
    let stored = run.steps[2].event->Stored_0->0;
    let now = run.steps[2].now;
    let rows = rows_at(table, job, run.chunks(), now);
    let after = merged(table, rows, job.resource_name, job.file_path);
    let reading = (PhaseView::Reading, ActionView::Read);
    let looking = (PhaseView::LookingUp { chunks: run.chunks() }, ActionView::LookUp);
    let writing = (PhaseView::Writing, ActionView::Write(rows));
    let done = (PhaseView::Done, ActionView::Finished(true));
    assert(steps[0] == run.steps[1] && rest[0] == run.steps[2] && last[0] == run.steps[3]);
    assert(started(run) == reading);
    assert(all_true(run, reading, steps, table));
    assert(all_true(run, looking, rest, table));
    lemma_listed_chunks_are_kept(table, job, run.chunks(), stored, now);
    lemma_rewritten_file(table, job, run.chunks(), now);
    assert(embeddings(job, done, none) == 0);
    assert(embeddings(job, writing, last) == 0);
    assert(embeddings(job, looking, rest) == 0);
    assert(outcome(job, done, none, after) == (Some(true), after));
    assert(outcome(job, writing, last, table) == (Some(true), after));
    assert(outcome(job, looking, rest, table) == (Some(true), after));
    assert(outcome(job, reading, steps, table) == (Some(true), after));
}

/// Scanning a resource again, while the texts of its files stay the same and
/// nothing disturbs the runs, succeeds for every file without embedding
/// anything, and the store holds the same rows as before but for the times at
/// which they were written.
pub proof fn law_scanning_again_embeds_nothing(
    runs: Seq<FileRun>,
    again: Seq<FileRun>,
    resource_name: Seq<char>,
    table: Table,
)
    requires
        keyed(table),
        is_scan(runs, resource_name),
        is_truthful_scan(runs, table),
        successes(scanned(runs, table).0) == runs.len(),
        again.len() == runs.len(),
        forall|i: int|
            0 <= i < runs.len() ==> (#[trigger] again[i]).job == runs[i].job && again[i].content
                == runs[i].content && is_undisturbed(again[i]),
        is_truthful_scan(again, scanned(runs, table).1),
    ensures
        same_but_times(scanned(runs, table).1, scanned(again, scanned(runs, table).1).1),
        forall|i: int|
            0 <= i < again.len() ==> #[trigger] scanned(again, scanned(runs, table).1).0[i] == Some(
                true,
            ),
        forall|i: int|
            0 <= i < again.len() ==> embeddings(
                (#[trigger] again[i]).job,
                started(again[i]),
                again[i].steps.drop_first(),
            ) == 0,
{
    law_scan_stores_each_file_as_its_chunks(runs, resource_name, table);
    lemma_all_succeed(scanned(runs, table).0);
    let after = scanned(runs, table).1;
    assert forall|i: int| 0 <= i < again.len() implies lists_chunks(
        after,
        (#[trigger] again[i]).job,
        again[i].chunks(),
    ) && can_be_numbered(again[i].chunks()) && is_undisturbed(again[i]) by {
        assert(runs[i].job == again[i].job);
    }
    lemma_scan_of_listed_files(again, after);
}

proof fn lemma_scan_of_listed_files(runs: Seq<FileRun>, table: Table)
    requires
        keyed(table),
        is_truthful_scan(runs, table),
        forall|i: int|
            0 <= i < runs.len() ==> lists_chunks(
                table,
                (#[trigger] runs[i]).job,
                runs[i].chunks(),
            ) && can_be_numbered(runs[i].chunks()) && is_undisturbed(runs[i]),
    ensures
        same_but_times(table, scanned(runs, table).1),
        keyed(scanned(runs, table).1),
        scanned(runs, table).0.len() == runs.len(),
        forall|i: int| 0 <= i < runs.len() ==> #[trigger] scanned(runs, table).0[i] == Some(true),
        forall|i: int|
            0 <= i < runs.len() ==> embeddings(
                (#[trigger] runs[i]).job,
                started(runs[i]),
                runs[i].steps.drop_first(),
            ) == 0,
    decreases runs.len(),
{
    if runs.len() > 0 {
        let front = runs.drop_last();
        let last = runs.last();
        assert forall|i: int| 0 <= i < front.len() implies lists_chunks(
            table,
            (#[trigger] front[i]).job,
            front[i].chunks(),
        ) && can_be_numbered(front[i].chunks()) && is_undisturbed(front[i]) by {
            assert(front[i] == runs[i]);
        }
        lemma_scan_of_listed_files(front, table);
        let between = scanned(front, table).1;
        assert(runs[runs.len() - 1] == last);
        lemma_times_do_not_matter(table, between, last.job, last.chunks());
        lemma_undisturbed_run(last, between);
        assert forall|i: int| 0 <= i < runs.len() implies embeddings(
            (#[trigger] runs[i]).job,
            started(runs[i]),
            runs[i].steps.drop_first(),
        ) == 0 by {
            if i < front.len() {
                assert(front[i] == runs[i]);
            }
        }
        let after = scanned(runs, table).1;
        assert forall|k: Seq<char>| #[trigger] after.dom().contains(k) implies after[k] == (
        ChunkRow { updated_at: after[k].updated_at, ..table[k] }) by {
            assert(between.dom().contains(k));
        }
    }
}

proof fn lemma_times_do_not_matter(
    before: Table,
    after: Table,
    job: JobView,
    chunks: Seq<ChunkView>,
)
    requires
        same_but_times(before, after),
        lists_chunks(before, job, chunks),
    ensures
        lists_chunks(after, job, chunks),
{
    assert forall|i: int| 0 <= i < chunks.len() implies {
        let key = #[trigger] key_of(job.resource_name, job.file_path, i);
        after.dom().contains(key) && holds_chunk(after[key], job, chunks[i], i)
    } by {
        let key = key_of(job.resource_name, job.file_path, i);
        assert(before.dom().contains(key));
        assert(after.dom().contains(key));
    }
    assert forall|k: Seq<char>| #[trigger]
        after.dom().contains(k) && in_scope(after[k], job.resource_name, job.file_path) implies 0
        <= after[k].chunk_index < chunks.len() by {
        assert(before.dom().contains(k));
    }
}

} // verus!
