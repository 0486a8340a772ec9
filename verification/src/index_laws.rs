//! What holds of each step of indexing: content that did not change is not
//! embedded again, work that was called off writes nothing, and what is
//! written is exactly the file's chunks.

use crate::chunker::{file_chunks, ChunkView};
use crate::db::{ChunkRow, FingerprintView};
use crate::db_laws::{in_scope, is_chunk_set, Table};
use crate::indexer::{
    can_be_numbered, kept, kept_at, next, row_for, with_kept, ActionView, EventView, JobView,
    PhaseView,
};
use crate::resource::hash_of;
use vstd::prelude::*;

verus! {

/// Whether a row stores the chunk at a position of the file.
pub open spec fn stores(job: JobView, chunk: ChunkView, position: int, row: ChunkRow) -> bool {
    row == row_for(job, chunk, position, row.embedding, row.updated_at)
}

/// Whether the rows store the first chunks of the file, one each, in order.
pub open spec fn store_first(job: JobView, chunks: Seq<ChunkView>, rows: Seq<ChunkRow>) -> bool {
    &&& rows.len() <= chunks.len()
    &&& forall|i: int| 0 <= i < rows.len() ==> stores(job, chunks[i], i, #[trigger] rows[i])
}

/// Whether a phase holds chunks that can be numbered and rows for the first
/// of them only, and has a chunk left to embed.
pub open spec fn phase_ok(job: JobView, phase: PhaseView) -> bool {
    match phase {
        PhaseView::LookingUp { chunks } => can_be_numbered(chunks),
        PhaseView::Embedding { chunks, stored, rows } => {
            &&& can_be_numbered(chunks)
            &&& rows.len() < chunks.len()
            &&& store_first(job, chunks, rows)
        },
        _ => true,
    }
}

pub proof fn lemma_with_kept(
    job: JobView,
    chunks: Seq<ChunkView>,
    stored: Seq<(i32, FingerprintView)>,
    rows: Seq<ChunkRow>,
    now: Seq<char>,
)
    requires
        store_first(job, chunks, rows),
    ensures
        store_first(job, chunks, with_kept(job, chunks, stored, rows, now)),
        rows.len() <= with_kept(job, chunks, stored, rows, now).len() <= chunks.len(),
        with_kept(job, chunks, stored, rows, now).len() < chunks.len() ==> kept_at(
            chunks,
            stored,
            with_kept(job, chunks, stored, rows, now).len() as int,
        ) is None,
        with_kept(job, chunks, stored, rows, now).take(rows.len() as int) == rows,
        forall|i: int|
            #![trigger kept_at(chunks, stored, i)]
            #![trigger with_kept(job, chunks, stored, rows, now)[i]]
            rows.len() <= i < with_kept(job, chunks, stored, rows, now).len() ==> kept_at(
                chunks,
                stored,
                i,
            ) is Some && with_kept(job, chunks, stored, rows, now)[i] == row_for(
                job,
                chunks[i],
                i,
                kept_at(chunks, stored, i)->0,
                now,
            ),
    decreases chunks.len() - rows.len(),
{
    let n = rows.len() as int;
    let filled = with_kept(job, chunks, stored, rows, now);
    if n < chunks.len() && kept_at(chunks, stored, n) is Some {
        let row = row_for(job, chunks[n], n, kept_at(chunks, stored, n)->0, now);
        let more = rows.push(row);
        lemma_with_kept(job, chunks, stored, more, now);
        assert(filled.take(n) =~= filled.take(n + 1).take(n));
        assert(more.take(n) =~= rows);
        assert forall|i: int|
            #![trigger kept_at(chunks, stored, i)]
            #![trigger filled[i]]
            n <= i < filled.len() implies kept_at(chunks, stored, i) is Some && filled[i]
            == row_for(
            job,
            chunks[i],
            i,
            kept_at(chunks, stored, i)->0,
            now,
        ) by {
            if i == n {
                assert(filled[n] == filled.take(n + 1)[n]);
            } else {
                assert(with_kept(job, chunks, stored, more, now)[i] == filled[i]);
            }
        }
    } else {
        assert(filled.take(n) =~= rows);
    }
}

/// Whether each chunk is stored under its index for the same content.
pub open spec fn all_kept(chunks: Seq<ChunkView>, stored: Seq<(i32, FingerprintView)>) -> bool {
    forall|i: int| 0 <= i < chunks.len() ==> #[trigger] kept_at(chunks, stored, i) is Some
}

/// A file whose chunks are all stored with the same content is written at
/// once: nothing is embedded, and each row holds the chunk as it is now with
/// the stored embedding.
pub proof fn law_stored_chunks_are_not_embedded(
    job: JobView,
    chunks: Seq<ChunkView>,
    stored: Seq<(i32, FingerprintView)>,
    now: Seq<char>,
)
    requires
        all_kept(chunks, stored),
    ensures
        next(
            job,
            PhaseView::LookingUp { chunks },
            EventView::Stored(Some(stored)),
            false,
            now,
        ) == (
            PhaseView::Writing,
            ActionView::Write(
                Seq::new(
                    chunks.len(),
                    |i: int| row_for(job, chunks[i], i, kept_at(chunks, stored, i)->0, now),
                ),
            ),
        ),
{
    lemma_with_kept(job, chunks, stored, seq![], now);
    let filled = with_kept(job, chunks, stored, seq![], now);
    if filled.len() < chunks.len() {
        assert(kept_at(chunks, stored, filled.len() as int) is Some);
    }
    let rows = Seq::new(
        chunks.len(),
        |i: int| row_for(job, chunks[i], i, kept_at(chunks, stored, i)->0, now),
    );
    assert(filled =~= rows);
}

/// The index and fingerprint of a stored chunk.
pub open spec fn fingerprint_of(row: ChunkRow) -> (i32, FingerprintView) {
    (
        row.chunk_index,
        FingerprintView { content_hash: row.content_hash, embedding: row.embedding },
    )
}

/// The index and fingerprint of each stored chunk, in turn.
pub open spec fn fingerprints_of(rows: Seq<ChunkRow>) -> Seq<(i32, FingerprintView)> {
    rows.map_values(|r: ChunkRow| fingerprint_of(r))
}

pub proof fn lemma_kept_found(stored: Seq<(i32, FingerprintView)>, i: int)
    requires
        0 <= i < stored.len(),
    ensures
        kept(stored, stored[i].0, stored[i].1.content_hash) is Some,
    decreases i,
{
    if i > 0 {
        let rest = stored.drop_first();
        assert(rest[i - 1] == stored[i]);
        lemma_kept_found(rest, i - 1);
    }
}

/// Once a file's chunks are written, indexing the same content again finds all
/// of them stored.
pub proof fn law_written_chunks_are_kept(
    job: JobView,
    chunks: Seq<ChunkView>,
    rows: Seq<ChunkRow>,
)
    requires
        store_first(job, chunks, rows),
        rows.len() == chunks.len(),
    ensures
        all_kept(chunks, fingerprints_of(rows)),
{
    let stored = fingerprints_of(rows);
    assert forall|i: int| 0 <= i < chunks.len() implies #[trigger] kept_at(
        chunks,
        stored,
        i,
    ) is Some by {
        assert(stores(job, chunks[i], i, rows[i]));
        assert(stored[i].0 == i as i32);
        assert(stored[i].1.content_hash == hash_of(chunks[i].content));
        lemma_kept_found(stored, i);
    }
}

/// Whether the index and fingerprint of each row that a table holds for a
/// file are listed, once each and in any order.
pub open spec fn lists_file(
    stored: Seq<(i32, FingerprintView)>,
    table: Table,
    resource_name: Seq<char>,
    file_path: Seq<char>,
) -> bool {
    &&& stored.no_duplicates()
    &&& forall|k: Seq<char>| #[trigger]
        table.dom().contains(k) && in_scope(table[k], resource_name, file_path)
            ==> stored.contains(fingerprint_of(table[k]))
    &&& forall|i: int|
        0 <= i < stored.len() ==> exists|k: Seq<char>|
            {
                &&& #[trigger] table.dom().contains(k)
                &&& in_scope(table[k], resource_name, file_path)
                &&& fingerprint_of(table[k]) == #[trigger] stored[i]
            }
}

/// Only a chunk that is not stored with the same content is embedded.
pub proof fn law_only_changed_chunks_are_embedded(
    job: JobView,
    phase: PhaseView,
    event: EventView,
    cancelled: bool,
    now: Seq<char>,
)
    requires
        phase_ok(job, phase),
        next(job, phase, event, cancelled, now).1 is Embed,
    ensures
        next(job, phase, event, cancelled, now).0 matches PhaseView::Embedding {
            chunks,
            stored,
            rows,
        } && rows.len() < chunks.len() && next(job, phase, event, cancelled, now).1
            == ActionView::Embed(chunks[rows.len() as int].content) && kept_at(
            chunks,
            stored,
            rows.len() as int,
        ) is None,
{
    lemma_next(job, phase, event, cancelled, now);
}

/// Work that was called off writes nothing and is reported as not done,
/// unless it was already being written.
pub proof fn law_cancelled_work_writes_nothing(
    job: JobView,
    phase: PhaseView,
    event: EventView,
    now: Seq<char>,
)
    requires
        phase !is Writing,
    ensures
        next(job, phase, event, true, now) == (PhaseView::Done, ActionView::Finished(false)),
{
}

/// Any failure ends the work as not done: a file that cannot be read, a
/// lookup or an embedding that fails, and a write that does.
pub proof fn law_failures_end_the_work(
    job: JobView,
    phase: PhaseView,
    event: EventView,
    cancelled: bool,
    now: Seq<char>,
)
    requires
        event == EventView::Read(None) || event == EventView::Stored(None) || event
            == EventView::Embedded(None) || event == EventView::Written(false),
    ensures
        next(job, phase, event, cancelled, now) == (PhaseView::Done, ActionView::Finished(false)),
{
}

pub proof fn lemma_next(
    job: JobView,
    phase: PhaseView,
    event: EventView,
    cancelled: bool,
    now: Seq<char>,
)
    requires
        phase_ok(job, phase),
    ensures
        phase_ok(job, next(job, phase, event, cancelled, now).0),
        next(job, phase, event, cancelled, now).0 matches PhaseView::Embedding {
            chunks,
            stored,
            rows,
        } ==> kept_at(chunks, stored, rows.len() as int) is None,
        next(job, phase, event, cancelled, now).1 matches ActionView::Write(rows) ==> ({
            let chunks = match phase {
                PhaseView::LookingUp { chunks } => chunks,
                PhaseView::Embedding { chunks, stored, rows } => chunks,
                _ => seq![],
            };
            store_first(job, chunks, rows) && rows.len() == chunks.len() && can_be_numbered(chunks)
        }),
{
    match (phase, event) {
        (PhaseView::LookingUp { chunks }, EventView::Stored(Some(stored))) => {
            lemma_with_kept(job, chunks, stored, seq![], now);
        },
        (PhaseView::Embedding { chunks, stored, rows }, EventView::Embedded(Some(embedding))) => {
            let n = rows.len() as int;
            let row = row_for(job, chunks[n], n, embedding, now);
            assert(store_first(job, chunks, rows.push(row)));
            lemma_with_kept(job, chunks, stored, rows.push(row), now);
        },
        _ => {},
    }
}

/// Every step keeps the rows gathered so far in line with the chunks.
pub proof fn law_steps_keep_rows_in_line(
    job: JobView,
    phase: PhaseView,
    event: EventView,
    cancelled: bool,
    now: Seq<char>,
)
    requires
        phase_ok(job, phase),
    ensures
        phase_ok(job, next(job, phase, event, cancelled, now).0),
{
    lemma_next(job, phase, event, cancelled, now);
}

/// What is written are the file's chunks, all of them and in order, each with
/// its own content, hash and line numbers: a chunk set that a merge can put
/// in place of what is stored for the file.
pub proof fn law_written_rows_are_the_files_chunks(
    job: JobView,
    phase: PhaseView,
    event: EventView,
    cancelled: bool,
    now: Seq<char>,
)
    requires
        phase_ok(job, phase),
        next(job, phase, event, cancelled, now).1 is Write,
    ensures
        ({
            let rows = next(job, phase, event, cancelled, now).1->Write_0;
            let chunks = match phase {
                PhaseView::LookingUp { chunks } => chunks,
                PhaseView::Embedding { chunks, stored, rows } => chunks,
                _ => seq![],
            };
            &&& rows.len() == chunks.len()
            &&& store_first(job, chunks, rows)
            &&& is_chunk_set(rows, job.resource_name, job.file_path)
        }),
{
    lemma_next(job, phase, event, cancelled, now);
    let rows = next(job, phase, event, cancelled, now).1->Write_0;
    let chunks = match phase {
        PhaseView::LookingUp { chunks } => chunks,
        PhaseView::Embedding { chunks, stored, rows } => chunks,
        _ => seq![],
    };
    lemma_rows_are_chunk_set(job, chunks, rows);
}

pub proof fn lemma_rows_are_chunk_set(job: JobView, chunks: Seq<ChunkView>, rows: Seq<ChunkRow>)
    requires
        store_first(job, chunks, rows),
        can_be_numbered(chunks),
    ensures
        is_chunk_set(rows, job.resource_name, job.file_path),
{
    assert forall|i: int| 0 <= i < rows.len() implies in_scope(
        #[trigger] rows[i],
        job.resource_name,
        job.file_path,
    ) by {
        assert(stores(job, chunks[i], i, rows[i]));
    }
    assert forall|i: int, j: int| 0 <= i < j < rows.len() implies (
    #[trigger] rows[i]).chunk_index != (#[trigger] rows[j]).chunk_index by {
        assert(stores(job, chunks[i], i, rows[i]));
        assert(stores(job, chunks[j], j, rows[j]));
    }
}

/// The chunks of a file are too many exactly if the last of them has no index
/// of its own.
pub proof fn law_chunks_are_numbered_as_far_as_indices_go(chunks: Seq<ChunkView>)
    ensures
        can_be_numbered(chunks) <==> forall|i: int|
            0 <= i < chunks.len() ==> #[trigger] (i as i32) == i,
{
    if !can_be_numbered(chunks) {
        let i: int = chunks.len() - 1;
        assert((i as i32) != i);
    }
}

/// As long as it is not called off and every action comes to what it should,
/// the work goes on: the file is read, its chunks looked up, each that changed
/// embedded and all of them written; and it ends as the write does.
pub proof fn law_work_goes_on(job: JobView, phase: PhaseView, event: EventView, now: Seq<char>)
    requires
        phase_ok(job, phase),
    ensures
        ({
            let (after, action) = next(job, phase, event, false, now);
            let goes_on = (action is Embed && after is Embedding) || (action is Write
                && after is Writing);
            match (phase, event) {
                (PhaseView::Starting, EventView::Started) => after is Reading && action is Read,
                (PhaseView::Reading, EventView::Read(Some(content))) => {
                    let chunks = file_chunks(job.extension, content, job.config);
                    can_be_numbered(chunks) ==> action is LookUp && after == PhaseView::LookingUp {
                        chunks,
                    }
                },
                (PhaseView::LookingUp { chunks }, EventView::Stored(Some(_))) => goes_on,
                (PhaseView::Embedding { chunks, stored, rows }, EventView::Embedded(Some(_))) =>
                goes_on,
                (PhaseView::Writing, EventView::Written(ok)) => action == ActionView::Finished(ok),
                _ => true,
            }
        }),
{
}

/// How many more actions a phase can lead to at most.
pub open spec fn steps_left(phase: PhaseView) -> nat {
    match phase {
        PhaseView::Starting => 0,
        PhaseView::Reading => 0,
        PhaseView::LookingUp { chunks } => chunks.len() + 2,
        PhaseView::Embedding { chunks, stored, rows } => (chunks.len() - rows.len() + 1) as nat,
        PhaseView::Writing => 1,
        PhaseView::Done => 0,
    }
}

/// Indexing comes to an end: once the file is read, each step leaves fewer
/// to go, until the file is dealt with.
pub proof fn law_indexing_ends(
    job: JobView,
    phase: PhaseView,
    event: EventView,
    cancelled: bool,
    now: Seq<char>,
)
    requires
        phase_ok(job, phase),
        phase is LookingUp || phase is Embedding || phase is Writing,
    ensures
        steps_left(next(job, phase, event, cancelled, now).0) < steps_left(phase),
        next(job, phase, event, cancelled, now).1 is Finished <==> next(
            job,
            phase,
            event,
            cancelled,
            now,
        ).0 is Done,
{
    match (phase, event) {
        (PhaseView::LookingUp { chunks }, EventView::Stored(Some(stored))) => {
            lemma_with_kept(job, chunks, stored, seq![], now);
        },
        (PhaseView::Embedding { chunks, stored, rows }, EventView::Embedded(Some(embedding))) => {
            let n = rows.len() as int;
            let row = row_for(job, chunks[n], n, embedding, now);
            assert(store_first(job, chunks, rows.push(row)));
            lemma_with_kept(job, chunks, stored, rows.push(row), now);
        },
        _ => {},
    }
}

} // verus!
