//! What holds of the storage layer as a whole: keys do not collide, filters
//! say what they were built from, and a merge replaces exactly one file's
//! chunks.

use crate::db::{doubled, equals_filter, key_of, quoted, scope_filter, ChunkRow};
use crate::text::{decimal, lemma_decimal_injective, lemma_numeral_digits};
use vstd::prelude::*;

verus! {

/// Chunks of different resources, files or indices have different keys, as
/// long as resource names hold no NUL character.
pub proof fn law_chunk_keys_do_not_collide(
    resource_a: Seq<char>,
    file_a: Seq<char>,
    index_a: int,
    resource_b: Seq<char>,
    file_b: Seq<char>,
    index_b: int,
)
    requires
        !resource_a.contains('\0'),
        !resource_b.contains('\0'),
        key_of(resource_a, file_a, index_a) == key_of(resource_b, file_b, index_b),
    ensures
        resource_a == resource_b,
        file_a == file_b,
        index_a == index_b,
{
    let a = key_of(resource_a, file_a, index_a);
    let b = key_of(resource_b, file_b, index_b);
    let m = resource_a.len() as int;
    let n = resource_b.len() as int;
    assert(a[m] == '\0');
    assert(b[n] == '\0');
    if m < n {
        assert(resource_b[m] == b[m]);
    }
    if n < m {
        assert(resource_a[n] == a[n]);
    }
    assert(resource_a =~= a.take(m));
    assert(resource_b =~= b.take(m));
    lemma_key_parts(resource_a, file_a, index_a, file_b, index_b);
}

/// Within one resource, whatever its name, chunks of different files or
/// indices have different keys.
pub proof fn lemma_key_parts(
    resource: Seq<char>,
    file_a: Seq<char>,
    index_a: int,
    file_b: Seq<char>,
    index_b: int,
)
    requires
        key_of(resource, file_a, index_a) == key_of(resource, file_b, index_b),
    ensures
        file_a == file_b,
        index_a == index_b,
{
    let a = key_of(resource, file_a, index_a);
    let b = key_of(resource, file_b, index_b);
    let m = resource.len() as int;
    let p = m + 1 + file_a.len();
    let q = m + 1 + file_b.len();
    lemma_decimal_has_no_nul(index_a);
    lemma_decimal_has_no_nul(index_b);
    assert(a.len() == p + 1 + decimal(index_a).len());
    assert(b.len() == q + 1 + decimal(index_b).len());
    assert(a[p] == '\0');
    assert(b[q] == '\0');
    if p < q {
        assert(a[q] == decimal(index_a)[q - p - 1]);
    }
    if q < p {
        assert(b[p] == decimal(index_b)[p - q - 1]);
    }
    assert(file_a =~= a.subrange(m + 1, p));
    assert(file_b =~= b.subrange(m + 1, p));
    assert(decimal(index_a) =~= a.skip(p + 1));
    assert(decimal(index_b) =~= b.skip(p + 1));
    lemma_decimal_injective(index_a, index_b);
}

proof fn lemma_decimal_has_no_nul(i: int)
    ensures
        forall|j: int| 0 <= j < decimal(i).len() ==> #[trigger] decimal(i)[j] != '\0',
{
    let n = if i < 0 {
        (-i) as nat
    } else {
        i as nat
    };
    lemma_numeral_digits(n, 10);
}

/// Reads the rest of a string literal, behind its opening quote: a quote
/// written twice stands for one, and a single quote ends the literal. Gives
/// the value of the literal and the text behind it; none where the literal
/// has no end.
pub open spec fn read_quoted(s: Seq<char>) -> Option<(Seq<char>, Seq<char>)>
    decreases s.len(),
{
    if s.len() == 0 {
        None
    } else if s[0] != '\'' {
        match read_quoted(s.drop_first()) {
            Some((value, rest)) => Some((seq![s[0]] + value, rest)),
            None => None,
        }
    } else if s.len() > 1 && s[1] == '\'' {
        match read_quoted(s.skip(2)) {
            Some((value, rest)) => Some((seq!['\''] + value, rest)),
            None => None,
        }
    } else {
        Some((seq![], s.drop_first()))
    }
}

/// Reads a string literal at the start of `s`.
pub open spec fn read_literal(s: Seq<char>) -> Option<(Seq<char>, Seq<char>)> {
    if s.len() > 0 && s[0] == '\'' {
        read_quoted(s.drop_first())
    } else {
        None
    }
}

/// A quoted value reads back as itself, whatever it holds and whatever
/// follows, short of another quote.
pub proof fn law_quoted_reads_back(value: Seq<char>, rest: Seq<char>)
    requires
        rest.len() > 0 ==> rest[0] != '\'',
    ensures
        read_literal(quoted(value) + rest) == Some((value, rest)),
{
    lemma_read_quoted(value, rest);
    assert((quoted(value) + rest).drop_first() =~= doubled(value) + seq!['\''] + rest);
}

proof fn lemma_read_quoted(value: Seq<char>, rest: Seq<char>)
    requires
        rest.len() > 0 ==> rest[0] != '\'',
    ensures
        read_quoted(doubled(value) + seq!['\''] + rest) == Some((value, rest)),
    decreases value.len(),
{
    let s = doubled(value) + seq!['\''] + rest;
    if value.len() == 0 {
        assert(s =~= seq!['\''] + rest);
        assert(s.drop_first() =~= rest);
        assert(value =~= seq![]);
    } else {
        let tail = value.drop_first();
        lemma_read_quoted(tail, rest);
        assert(value =~= seq![value[0]] + tail);
        if value[0] == '\'' {
            assert(s.skip(2) =~= doubled(tail) + seq!['\''] + rest);
        } else {
            assert(s.drop_first() =~= doubled(tail) + seq!['\''] + rest);
        }
    }
}

/// A filter compares its column with exactly the value it was built from: no
/// value can end the literal early and continue as SQL.
pub proof fn law_filter_compares_with_its_value(column: Seq<char>, value: Seq<char>)
    ensures
        equals_filter(column, value).take((column + " = "@).len() as int) == column + " = "@,
        read_literal(equals_filter(column, value).skip((column + " = "@).len() as int)) == Some(
            (value, Seq::<char>::empty()),
        ),
{
    let head = column + " = "@;
    law_quoted_reads_back(value, seq![]);
    assert(equals_filter(column, value).take(head.len() as int) =~= head);
    assert(equals_filter(column, value).skip(head.len() as int) =~= quoted(value) + seq![]);
}

/// A scope filter names exactly one resource and one file.
pub proof fn law_scope_filter_names_one_file(resource_name: Seq<char>, file_path: Seq<char>)
    ensures
        ({
            let head = "resource_name"@ + " = "@;
            let middle = " AND "@ + "file_path"@ + " = "@;
            let filter = scope_filter(resource_name, file_path);
            &&& filter.take(head.len() as int) == head
            &&& read_literal(filter.skip(head.len() as int)) == Some(
                (resource_name, middle + quoted(file_path)),
            )
            &&& read_literal((middle + quoted(file_path)).skip(middle.len() as int)) == Some(
                (file_path, Seq::<char>::empty()),
            )
        }),
{
    let head = "resource_name"@ + " = "@;
    let middle = " AND "@ + "file_path"@ + " = "@;
    let filter = scope_filter(resource_name, file_path);
    let tail = middle + quoted(file_path);
    assert(filter.take(head.len() as int) =~= head);
    assert(filter.skip(head.len() as int) =~= quoted(resource_name) + tail);
    assert(tail[0] == ' ') by {
        reveal_strlit(" AND ");
    }
    law_quoted_reads_back(resource_name, tail);
    law_quoted_reads_back(file_path, seq![]);
    assert(tail.skip(middle.len() as int) =~= quoted(file_path) + seq![]);
}

/// What a chunk table holds: each row under its key.
pub type Table = Map<Seq<char>, ChunkRow>;

/// Every row of the table stands under its own key.
pub open spec fn keyed(table: Table) -> bool {
    forall|k: Seq<char>| #[trigger] table.dom().contains(k) ==> table[k].key() == k
}

/// Whether a row belongs to the given file of the given resource.
pub open spec fn in_scope(row: ChunkRow, resource_name: Seq<char>, file_path: Seq<char>) -> bool {
    row.resource_name == resource_name && row.file_path == file_path
}

/// A chunk set that can stand for one file: all its rows are of that file, no
/// two with the same index.
pub open spec fn is_chunk_set(
    rows: Seq<ChunkRow>,
    resource_name: Seq<char>,
    file_path: Seq<char>,
) -> bool {
    &&& forall|i: int|
        0 <= i < rows.len() ==> in_scope(#[trigger] rows[i], resource_name, file_path)
    &&& forall|i: int, j: int|
        0 <= i < j < rows.len() ==> (#[trigger] rows[i]).chunk_index != (
        #[trigger] rows[j]).chunk_index
}

/// Whether one of the rows has the given key.
pub open spec fn has_key(rows: Seq<ChunkRow>, key: Seq<char>) -> bool {
    exists|i: int| 0 <= i < rows.len() && #[trigger] rows[i].key() == key
}

/// The row with the given key.
pub open spec fn row_of(rows: Seq<ChunkRow>, key: Seq<char>) -> ChunkRow {
    rows[choose|i: int| 0 <= i < rows.len() && #[trigger] rows[i].key() == key]
}

/// The keys that a merge removes: those of the file's stored rows that are
/// not among the new ones.
pub open spec fn pruned_keys(
    table: Table,
    rows: Seq<ChunkRow>,
    resource_name: Seq<char>,
    file_path: Seq<char>,
) -> Set<Seq<char>> {
    Set::new(
        |k: Seq<char>|
            table.dom().contains(k) && in_scope(table[k], resource_name, file_path) && !has_key(
                rows,
                k,
            ),
    )
}

/// The table after a merge on the chunk key: a matching row is updated, a new
/// one inserted, and a stored row of the file that matches none is deleted.
pub open spec fn merged(
    table: Table,
    rows: Seq<ChunkRow>,
    resource_name: Seq<char>,
    file_path: Seq<char>,
) -> Table {
    Map::new(
        |k: Seq<char>|
            has_key(rows, k) || (table.dom().contains(k) && !in_scope(
                table[k],
                resource_name,
                file_path,
            )),
        |k: Seq<char>|
            if has_key(rows, k) {
                row_of(rows, k)
            } else {
                table[k]
            },
    )
}

proof fn lemma_row_of(
    rows: Seq<ChunkRow>,
    i: int,
    resource_name: Seq<char>,
    file_path: Seq<char>,
)
    requires
        is_chunk_set(rows, resource_name, file_path),
        0 <= i < rows.len(),
    ensures
        has_key(rows, rows[i].key()),
        row_of(rows, rows[i].key()) == rows[i],
{
    let k = rows[i].key();
    assert(has_key(rows, k));
    let j = choose|j: int| 0 <= j < rows.len() && #[trigger] rows[j].key() == k;
    lemma_key_index(rows[i], rows[j]);
    assert(i == j);
}

proof fn lemma_key_index(a: ChunkRow, b: ChunkRow)
    requires
        a.key() == b.key(),
        a.resource_name == b.resource_name,
        a.file_path == b.file_path,
    ensures
        a.chunk_index == b.chunk_index,
{
    lemma_key_parts(
        a.resource_name,
        a.file_path,
        a.chunk_index as int,
        b.file_path,
        b.chunk_index as int,
    );
}

/// After a merge, the rows of the file are exactly the new ones: each is
/// there as given, and no other row of the file is left behind.
pub proof fn law_merge_replaces_exactly_one_file(
    table: Table,
    rows: Seq<ChunkRow>,
    resource_name: Seq<char>,
    file_path: Seq<char>,
)
    requires
        keyed(table),
        is_chunk_set(rows, resource_name, file_path),
    ensures
        keyed(merged(table, rows, resource_name, file_path)),
        forall|i: int|
            0 <= i < rows.len() ==> merged(
                table,
                rows,
                resource_name,
                file_path,
            ).contains_pair((#[trigger] rows[i]).key(), rows[i]),
        forall|k: Seq<char>| #[trigger]
            merged(table, rows, resource_name, file_path).dom().contains(k) && in_scope(
                merged(table, rows, resource_name, file_path)[k],
                resource_name,
                file_path,
            ) ==> exists|i: int|
                0 <= i < rows.len() && merged(table, rows, resource_name, file_path)[k] == rows[i],
{
    let after = merged(table, rows, resource_name, file_path);
    assert forall|i: int| 0 <= i < rows.len() implies after.contains_pair(
        (#[trigger] rows[i]).key(),
        rows[i],
    ) by {
        lemma_row_of(rows, i, resource_name, file_path);
    }
}

/// A merge leaves every row of another file or another resource as it was, as
/// long as the names of different resources hold no NUL character.
pub proof fn law_merge_leaves_other_files_alone(
    table: Table,
    rows: Seq<ChunkRow>,
    resource_name: Seq<char>,
    file_path: Seq<char>,
    k: Seq<char>,
)
    requires
        keyed(table),
        is_chunk_set(rows, resource_name, file_path),
        table.dom().contains(k),
        !in_scope(table[k], resource_name, file_path),
        table[k].resource_name != resource_name ==> !resource_name.contains('\0')
            && !table[k].resource_name.contains('\0'),
    ensures
        merged(table, rows, resource_name, file_path).contains_pair(k, table[k]),
{
    if has_key(rows, k) {
        let i = choose|i: int| 0 <= i < rows.len() && #[trigger] rows[i].key() == k;
        let row = table[k];
        if row.resource_name == resource_name {
            lemma_key_parts(
                resource_name,
                row.file_path,
                row.chunk_index as int,
                rows[i].file_path,
                rows[i].chunk_index as int,
            );
        } else {
            law_chunk_keys_do_not_collide(
                row.resource_name,
                row.file_path,
                row.chunk_index as int,
                rows[i].resource_name,
                rows[i].file_path,
                rows[i].chunk_index as int,
            );
        }
    }
}

/// Merging the same rows a second time changes nothing and removes nothing.
pub proof fn law_merge_is_idempotent(
    table: Table,
    rows: Seq<ChunkRow>,
    resource_name: Seq<char>,
    file_path: Seq<char>,
)
    ensures
        merged(
            merged(table, rows, resource_name, file_path),
            rows,
            resource_name,
            file_path,
        ) == merged(table, rows, resource_name, file_path),
        pruned_keys(
            merged(table, rows, resource_name, file_path),
            rows,
            resource_name,
            file_path,
        ) == Set::<Seq<char>>::empty(),
{
    let once = merged(table, rows, resource_name, file_path);
    assert(merged(once, rows, resource_name, file_path) =~= once);
    assert(pruned_keys(once, rows, resource_name, file_path) =~= Set::empty());
}

/// Merging an empty chunk set removes the file's rows and nothing else.
pub proof fn law_empty_merge_prunes_the_file(
    table: Table,
    resource_name: Seq<char>,
    file_path: Seq<char>,
)
    ensures
        forall|k: Seq<char>| #[trigger]
            merged(table, seq![], resource_name, file_path).dom().contains(k) <==> (
            table.dom().contains(k) && !in_scope(table[k], resource_name, file_path)),
        forall|k: Seq<char>| #[trigger]
            merged(table, seq![], resource_name, file_path).dom().contains(k) ==> merged(
                table,
                seq![],
                resource_name,
                file_path,
            )[k] == table[k],
{
}

/// A row that a merge removes was a stored row of the file, and it is gone
/// afterwards; with nothing to remove, nothing stored is lost.
pub proof fn law_pruned_keys_are_gone(
    table: Table,
    rows: Seq<ChunkRow>,
    resource_name: Seq<char>,
    file_path: Seq<char>,
    k: Seq<char>,
)
    requires
        table.dom().contains(k),
    ensures
        pruned_keys(table, rows, resource_name, file_path).contains(k) <==> !merged(
            table,
            rows,
            resource_name,
            file_path,
        ).dom().contains(k),
{
}

} // verus!
