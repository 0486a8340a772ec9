//! What the splitters come to, in terms of the file and the budgets alone:
//! where each chunk begins and ends, and what it holds.

use crate::chunk_laws::{
    lemma_window_within_budget, law_code_chunks_cover_every_line_with_content, line_after, quotes,
    some_chunk_holds,
};
use crate::chunker::{
    absorbed, are_boundaries, boundaries, code_window_chunks, code_windows, first_content, fits,
    is_blank, lemma_absorbed_advances, lemma_boundaries, lemma_first_content, lemma_grown,
    lemma_text_windows, lemma_window_start, next_start, node_fits, own_start, shortened, span,
    split_code, text_chunks, text_end, text_windows, window_chunk, window_start, ChunkView,
    ChunkingConfig,
};
use crate::text::{joined, lines_of};
use vstd::prelude::*;

verus! {

/// The characters of the lines from `a` up to `b`, each line with its line
/// feed.
pub open spec fn size(lines: Seq<Seq<char>>, a: int, b: int) -> nat
    decreases b - a,
{
    if a >= b {
        0
    } else {
        lines[a].len() + 1 + size(lines, a + 1, b)
    }
}

/// Whether the lines from `a` up to `b` are over one of the budgets: they are
/// more than `chunk_lines` lines or come to more than `max_chars` characters.
pub open spec fn is_over(
    lines: Seq<Seq<char>>,
    a: int,
    b: int,
    config: ChunkingConfig,
) -> bool {
    b - a > config.chunk_lines || size(lines, a, b) > config.max_chars
}

proof fn lemma_size(lines: Seq<Seq<char>>, a: int, b: int)
    requires
        a <= b,
    ensures
        size(lines, a, b) == span(lines, a, b),
    decreases b - a,
{
    if a < b {
        lemma_size(lines, a, b - 1);
        lemma_size_back(lines, a, b);
    }
}

proof fn lemma_size_back(lines: Seq<Seq<char>>, a: int, b: int)
    requires
        a < b,
    ensures
        size(lines, a, b) == size(lines, a, b - 1) + lines[b - 1].len() + 1,
    decreases b - a,
{
    if a + 1 < b {
        lemma_size_back(lines, a + 1, b);
    } else {
        assert(size(lines, a + 1, b) == 0);
    }
}

proof fn lemma_over(lines: Seq<Seq<char>>, a: int, b: int, config: ChunkingConfig)
    requires
        a <= b,
    ensures
        is_over(lines, a, b, config) == !fits(lines, a, b, config),
{
    lemma_size(lines, a, b);
}

/// Where the chunk behind one with the lines from `start` up to `end` begins:
/// the overlap before its end, yet at least one line below its start.
pub open spec fn following(start: int, end: int, config: ChunkingConfig) -> int {
    if end - config.overlap_lines >= start + 1 {
        end - config.overlap_lines
    } else {
        start + 1
    }
}

/// Whether chunks split a text by the budgets alone. Each quotes its lines. The
/// first begins with the first line, and each other one where the overlap puts
/// it. Each is within the budgets, unless it is a single line, and would be
/// over one with the line behind it, unless that is the end of the text; and
/// the chunk that reaches the end is the last.
pub open spec fn are_text_chunks(
    chunks: Seq<ChunkView>,
    lines: Seq<Seq<char>>,
    config: ChunkingConfig,
) -> bool {
    &&& chunks.len() == 0 <==> lines.len() == 0
    &&& forall|i: int|
        #![trigger chunks[i]]
        0 <= i < chunks.len() ==> {
            let (a, b) = (chunks[i].start_line as int, chunks[i].end_line as int);
            &&& quotes(chunks[i], lines)
            &&& a == b || !is_over(lines, a, b + 1, config)
            &&& b + 1 == lines.len() || is_over(lines, a, b + 2, config)
            &&& b + 1 == lines.len() <==> i + 1 == chunks.len()
        }
    &&& chunks.len() > 0 ==> chunks[0].start_line == 0
    &&& forall|i: int, j: int|
        #![trigger chunks[i], chunks[j]]
        0 <= i && j == i + 1 && j < chunks.len() ==> chunks[j].start_line == following(
            chunks[i].start_line as int,
            chunks[i].end_line + 1,
            config,
        )
}

proof fn lemma_only_the_last_reaches_the_end(
    lines: Seq<Seq<char>>,
    start: int,
    config: ChunkingConfig,
)
    requires
        0 <= start < lines.len(),
    ensures
        ({
            let ws = text_windows(lines, start, config);
            forall|i: int|
                #![trigger ws[i]]
                0 <= i < ws.len() ==> (ws[i].1 >= lines.len() <==> i + 1 == ws.len())
        }),
    decreases lines.len() - start,
{
    let end = text_end(lines, start, config);
    lemma_grown(lines, start, start + 1, config);
    let all = text_windows(lines, start, config);
    if end < lines.len() {
        let next = next_start(start, end, config);
        let rest = text_windows(lines, next, config);
        lemma_only_the_last_reaches_the_end(lines, next, config);
        lemma_text_windows(lines, next, config);
        assert(all == seq![(start, end)] + rest);
        assert forall|i: int| #![trigger all[i]] 0 <= i < all.len() implies (all[i].1
            >= lines.len() <==> i + 1 == all.len()) by {
            if i > 0 {
                assert(all[i] == rest[i - 1]);
            }
        }
    } else {
        assert(all == seq![(start, end)]);
    }
}

/// A text is split by the budgets alone, and as far as they allow.
pub proof fn law_text_is_split_by_its_budgets(lines: Seq<Seq<char>>, config: ChunkingConfig)
    requires
        lines.len() <= u32::MAX + 1,
    ensures
        are_text_chunks(text_chunks(lines, config), lines, config),
{
    let ws = text_windows(lines, 0, config);
    let chunks = text_chunks(lines, config);
    if lines.len() == 0 {
        assert(ws =~= seq![]);
    } else {
        lemma_text_windows(lines, 0, config);
        lemma_only_the_last_reaches_the_end(lines, 0, config);
        assert forall|i: int| #![trigger chunks[i]] 0 <= i < chunks.len() implies {
            let (a, b) = (chunks[i].start_line as int, chunks[i].end_line as int);
            &&& quotes(chunks[i], lines)
            &&& a == b || !is_over(lines, a, b + 1, config)
            &&& b + 1 == lines.len() || is_over(lines, a, b + 2, config)
            &&& b + 1 == lines.len() <==> i + 1 == chunks.len()
        } by {
            let w = ws[i];
            assert(chunks[i] == window_chunk(lines, w.0, w.1));
            lemma_grown(lines, w.0, w.0 + 1, config);
            lemma_window_within_budget(lines, w.0, w.1, config);
            lemma_over(lines, w.0, w.1, config);
            lemma_over(lines, w.0, w.1 + 1, config);
        }
        assert forall|i: int, j: int|
            #![trigger chunks[i], chunks[j]]
            0 <= i && j == i + 1 && j < chunks.len() implies chunks[j].start_line == following(
            chunks[i].start_line as int,
            chunks[i].end_line + 1,
            config,
        ) by {
            assert(chunks[i] == window_chunk(lines, ws[i].0, ws[i].1));
            assert(chunks[j] == window_chunk(lines, ws[j].0, ws[j].1));
        }
    }
}

/// A text within both budgets is one chunk: all of it.
pub proof fn law_text_within_the_budgets_is_one_chunk(
    lines: Seq<Seq<char>>,
    config: ChunkingConfig,
)
    requires
        0 < lines.len() <= u32::MAX + 1,
        lines.len() <= config.chunk_lines,
        size(lines, 0, lines.len() as int) <= config.max_chars,
    ensures
        text_chunks(lines, config) == seq![
            ChunkView {
                content: joined(lines, seq!['\n']),
                start_line: 0,
                end_line: (lines.len() - 1) as u32,
            },
        ],
{
    law_text_is_split_by_its_budgets(lines, config);
    let chunks = text_chunks(lines, config);
    let b = chunks[0].end_line as int;
    if b + 1 < lines.len() {
        lemma_size_grows(lines, 0, b + 2, lines.len() as int);
    }
    assert(quotes(chunks[0], lines));
    assert(lines.subrange(0, b + 1) =~= lines);
    assert(chunks =~= seq![chunks[0]]);
}

proof fn lemma_size_grows(lines: Seq<Seq<char>>, a: int, b: int, c: int)
    requires
        a <= b <= c,
    ensures
        size(lines, a, b) <= size(lines, a, c),
    decreases c - b,
{
    if b < c {
        lemma_size_back(lines, a, c);
        lemma_size_grows(lines, a, b, c - 1);
    }
}

proof fn lemma_size_shrinks(lines: Seq<Seq<char>>, a: int, b: int, c: int)
    requires
        a <= b <= c,
    ensures
        size(lines, b, c) <= size(lines, a, c),
    decreases b - a,
{
    if a < b {
        lemma_size_shrinks(lines, a + 1, b, c);
    }
}

/// A row in a file of `total` lines: one below the last line counts as that.
pub open spec fn clamped(row: usize, total: int) -> int {
    if row < total {
        row as int
    } else {
        total - 1
    }
}

/// Whether a node ends further down than every node before it.
pub open spec fn is_new_low(end_rows: Seq<usize>, total: int, k: int) -> bool {
    forall|j: int| 0 <= j < k ==> clamped(#[trigger] end_rows[j], total) < clamped(
        end_rows[k],
        total,
    )
}

/// Whether a row is one on which a node ends further down than every node
/// before it.
pub open spec fn is_reached_row(end_rows: Seq<usize>, total: int, row: int) -> bool {
    exists|k: int|
        #![trigger end_rows[k]]
        0 <= k < end_rows.len() && is_new_low(end_rows, total, k) && clamped(end_rows[k], total)
            == row
}

proof fn lemma_new_low_in_front(end_rows: Seq<usize>, total: int, k: int)
    requires
        0 <= k < end_rows.len() - 1,
    ensures
        is_new_low(end_rows.drop_last(), total, k) == is_new_low(end_rows, total, k),
{
    let front = end_rows.drop_last();
    assert(front[k] == end_rows[k]);
    if is_new_low(front, total, k) {
        assert forall|j: int| 0 <= j < k implies clamped(#[trigger] end_rows[j], total) < clamped(
            end_rows[k],
            total,
        ) by {
            assert(front[j] == end_rows[j]);
        }
    }
    if is_new_low(end_rows, total, k) {
        assert forall|j: int| 0 <= j < k implies clamped(#[trigger] front[j], total) < clamped(
            front[k],
            total,
        ) by {
            assert(front[j] == end_rows[j]);
        }
    }
}

proof fn lemma_boundaries_reach_every_row(end_rows: Seq<usize>, total: int, k: int)
    requires
        0 <= k < end_rows.len(),
    ensures
        boundaries(end_rows, total).len() > 0,
        clamped(end_rows[k], total) <= boundaries(end_rows, total).last(),
    decreases end_rows.len(),
{
    let front = end_rows.drop_last();
    if k < front.len() {
        assert(front[k] == end_rows[k]);
        lemma_boundaries_reach_every_row(front, total, k);
    }
}

proof fn lemma_boundary_is_reached(end_rows: Seq<usize>, total: int, i: int)
    requires
        0 <= i < boundaries(end_rows, total).len(),
    ensures
        is_reached_row(end_rows, total, boundaries(end_rows, total)[i]),
    decreases end_rows.len(),
{
    let front = end_rows.drop_last();
    let n = front.len() as int;
    let before = boundaries(front, total);
    let row = boundaries(end_rows, total)[i];
    if i < before.len() {
        lemma_boundary_is_reached(front, total, i);
        let k = choose|k: int|
            #![trigger front[k]]
            0 <= k < front.len() && is_new_low(front, total, k) && clamped(front[k], total) == row;
        lemma_new_low_in_front(end_rows, total, k);
        assert(end_rows[k] == front[k]);
    } else {
        assert(clamped(end_rows[n], total) == row);
        assert forall|j: int| 0 <= j < n implies clamped(#[trigger] end_rows[j], total)
            < row by {
            assert(front[j] == end_rows[j]);
            lemma_boundaries_reach_every_row(front, total, j);
        }
    }
}

proof fn lemma_reached_row_is_boundary(end_rows: Seq<usize>, total: int, k: int)
    requires
        0 <= k < end_rows.len(),
        is_new_low(end_rows, total, k),
    ensures
        boundaries(end_rows, total).contains(clamped(end_rows[k], total)),
    decreases end_rows.len(),
{
    let front = end_rows.drop_last();
    let n = front.len() as int;
    let before = boundaries(front, total);
    let all = boundaries(end_rows, total);
    let row = clamped(end_rows[k], total);
    if k < n {
        lemma_new_low_in_front(end_rows, total, k);
        assert(front[k] == end_rows[k]);
        lemma_reached_row_is_boundary(front, total, k);
        let i = choose|i: int| 0 <= i < before.len() && before[i] == row;
        assert(all[i] == row);
    } else {
        if before.len() > 0 {
            lemma_boundary_is_reached(front, total, before.len() - 1);
            let j = choose|j: int|
                #![trigger front[j]]
                0 <= j < front.len() && is_new_low(front, total, j) && clamped(front[j], total)
                    == before.last();
            assert(end_rows[j] == front[j]);
        }
        assert(all[all.len() - 1] == row);
    }
}

/// The rows at which windows may end are in order, and are just those on which
/// a node ends further down than every node before it. So the last of them is
/// the largest row on which any node ends.
pub proof fn law_boundaries_are_the_rows_reached(end_rows: Seq<usize>, total: int)
    requires
        total > 0,
    ensures
        forall|i: int, j: int|
            0 <= i < j < boundaries(end_rows, total).len() ==> boundaries(end_rows, total)[i]
                < boundaries(end_rows, total)[j],
        forall|row: int| #[trigger]
            boundaries(end_rows, total).contains(row) <==> is_reached_row(end_rows, total, row),
        end_rows.len() > 0 ==> boundaries(end_rows, total).len() > 0,
        forall|k: int|
            0 <= k < end_rows.len() ==> clamped(#[trigger] end_rows[k], total) <= boundaries(
                end_rows,
                total,
            ).last(),
{
    let all = boundaries(end_rows, total);
    lemma_boundaries(end_rows, total);
    assert forall|row: int| #[trigger] all.contains(row) <==> is_reached_row(
        end_rows,
        total,
        row,
    ) by {
        if all.contains(row) {
            let i = choose|i: int| 0 <= i < all.len() && all[i] == row;
            lemma_boundary_is_reached(end_rows, total, i);
        }
        if is_reached_row(end_rows, total, row) {
            let k = choose|k: int|
                #![trigger end_rows[k]]
                0 <= k < end_rows.len() && is_new_low(end_rows, total, k) && clamped(
                    end_rows[k],
                    total,
                ) == row;
            lemma_reached_row_is_boundary(end_rows, total, k);
        }
    }
    assert forall|k: int| 0 <= k < end_rows.len() implies clamped(#[trigger] end_rows[k], total)
        <= all.last() by {
        lemma_boundaries_reach_every_row(end_rows, total, k);
    }
}

/// Whether a line has nothing but white space on it.
pub open spec fn is_white(line: Seq<char>) -> bool {
    forall|i: int|
        0 <= i < line.len() ==> seq![' ', '\t', '\r', '\u{b}', '\u{c}'].contains(
            #[trigger] line[i],
        )
}

proof fn lemma_white(line: Seq<char>)
    ensures
        is_white(line) == is_blank(line),
{
    let marks = seq![' ', '\t', '\r', '\u{b}', '\u{c}'];
    assert(marks[0] == ' ' && marks[1] == '\t' && marks[2] == '\r' && marks[3] == '\u{b}'
        && marks[4] == '\u{c}');
    assert forall|c: char| #[trigger] marks.contains(c) <==> (c == ' ' || c == '\t' || c == '\r'
        || c == '\u{b}' || c == '\u{c}') by {
        if c == ' ' || c == '\t' || c == '\r' || c == '\u{b}' || c == '\u{c}' {
            let i: int = if c == ' ' {
                0
            } else if c == '\t' {
                1
            } else if c == '\r' {
                2
            } else if c == '\u{b}' {
                3
            } else {
                4
            };
            assert(marks[i] == c);
        }
    }
    if is_white(line) {
        assert forall|i: int| 0 <= i < line.len() implies {
            let c = #[trigger] line[i];
            c == ' ' || c == '\t' || c == '\r' || c == '\u{b}' || c == '\u{c}'
        } by {
            assert(marks.contains(line[i]));
        }
    }
    if is_blank(line) {
        assert forall|i: int| 0 <= i < line.len() implies marks.contains(#[trigger] line[i]) by {}
    }
}

/// Whether the lines of a node, without white ones in front, can be within the
/// budgets.
pub open spec fn can_fit(
    lines: Seq<Seq<char>>,
    ends: Seq<int>,
    node: int,
    config: ChunkingConfig,
) -> bool {
    exists|a: int|
        {
            &&& line_after(ends, node) <= a <= ends[node]
            &&& all_white(lines, line_after(ends, node), a)
            &&& !#[trigger] is_over(lines, a, ends[node] + 1, config)
        }
}

/// Whether the lines from `a` up to `b` are all white.
pub open spec fn all_white(lines: Seq<Seq<char>>, a: int, b: int) -> bool {
    forall|l: int| a <= l < b ==> is_white(#[trigger] lines[l])
}

proof fn lemma_first_content_stops(lines: Seq<Seq<char>>, from: int, to: int)
    requires
        from <= to,
    ensures
        first_content(lines, from, to) == to || !is_blank(lines[first_content(lines, from, to)]),
    decreases to - from,
{
    if from < to && is_blank(lines[from]) {
        lemma_first_content_stops(lines, from + 1, to);
    }
}

proof fn lemma_can_fit(
    lines: Seq<Seq<char>>,
    ends: Seq<int>,
    node: int,
    config: ChunkingConfig,
)
    requires
        are_boundaries(ends, lines.len() as int),
        0 <= node < ends.len(),
    ensures
        can_fit(lines, ends, node, config) == node_fits(lines, ends, node, config),
{
    let from = line_after(ends, node);
    let to = ends[node];
    if node > 0 {
        assert(ends[node - 1] < ends[node]);
    }
    let own = own_start(lines, ends, node);
    lemma_first_content(lines, from, to);
    lemma_first_content_stops(lines, from, to);
    lemma_over(lines, own, to + 1, config);
    if node_fits(lines, ends, node, config) {
        assert forall|l: int| from <= l < own implies is_white(#[trigger] lines[l]) by {
            lemma_white(lines[l]);
        }
        assert(!is_over(lines, own, to + 1, config));
    }
    if can_fit(lines, ends, node, config) {
        let a = choose|a: int|
            {
                &&& from <= a <= to
                &&& all_white(lines, from, a)
                &&& !#[trigger] is_over(lines, a, to + 1, config)
            };
        if own < a {
            lemma_white(lines[own]);
            assert(is_white(lines[own]));
        }
        lemma_size_shrinks(lines, a, own, to + 1);
    }
}

proof fn lemma_shortened_stops(
    lines: Seq<Seq<char>>,
    start: int,
    last: int,
    end: int,
    config: ChunkingConfig,
)
    requires
        start <= last,
    ensures
        ({
            let s = shortened(lines, start, last, end, config);
            s == start || !fits(lines, s - 1, end, config)
        }),
    decreases last - start,
{
    if start < last && !fits(lines, start, end, config) {
        lemma_shortened_stops(lines, start + 1, last, end, config);
    }
}

proof fn lemma_absorbed_stops(
    lines: Seq<Seq<char>>,
    ends: Seq<int>,
    start: int,
    nodes: int,
    config: ChunkingConfig,
)
    requires
        0 <= nodes <= ends.len(),
    ensures
        ({
            let all = absorbed(lines, ends, start, nodes, config);
            &&& all == nodes || fits(lines, start, ends[all - 1] + 1, config)
            &&& all == ends.len() || !fits(lines, start, ends[all] + 1, config)
        }),
    decreases ends.len() - nodes,
{
    if nodes < ends.len() && fits(lines, start, ends[nodes] + 1, config) {
        lemma_absorbed_stops(lines, ends, start, nodes + 1, config);
    }
}

/// Whether a window of code is what the budgets and the nodes make it, with
/// `node` its first node, `last` its last, and `base` where the overlap puts
/// its beginning.
///
/// It ends where its last node ends. It leaves out nothing but white lines, and
/// would be over a budget with one more node. A window of more than one node is
/// within the budgets, and so is one whose first node can be: then it begins
/// below the overlap only where that node needs the room. One whose node
/// cannot be within the budgets keeps all of its overlap.
pub open spec fn is_code_window(
    lines: Seq<Seq<char>>,
    ends: Seq<int>,
    config: ChunkingConfig,
    node: int,
    base: int,
    window: (int, int),
    last: int,
) -> bool {
    &&& node <= last < ends.len()
    &&& base <= window.0 < window.1
    &&& window.1 == ends[last] + 1
    &&& all_white(lines, line_after(ends, node), window.0)
    &&& last + 1 == ends.len() || is_over(lines, window.0, ends[last + 1] + 1, config)
    &&& last == node || !is_over(lines, window.0, window.1, config)
    &&& if can_fit(lines, ends, node, config) {
        &&& !is_over(lines, window.0, window.1, config)
        &&& window.0 == base || is_over(lines, window.0 - 1, ends[node] + 1, config)
    } else {
        window.0 == base
    }
}

/// Whether windows of code, each given with its last node, follow each other
/// from a node on to the last of all.
pub open spec fn are_code_windows_from(
    lines: Seq<Seq<char>>,
    ends: Seq<int>,
    config: ChunkingConfig,
    node: int,
    base: int,
    windows: Seq<((int, int), int)>,
) -> bool {
    &&& windows.len() > 0
    &&& windows.last().1 == ends.len() - 1
    &&& is_code_window(lines, ends, config, node, base, windows[0].0, windows[0].1)
    &&& forall|i: int, j: int|
        #![trigger windows[i], windows[j]]
        0 <= i && j == i + 1 && j < windows.len() ==> is_code_window(
            lines,
            ends,
            config,
            windows[i].1 + 1,
            following(windows[i].0.0, windows[i].0.1, config),
            windows[j].0,
            windows[j].1,
        )
}

/// The chunks of a window of code: the window as it is, if it is within the
/// budgets; else its text split as plain text, in place.
pub open spec fn pieces(
    lines: Seq<Seq<char>>,
    window: (int, int),
    config: ChunkingConfig,
) -> Seq<ChunkView> {
    let text = joined(lines.subrange(window.0, window.1), seq!['\n']);
    if is_over(lines, window.0, window.1, config) {
        text_chunks(lines_of(text), config).map_values(
            |c: ChunkView|
                ChunkView {
                    content: c.content,
                    start_line: (c.start_line + window.0) as u32,
                    end_line: (c.end_line + window.0) as u32,
                },
        )
    } else {
        seq![
            ChunkView {
                content: text,
                start_line: window.0 as u32,
                end_line: (window.1 - 1) as u32,
            },
        ]
    }
}

proof fn lemma_code_windows_from(
    lines: Seq<Seq<char>>,
    ends: Seq<int>,
    config: ChunkingConfig,
    node: int,
    base: int,
) -> (r: Seq<((int, int), int)>)
    requires
        are_boundaries(ends, lines.len() as int),
        0 <= node < ends.len(),
        0 <= base <= line_after(ends, node),
    ensures
        are_code_windows_from(lines, ends, config, node, base, r),
        r.map_values(|w: ((int, int), int)| w.0) == code_windows(lines, ends, base, node, config),
    decreases ends.len() - node,
{
    let begin = window_start(lines, ends, base, node, config);
    lemma_window_start(lines, ends, base, node, config);
    lemma_absorbed_advances(lines, ends, begin, node + 1, config);
    lemma_absorbed_stops(lines, ends, begin, node + 1, config);
    let nodes = absorbed(lines, ends, begin, node + 1, config);
    let last = nodes - 1;
    let end = ends[last] + 1;
    let first = ((begin, end), last);
    if node < last {
        assert(ends[node] < ends[last]);
    }
    let from = line_after(ends, node);
    if node > 0 {
        assert(ends[node - 1] < ends[node]);
    }
    lemma_first_content(lines, from, ends[node]);
    assert forall|l: int| from <= l < begin implies is_white(#[trigger] lines[l]) by {
        lemma_white(lines[l]);
    }
    lemma_over(lines, begin, end, config);
    lemma_over(lines, begin - 1, ends[node] + 1, config);
    lemma_can_fit(lines, ends, node, config);
    if nodes < ends.len() {
        assert(ends[last] < ends[nodes]);
        lemma_over(lines, begin, ends[nodes] + 1, config);
    }
    if node_fits(lines, ends, node, config) {
        lemma_shortened_stops(lines, base, own_start(lines, ends, node), ends[node] + 1, config);
    }
    assert(is_code_window(lines, ends, config, node, base, first.0, first.1));
    let all = code_windows(lines, ends, base, node, config);
    if nodes < ends.len() {
        let next = next_start(begin, end, config);
        assert(next == following(begin, end, config));
        let rest = lemma_code_windows_from(lines, ends, config, nodes, next);
        let r = seq![first] + rest;
        assert forall|i: int, j: int|
            #![trigger r[i], r[j]]
            0 <= i && j == i + 1 && j < r.len() implies is_code_window(
            lines,
            ends,
            config,
            r[i].1 + 1,
            following(r[i].0.0, r[i].0.1, config),
            r[j].0,
            r[j].1,
        ) by {
            assert(r[j] == rest[j - 1]);
            if i > 0 {
                assert(r[i] == rest[i - 1]);
            }
        }
        assert(r.last() == rest.last());
        assert(r.map_values(|w: ((int, int), int)| w.0) =~= seq![(begin, end)] + rest.map_values(
            |w: ((int, int), int)| w.0,
        ));
        r
    } else {
        let r = seq![first];
        assert(code_windows(lines, ends, next_start(begin, end, config), nodes, config) =~= seq![]);
        assert(r.map_values(|w: ((int, int), int)| w.0) =~= all);
        r
    }
}

/// Code is split along its nodes: its chunks are those of windows that follow
/// each other from the first node to the last, each as the budgets and the
/// nodes make it. Gives the windows, each with its last node.
pub proof fn law_code_is_split_along_its_nodes(
    content: Seq<char>,
    end_rows: Seq<usize>,
    config: ChunkingConfig,
) -> (r: Seq<((int, int), int)>)
    requires
        lines_of(content).len() > 0,
        end_rows.len() > 0,
    ensures
        are_code_windows_from(
            lines_of(content),
            boundaries(end_rows, lines_of(content).len() as int),
            config,
            0,
            0,
            r,
        ),
        split_code(content, end_rows, config) == r.map_values(
            |w: ((int, int), int)| pieces(lines_of(content), w.0, config),
        ).flatten(),
{
    let lines = lines_of(content);
    let ends = boundaries(end_rows, lines.len() as int);
    lemma_boundaries(end_rows, lines.len() as int);
    let r = lemma_code_windows_from(lines, ends, config, 0, 0);
    let ws = code_windows(lines, ends, 0, 0, config);
    let parts = ws.map_values(|w: (int, int)| code_window_chunks(lines, w.0, w.1, config));
    let wanted = r.map_values(|w: ((int, int), int)| pieces(lines, w.0, config));
    assert forall|i: int| 0 <= i < r.len() implies #[trigger] wanted[i] == parts[i] by {
        let w = r[i].0;
        assert(ws[i] == r.map_values(|w: ((int, int), int)| w.0)[i]);
        if i > 0 {
            assert(is_code_window(
                lines,
                ends,
                config,
                r[i - 1].1 + 1,
                following(r[i - 1].0.0, r[i - 1].0.1, config),
                r[i].0,
                r[i].1,
            ));
        }
        lemma_over(lines, w.0, w.1, config);
        assert(pieces(lines, w, config) =~= code_window_chunks(lines, w.0, w.1, config));
    }
    assert(wanted =~= parts);
    r
}

/// Code without lines has no chunks, and code without nodes is split as plain
/// text.
pub proof fn law_code_without_nodes_is_text(
    content: Seq<char>,
    end_rows: Seq<usize>,
    config: ChunkingConfig,
)
    requires
        lines_of(content).len() == 0 || end_rows.len() == 0,
    ensures
        split_code(content, end_rows, config) == text_chunks(lines_of(content), config),
{
    if lines_of(content).len() == 0 {
        assert(text_windows(lines_of(content), 0, config) =~= seq![]);
        assert(text_chunks(lines_of(content), config) =~= seq![]);
    }
}

/// The chunks of code leave out no line with anything on it, up to the largest
/// row on which any node ends, whether or not two nodes end on one row.
pub proof fn law_code_chunks_cover_every_node(
    content: Seq<char>,
    end_rows: Seq<usize>,
    config: ChunkingConfig,
    node: int,
    line: int,
)
    requires
        0 < lines_of(content).len() <= u32::MAX + 1,
        0 <= node < end_rows.len(),
        0 <= line <= clamped(end_rows[node], lines_of(content).len() as int),
        !is_white(lines_of(content)[line]),
    ensures
        some_chunk_holds(split_code(content, end_rows, config), line),
{
    let total = lines_of(content).len() as int;
    law_boundaries_are_the_rows_reached(end_rows, total);
    lemma_boundaries(end_rows, total);
    lemma_white(lines_of(content)[line]);
    law_code_chunks_cover_every_line_with_content(
        content,
        boundaries(end_rows, total),
        config,
        line,
    );
}

} // verus!
