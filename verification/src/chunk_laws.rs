//! What holds of every way of splitting a file.

use crate::chunker::{
    absorbed, are_boundaries, are_text_windows, boundaries, code_chunks, code_window_chunks,
    code_windows, file_chunks, fits, grammar_for, is_blank, lemma_absorbed_advances,
    lemma_boundaries, lemma_first_content, lemma_grown, lemma_text_windows, lemma_window_start,
    moved_down, names_binary_format, next_start, node_fits, row_views, span, split_code,
    syntax_end_rows, text_chunks, text_windows, window_chunk, window_start, windows_follow,
    ChunkView, ChunkingConfig,
};
use crate::text::{
    joined, lemma_lines_come_from_the_text, lemma_lines_hold_no_break, lemma_lines_of_joined,
    lemma_resplit, lines_of, lower_char, lowered, resplit, without_cr,
};
use vstd::prelude::*;

verus! {

/// Whether `chunk` has the lines of `lines` that its bounds name, joined by
/// line feeds, as its content.
pub open spec fn quotes(chunk: ChunkView, lines: Seq<Seq<char>>) -> bool {
    &&& chunk.start_line <= chunk.end_line < lines.len()
    &&& chunk.content == joined(
        lines.subrange(chunk.start_line as int, chunk.end_line + 1),
        seq!['\n'],
    )
}

/// Whether `chunk` is within both budgets: no more than `chunk_lines` lines,
/// and fewer than `max_chars` characters unless it is a single line.
pub open spec fn within_budget(chunk: ChunkView, config: ChunkingConfig) -> bool {
    &&& chunk.end_line - chunk.start_line + 1 <= config.chunk_lines || chunk.start_line
        == chunk.end_line
    &&& chunk.content.len() < config.max_chars || chunk.start_line == chunk.end_line
}

/// Whether the given line lies within the bounds of a chunk.
pub open spec fn some_chunk_holds(chunks: Seq<ChunkView>, line: int) -> bool {
    exists|i: int|
        0 <= i < chunks.len() && (#[trigger] chunks[i]).start_line <= line <= chunks[i].end_line
}

/// The text of a window is one character short of the window's span.
proof fn lemma_window_len(lines: Seq<Seq<char>>, start: int, end: int)
    requires
        0 <= start < end <= lines.len(),
    ensures
        joined(lines.subrange(start, end), seq!['\n']).len() + 1 == span(lines, start, end),
    decreases end - start,
{
    let part = lines.subrange(start, end);
    if end == start + 1 {
        reveal_with_fuel(span, 2);
        assert(part.len() == 1);
    } else {
        lemma_window_len(lines, start, end - 1);
        assert(part.drop_last() =~= lines.subrange(start, end - 1));
    }
}

pub proof fn lemma_window_within_budget(
    lines: Seq<Seq<char>>,
    start: int,
    end: int,
    config: ChunkingConfig,
)
    requires
        0 <= start < end <= lines.len(),
        end - 1 <= u32::MAX,
        end == start + 1 || fits(lines, start, end, config),
    ensures
        within_budget(window_chunk(lines, start, end), config),
        quotes(window_chunk(lines, start, end), lines),
{
    lemma_window_len(lines, start, end);
}

/// Every plain-text chunk quotes the lines that its bounds name and stays
/// within the budgets.
pub proof fn law_text_chunks_within_budget(
    lines: Seq<Seq<char>>,
    config: ChunkingConfig,
    i: int,
)
    requires
        lines.len() <= u32::MAX + 1,
        0 <= i < text_chunks(lines, config).len(),
    ensures
        quotes(text_chunks(lines, config)[i], lines),
        within_budget(text_chunks(lines, config)[i], config),
{
    let ws = text_windows(lines, 0, config);
    lemma_text_windows(lines, 0, config);
    lemma_grown(lines, ws[i].0, ws[i].0 + 1, config);
    lemma_window_within_budget(lines, ws[i].0, ws[i].1, config);
}

/// The plain-text chunks of a file cover it: there are none exactly if it has
/// no line, the first begins with the first line, the last ends with the last
/// line, each begins after the one before it began but leaves no gap behind
/// it, and so every line is in a chunk.
pub proof fn law_text_chunks_cover_every_line(lines: Seq<Seq<char>>, config: ChunkingConfig)
    requires
        lines.len() <= u32::MAX + 1,
    ensures
        ({
            let chunks = text_chunks(lines, config);
            &&& chunks.len() == 0 <==> lines.len() == 0
            &&& lines.len() > 0 ==> chunks[0].start_line == 0
            &&& lines.len() > 0 ==> chunks.last().end_line == lines.len() - 1
            &&& forall|i: int, j: int|
                #![trigger chunks[i], chunks[j]]
                0 <= i && j == i + 1 && j < chunks.len() ==> chunks[i].start_line
                    < chunks[j].start_line <= chunks[i].end_line + 1
            &&& forall|line: int| 0 <= line < lines.len() ==> #[trigger] some_chunk_holds(
                chunks,
                line,
            )
        }),
{
    let ws = text_windows(lines, 0, config);
    let chunks = text_chunks(lines, config);
    if lines.len() > 0 {
        lemma_text_windows(lines, 0, config);
        assert(chunks[0] == window_chunk(lines, ws[0].0, ws[0].1));
        assert(chunks.last() == window_chunk(lines, ws.last().0, ws.last().1));
        assert forall|i: int, j: int|
            #![trigger chunks[i], chunks[j]]
            0 <= i && j == i + 1 && j < chunks.len() implies chunks[i].start_line
            < chunks[j].start_line <= chunks[i].end_line + 1 by {
            assert(chunks[i] == window_chunk(lines, ws[i].0, ws[i].1));
            assert(chunks[j] == window_chunk(lines, ws[j].0, ws[j].1));
        }
        assert forall|line: int| 0 <= line < lines.len() implies #[trigger] some_chunk_holds(
            chunks,
            line,
        ) by {
            let i = lemma_some_window_holds(ws, lines, config, line, ws.len() - 1);
            assert(chunks[i] == window_chunk(lines, ws[i].0, ws[i].1));
        }
    } else {
        assert(ws =~= seq![]);
    }
}

proof fn lemma_some_window_holds(
    ws: Seq<(int, int)>,
    lines: Seq<Seq<char>>,
    config: ChunkingConfig,
    line: int,
    last: int,
) -> (i: int)
    requires
        are_text_windows(ws, lines, 0, config),
        windows_follow(ws, config),
        0 <= last < ws.len(),
        ws[0].0 == 0,
        0 <= line < ws[last].1,
    ensures
        0 <= i <= last,
        ws[i].0 <= line < ws[i].1,
    decreases last,
{
    if ws[last].0 <= line {
        last
    } else {
        assert(last > 0);
        assert(ws[last].0 == next_start(ws[last - 1].0, ws[last - 1].1, config));
        lemma_some_window_holds(ws, lines, config, line, last - 1)
    }
}

/// Each plain-text chunk after the first begins exactly `overlap_lines` lines
/// before the end of the one before it, or one line after that one began if
/// the overlap would not leave it behind.
pub proof fn law_text_chunks_overlap(
    lines: Seq<Seq<char>>,
    config: ChunkingConfig,
    i: int,
)
    requires
        lines.len() <= u32::MAX + 1,
        0 < i < text_chunks(lines, config).len(),
    ensures
        ({
            let before = text_chunks(lines, config)[i - 1];
            let chunk = text_chunks(lines, config)[i];
            if before.end_line + 1 - config.overlap_lines > before.start_line {
                chunk.start_line == before.end_line + 1 - config.overlap_lines
            } else {
                chunk.start_line == before.start_line + 1
            }
        }),
{
    let ws = text_windows(lines, 0, config);
    lemma_text_windows(lines, 0, config);
    assert(ws[i].0 == next_start(ws[i - 1].0, ws[i - 1].1, config));
}

/// A plain-text chunk is as long as the budgets allow: unless it reaches the
/// end of the file, one more line would be over a budget.
pub proof fn law_text_chunks_are_maximal(
    lines: Seq<Seq<char>>,
    config: ChunkingConfig,
    i: int,
)
    requires
        lines.len() <= u32::MAX + 1,
        0 <= i < text_chunks(lines, config).len(),
    ensures
        ({
            let chunk = text_chunks(lines, config)[i];
            chunk.end_line + 1 == lines.len() || !fits(
                lines,
                chunk.start_line as int,
                chunk.end_line + 2,
                config,
            )
        }),
{
    let ws = text_windows(lines, 0, config);
    lemma_text_windows(lines, 0, config);
    lemma_grown(lines, ws[i].0, ws[i].0 + 1, config);
}

/// The line after the node before the given one.
pub open spec fn line_after(ends: Seq<int>, node: int) -> int {
    if node == 0 {
        0
    } else {
        ends[node - 1] + 1
    }
}

/// Whether a window belongs to a node that is over the budgets by itself: it
/// ends where the node ends, and begins no further before the node than the
/// overlap reaches.
pub open spec fn oversized(
    lines: Seq<Seq<char>>,
    ends: Seq<int>,
    window: (int, int),
    config: ChunkingConfig,
) -> bool {
    exists|k: int|
        0 <= k < ends.len() && window.1 == #[trigger] ends[k] + 1 && line_after(ends, k)
            - config.overlap_lines <= window.0 && !node_fits(lines, ends, k, config)
}

/// Whether each window lies in the file, ends where a node ends, and is within
/// the budgets unless that node is over them by itself.
pub open spec fn are_code_windows(
    windows: Seq<(int, int)>,
    lines: Seq<Seq<char>>,
    ends: Seq<int>,
    config: ChunkingConfig,
) -> bool {
    forall|i: int|
        #![trigger windows[i]]
        0 <= i < windows.len() ==> {
            &&& 0 <= windows[i].0 < windows[i].1 <= lines.len()
            &&& ends.contains(windows[i].1 - 1)
            &&& fits(lines, windows[i].0, windows[i].1, config) || oversized(
                lines,
                ends,
                windows[i],
                config,
            )
        }
}

/// Whether the given lines are all blank.
pub open spec fn all_blank(lines: Seq<Seq<char>>, from: int, to: int) -> bool {
    forall|l: int| from <= l < to ==> is_blank(#[trigger] lines[l])
}

/// Whether each window begins after the one before it began, ends after it
/// ended, and leaves nothing but blank lines between them.
pub open spec fn windows_advance(windows: Seq<(int, int)>, lines: Seq<Seq<char>>) -> bool {
    forall|i: int, j: int|
        #![trigger windows[i], windows[j]]
        0 <= i && j == i + 1 && j < windows.len() ==> {
            &&& windows[i].0 < windows[j].0
            &&& windows[i].1 < windows[j].1
            &&& all_blank(lines, windows[i].1, windows[j].0)
        }
}

proof fn lemma_advance_prepend(
    first: (int, int),
    rest: Seq<(int, int)>,
    lines: Seq<Seq<char>>,
)
    requires
        windows_advance(rest, lines),
        rest.len() > 0 ==> first.0 < rest[0].0 && first.1 < rest[0].1 && all_blank(
            lines,
            first.1,
            rest[0].0,
        ),
    ensures
        windows_advance(seq![first] + rest, lines),
{
    let all = seq![first] + rest;
    assert forall|i: int, j: int|
        #![trigger all[i], all[j]]
        0 <= i && j == i + 1 && j < all.len() implies {
        &&& all[i].0 < all[j].0
        &&& all[i].1 < all[j].1
        &&& all_blank(lines, all[i].1, all[j].0)
    } by {
        assert(all[j] == rest[j - 1]);
        if i > 0 {
            assert(all[i] == rest[i - 1]);
        }
    }
}

proof fn lemma_code_windows(
    lines: Seq<Seq<char>>,
    ends: Seq<int>,
    start: int,
    node: int,
    config: ChunkingConfig,
)
    requires
        are_boundaries(ends, lines.len() as int),
        0 <= node < ends.len(),
        0 <= start <= line_after(ends, node),
        line_after(ends, node) - config.overlap_lines <= start,
    ensures
        ({
            let ws = code_windows(lines, ends, start, node, config);
            &&& ws.len() > 0
            &&& start <= ws[0].0
            &&& ends[node] < ws[0].1
            &&& all_blank(lines, line_after(ends, node), ws[0].0)
            &&& ws.last().1 == ends.last() + 1
            &&& are_code_windows(ws, lines, ends, config)
            &&& windows_advance(ws, lines)
        }),
    decreases ends.len() - node,
{
    let begin = window_start(lines, ends, start, node, config);
    lemma_window_start(lines, ends, start, node, config);
    lemma_first_content(lines, line_after(ends, node), ends[node]);
    lemma_absorbed_advances(lines, ends, begin, node + 1, config);
    lemma_absorbed_fits(lines, ends, begin, node + 1, config);
    let nodes = absorbed(lines, ends, begin, node + 1, config);
    let end = ends[nodes - 1] + 1;
    if node < nodes - 1 {
        assert(ends[node] < ends[nodes - 1]);
    }
    let next = next_start(begin, end, config);
    let rest = code_windows(lines, ends, next, nodes, config);
    let all = code_windows(lines, ends, start, node, config);
    assert(all == seq![(begin, end)] + rest);
    if nodes < ends.len() {
        lemma_code_windows(lines, ends, next, nodes, config);
        assert(ends[nodes - 1] < ends[nodes]);
        assert(all.last() == rest.last());
    } else {
        assert(rest =~= seq![]);
        assert(all.last() == (begin, end));
    }
    assert forall|i: int| #![trigger all[i]] 0 <= i < all.len() implies {
        &&& 0 <= all[i].0 < all[i].1 <= lines.len()
        &&& ends.contains(all[i].1 - 1)
        &&& fits(lines, all[i].0, all[i].1, config) || oversized(lines, ends, all[i], config)
    } by {
        if i > 0 {
            assert(all[i] == rest[i - 1]);
        } else {
            assert(ends[nodes - 1] == end - 1);
            if !fits(lines, begin, end, config) {
                assert(nodes == node + 1);
                assert(all[0].1 == ends[node] + 1 && !node_fits(lines, ends, node, config));
                assert(begin == start);
            }
        }
    }
    lemma_advance_prepend((begin, end), rest, lines);
}

/// The code windows of a file align with its syntax: each ends on the last row
/// of a top-level node, the last one on that of the last node; one that is
/// over the budgets ends on a node that is over them by itself, and begins
/// with no more than the overlap before it; and each begins after the one
/// before it began, with nothing but blank lines left out before the first and
/// between two of them.
pub proof fn law_code_windows_align_with_nodes(
    lines: Seq<Seq<char>>,
    ends: Seq<int>,
    config: ChunkingConfig,
)
    requires
        ends.len() > 0,
        are_boundaries(ends, lines.len() as int),
    ensures
        ({
            let ws = code_windows(lines, ends, 0, 0, config);
            &&& ws.len() > 0
            &&& all_blank(lines, 0, ws[0].0)
            &&& ws.last().1 == ends.last() + 1
            &&& are_code_windows(ws, lines, ends, config)
            &&& windows_advance(ws, lines)
        }),
{
    lemma_code_windows(lines, ends, 0, 0, config);
}

/// A code window over the budgets holds a single top-level node: a further
/// node is only ever taken in within them.
pub proof fn law_oversized_window_is_one_node(
    lines: Seq<Seq<char>>,
    ends: Seq<int>,
    start: int,
    node: int,
    config: ChunkingConfig,
)
    requires
        0 <= node < ends.len(),
    ensures
        ({
            let nodes = absorbed(lines, ends, start, node + 1, config);
            nodes == node + 1 || fits(lines, start, ends[nodes - 1] + 1, config)
        }),
{
    lemma_absorbed_fits(lines, ends, start, node + 1, config);
}

proof fn lemma_absorbed_fits(
    lines: Seq<Seq<char>>,
    ends: Seq<int>,
    start: int,
    nodes: int,
    config: ChunkingConfig,
)
    requires
        0 <= nodes <= ends.len(),
    ensures
        absorbed(lines, ends, start, nodes, config) == nodes || fits(
            lines,
            start,
            ends[absorbed(lines, ends, start, nodes, config) - 1] + 1,
            config,
        ),
    decreases ends.len() - nodes,
{
    if nodes < ends.len() && fits(lines, start, ends[nodes] + 1, config) {
        lemma_absorbed_fits(lines, ends, start, nodes + 1, config);
    }
}

/// Rows that lie in the file, each below the one before, are the rows at which
/// windows may end, as they are.
pub proof fn law_rows_in_order_are_kept(end_rows: Seq<usize>, total: int)
    requires
        forall|i: int| 0 <= i < end_rows.len() ==> #[trigger] end_rows[i] < total,
        forall|i: int, j: int| 0 <= i < j < end_rows.len() ==> end_rows[i] < end_rows[j],
    ensures
        boundaries(end_rows, total) == row_views(end_rows),
    decreases end_rows.len(),
{
    if end_rows.len() > 0 {
        let front = end_rows.drop_last();
        law_rows_in_order_are_kept(front, total);
        assert(row_views(end_rows) =~= row_views(front).push(end_rows.last() as int));
        if front.len() > 0 {
            assert(front.last() == end_rows[front.len() - 1]);
        }
    } else {
        assert(row_views(end_rows) =~= seq![]);
    }
}

proof fn lemma_flatten_member<A>(parts: Seq<Seq<A>>, i: int) -> (at: (int, int))
    requires
        0 <= i < parts.flatten().len(),
    ensures
        0 <= at.0 < parts.len(),
        0 <= at.1 < parts[at.0].len(),
        parts[at.0][at.1] == parts.flatten()[i],
    decreases parts.len(),
{
    if parts.len() == 0 {
        (0, 0)
    } else if i < parts.first().len() {
        (0, i)
    } else {
        let rest = parts.drop_first();
        let at = lemma_flatten_member(rest, i - parts.first().len());
        assert(parts[at.0 + 1] == rest[at.0]);
        (at.0 + 1, at.1)
    }
}

proof fn lemma_flatten_holds<A>(parts: Seq<Seq<A>>, a: int, b: int) -> (i: int)
    requires
        0 <= a < parts.len(),
        0 <= b < parts[a].len(),
    ensures
        0 <= i < parts.flatten().len(),
        parts.flatten()[i] == parts[a][b],
    decreases parts.len(),
{
    if a == 0 {
        b
    } else {
        let rest = parts.drop_first();
        assert(rest[a - 1] == parts[a]);
        let i = lemma_flatten_holds(rest, a - 1, b);
        parts.first().len() + i
    }
}

/// The lines of a window that is split as plain text, as that sees them.
proof fn lemma_part(content: Seq<char>, start: int, end: int) -> (part: Seq<Seq<char>>)
    requires
        0 <= start < end <= lines_of(content).len(),
    ensures
        part == lines_of(joined(lines_of(content).subrange(start, end), seq!['\n'])),
        part == resplit(lines_of(content).subrange(start, end)),
        end - start - 1 <= part.len() <= end - start,
        part.len() < end - start ==> lines_of(content)[end - 1].len() == 0,
{
    let lines = lines_of(content);
    let sub = lines.subrange(start, end);
    lemma_lines_hold_no_break(content);
    assert forall|i: int, j: int| 0 <= i < sub.len() && 0 <= j < sub[i].len() implies
        #[trigger] sub[i][j] != '\n' by {
        assert(sub[i] == lines[start + i]);
        assert(lines[start + i][j] != '\n');
    }
    lemma_lines_of_joined(sub);
    lemma_resplit(sub);
    assert(sub.last() == lines[end - 1]);
    resplit(sub)
}

/// What a chunk of code is: the chunk of a window that is within the budgets,
/// or a plain-text chunk of one that is not.
proof fn lemma_code_chunk(
    content: Seq<char>,
    ends: Seq<int>,
    config: ChunkingConfig,
    i: int,
) -> (at: (int, int))
    requires
        are_boundaries(ends, lines_of(content).len() as int),
        ends.len() > 0,
        0 <= i < code_chunks(lines_of(content), ends, config).len(),
    ensures
        ({
            let lines = lines_of(content);
            let chunk = code_chunks(lines, ends, config)[i];
            let ws = code_windows(lines, ends, 0, 0, config);
            let w = ws[at.0];
            &&& 0 <= at.0 < ws.len()
            &&& are_code_windows(ws, lines, ends, config)
            &&& if fits(lines, w.0, w.1, config) {
                chunk == window_chunk(lines, w.0, w.1)
            } else {
                let part = resplit(lines.subrange(w.0, w.1));
                &&& part.len() <= w.1 - w.0
                &&& 0 <= at.1 < text_chunks(part, config).len()
                &&& chunk == moved_down(text_chunks(part, config)[at.1], w.0)
            }
        }),
{
    let lines = lines_of(content);
    let ws = code_windows(lines, ends, 0, 0, config);
    lemma_code_windows(lines, ends, 0, 0, config);
    let split = |w: (int, int)| code_window_chunks(lines, w.0, w.1, config);
    let parts = ws.map_values(split);
    let at = lemma_flatten_member(parts, i);
    let w = ws[at.0];
    assert(parts[at.0] == code_window_chunks(lines, w.0, w.1, config));
    let part = lemma_part(content, w.0, w.1);
    at
}

/// Every chunk of code ends where a top-level node ends, unless it comes of a
/// node that is over the budgets by itself: then it lies within that node and
/// the overlap before it.
pub proof fn law_code_chunks_end_with_their_nodes(
    content: Seq<char>,
    ends: Seq<int>,
    config: ChunkingConfig,
    i: int,
)
    requires
        lines_of(content).len() <= u32::MAX + 1,
        are_boundaries(ends, lines_of(content).len() as int),
        ends.len() > 0,
        0 <= i < code_chunks(lines_of(content), ends, config).len(),
    ensures
        ({
            let lines = lines_of(content);
            let chunk = code_chunks(lines, ends, config)[i];
            ends.contains(chunk.end_line as int) || exists|k: int|
                0 <= k < ends.len() && chunk.end_line <= #[trigger] ends[k] && line_after(ends, k)
                    - config.overlap_lines <= chunk.start_line && !node_fits(
                    lines,
                    ends,
                    k,
                    config,
                )
        }),
{
    let lines = lines_of(content);
    let at = lemma_code_chunk(content, ends, config, i);
    let w = code_windows(lines, ends, 0, 0, config)[at.0];
    if !fits(lines, w.0, w.1, config) {
        let part = resplit(lines.subrange(w.0, w.1));
        law_text_chunks_within_budget(part, config, at.1);
        let k = choose|k: int|
            0 <= k < ends.len() && w.1 == #[trigger] ends[k] + 1 && line_after(ends, k)
                - config.overlap_lines <= w.0 && !node_fits(lines, ends, k, config);
        assert(code_chunks(lines, ends, config)[i].end_line <= ends[k]);
    }
}

/// Whether one of the nodes ends on a row; one that ends below the last line
/// ends on that.
pub open spec fn ends_a_node(end_rows: Seq<usize>, total: int, row: int) -> bool {
    exists|k: int|
        0 <= k < end_rows.len() && row == if #[trigger] end_rows[k] < total {
            end_rows[k] as int
        } else {
            total - 1
        }
}

proof fn lemma_boundaries_end_nodes(end_rows: Seq<usize>, total: int, i: int)
    requires
        0 <= i < boundaries(end_rows, total).len(),
    ensures
        ends_a_node(end_rows, total, boundaries(end_rows, total)[i]),
    decreases end_rows.len(),
{
    let front = end_rows.drop_last();
    let row = boundaries(end_rows, total)[i];
    if i < boundaries(front, total).len() {
        lemma_boundaries_end_nodes(front, total, i);
        let k = choose|k: int|
            0 <= k < front.len() && row == if #[trigger] front[k] < total {
                front[k] as int
            } else {
                total - 1
            };
        assert(end_rows[k] == front[k]);
    } else {
        assert(end_rows[end_rows.len() - 1] == end_rows.last());
    }
}

/// No construct that fits is split: where the nodes of a file are within the
/// budgets one by one, every chunk ends on the last row of a node.
pub proof fn law_fitting_nodes_are_never_split(
    content: Seq<char>,
    end_rows: Seq<usize>,
    config: ChunkingConfig,
    i: int,
)
    requires
        0 < lines_of(content).len() <= u32::MAX + 1,
        end_rows.len() > 0,
        forall|k: int|
            0 <= k < boundaries(end_rows, lines_of(content).len() as int).len()
                ==> #[trigger] node_fits(
                lines_of(content),
                boundaries(end_rows, lines_of(content).len() as int),
                k,
                config,
            ),
        0 <= i < split_code(content, end_rows, config).len(),
    ensures
        ends_a_node(
            end_rows,
            lines_of(content).len() as int,
            split_code(content, end_rows, config)[i].end_line as int,
        ),
{
    let total = lines_of(content).len() as int;
    let ends = boundaries(end_rows, total);
    lemma_boundaries(end_rows, total);
    law_code_chunks_end_with_their_nodes(content, ends, config, i);
    let chunk = split_code(content, end_rows, config)[i];
    assert(ends.contains(chunk.end_line as int));
    let k = choose|k: int| 0 <= k < ends.len() && ends[k] == chunk.end_line as int;
    lemma_boundaries_end_nodes(end_rows, total, k);
}

/// Every chunk of code stays within the budgets, whatever rows its nodes end
/// on, and lies in the file.
pub proof fn law_code_chunks_within_budget(
    content: Seq<char>,
    end_rows: Seq<usize>,
    config: ChunkingConfig,
    i: int,
)
    requires
        lines_of(content).len() <= u32::MAX + 1,
        0 <= i < split_code(content, end_rows, config).len(),
    ensures
        within_budget(split_code(content, end_rows, config)[i], config),
        split_code(content, end_rows, config)[i].start_line <= split_code(
            content,
            end_rows,
            config,
        )[i].end_line < lines_of(content).len(),
{
    let lines = lines_of(content);
    if end_rows.len() == 0 {
        law_text_chunks_within_budget(lines, config, i);
    } else {
        let ends = boundaries(end_rows, lines.len() as int);
        lemma_boundaries(end_rows, lines.len() as int);
        let at = lemma_code_chunk(content, ends, config, i);
        let w = code_windows(lines, ends, 0, 0, config)[at.0];
        if fits(lines, w.0, w.1, config) {
            lemma_window_within_budget(lines, w.0, w.1, config);
        } else {
            law_text_chunks_within_budget(
                resplit(lines.subrange(w.0, w.1)),
                config,
                at.1,
            );
        }
    }
}

/// Every chunk of code quotes the lines that its bounds name, whatever rows
/// its nodes end on, as long as no line ends in a carriage return of its own,
/// besides that of its line break.
pub proof fn law_code_chunks_quote_their_lines(
    content: Seq<char>,
    end_rows: Seq<usize>,
    config: ChunkingConfig,
    i: int,
)
    requires
        lines_of(content).len() <= u32::MAX + 1,
        forall|k: int|
            0 <= k < lines_of(content).len() && (#[trigger] lines_of(content)[k]).len() > 0
                ==> lines_of(content)[k].last() != '\r',
        0 <= i < split_code(content, end_rows, config).len(),
    ensures
        quotes(split_code(content, end_rows, config)[i], lines_of(content)),
{
    let lines = lines_of(content);
    if end_rows.len() == 0 {
        law_text_chunks_within_budget(lines, config, i);
    } else {
        let ends = boundaries(end_rows, lines.len() as int);
        lemma_boundaries(end_rows, lines.len() as int);
        let at = lemma_code_chunk(content, ends, config, i);
        let w = code_windows(lines, ends, 0, 0, config)[at.0];
        if fits(lines, w.0, w.1, config) {
            lemma_window_within_budget(lines, w.0, w.1, config);
        } else {
            let sub = lines.subrange(w.0, w.1);
            let part = resplit(sub);
            lemma_resplit(sub);
            law_text_chunks_within_budget(part, config, at.1);
            let c = text_chunks(part, config)[at.1];
            assert forall|k: int| 0 <= k < part.len() implies part[k] == #[trigger] sub[k] by {
                assert(sub[k] == lines[w.0 + k]);
                assert(without_cr(sub[k]) == sub[k]);
                assert(part[k] == sub[k] || part[k] == without_cr(sub[k]));
            }
            let a = c.start_line as int;
            let b = c.end_line + 1;
            assert(part.subrange(a, b) =~= lines.subrange(w.0 + a, w.0 + b)) by {
                assert forall|k: int| a <= k < b implies part[k] == lines[w.0 + k] by {
                    assert(part[k] == sub[k]);
                }
            }
        }
    }
}

/// In a text without carriage returns, every chunk of code quotes the lines
/// that its bounds name.
pub proof fn law_code_chunks_quote_plain_lines(
    content: Seq<char>,
    end_rows: Seq<usize>,
    config: ChunkingConfig,
    i: int,
)
    requires
        lines_of(content).len() <= u32::MAX + 1,
        !content.contains('\r'),
        0 <= i < split_code(content, end_rows, config).len(),
    ensures
        quotes(split_code(content, end_rows, config)[i], lines_of(content)),
{
    let lines = lines_of(content);
    assert forall|k: int| 0 <= k < lines.len() && (#[trigger] lines[k]).len() > 0 implies
        lines[k].last() != '\r' by {
        lemma_lines_come_from_the_text(content, k, lines[k].len() - 1);
    }
    law_code_chunks_quote_their_lines(content, end_rows, config, i);
}

/// The chunks of code leave out no line with anything on it, up to the last
/// row that a node ends on.
pub proof fn law_code_chunks_cover_every_line_with_content(
    content: Seq<char>,
    ends: Seq<int>,
    config: ChunkingConfig,
    line: int,
)
    requires
        lines_of(content).len() <= u32::MAX + 1,
        are_boundaries(ends, lines_of(content).len() as int),
        ends.len() > 0,
        0 <= line <= ends.last(),
        !is_blank(lines_of(content)[line]),
    ensures
        some_chunk_holds(code_chunks(lines_of(content), ends, config), line),
{
    let lines = lines_of(content);
    let chunks = code_chunks(lines, ends, config);
    let ws = code_windows(lines, ends, 0, 0, config);
    lemma_code_windows(lines, ends, 0, 0, config);
    let n = lemma_some_code_window_holds(ws, lines, line, ws.len() - 1);
    let w = ws[n];
    let split = |w: (int, int)| code_window_chunks(lines, w.0, w.1, config);
    let parts = ws.map_values(split);
    assert(parts[n] == code_window_chunks(lines, w.0, w.1, config));
    if fits(lines, w.0, w.1, config) {
        let i = lemma_flatten_holds(parts, n, 0);
        assert(chunks[i] == window_chunk(lines, w.0, w.1));
    } else {
        let part = lemma_part(content, w.0, w.1);
        if line - w.0 >= part.len() {
            assert(lines[w.1 - 1].len() == 0);
            assert(is_blank(lines[line]));
        }
        law_text_chunks_cover_every_line(part, config);
        assert(some_chunk_holds(text_chunks(part, config), line - w.0));
        let b = choose|b: int|
            0 <= b < text_chunks(part, config).len() && (#[trigger] text_chunks(
                part,
                config,
            )[b]).start_line <= line - w.0 <= text_chunks(part, config)[b].end_line;
        law_text_chunks_within_budget(part, config, b);
        assert(parts[n][b] == moved_down(text_chunks(part, config)[b], w.0));
        let i = lemma_flatten_holds(parts, n, b);
        assert(chunks[i].start_line <= line <= chunks[i].end_line);
    }
}

proof fn lemma_some_code_window_holds(
    ws: Seq<(int, int)>,
    lines: Seq<Seq<char>>,
    line: int,
    last: int,
) -> (i: int)
    requires
        windows_advance(ws, lines),
        0 <= last < ws.len(),
        all_blank(lines, 0, ws[0].0),
        0 <= line < ws[last].1,
        !is_blank(lines[line]),
    ensures
        0 <= i <= last,
        ws[i].0 <= line < ws[i].1,
    decreases last,
{
    if ws[last].0 <= line {
        last
    } else if last == 0 {
        assert(is_blank(lines[line]));
        0
    } else {
        assert(ws[last - 1].1 <= line ==> is_blank(lines[line]));
        lemma_some_code_window_holds(ws, lines, line, last - 1)
    }
}

/// Every chunk of a file stays within the budgets, whether the file was split
/// along its syntax or as plain text.
pub proof fn law_file_chunks_within_budget(
    extension: Seq<char>,
    content: Seq<char>,
    config: ChunkingConfig,
    i: int,
)
    requires
        lines_of(content).len() <= u32::MAX + 1,
        0 <= i < file_chunks(extension, content, config).len(),
    ensures
        within_budget(file_chunks(extension, content, config)[i], config),
{
    let rows = match grammar_for(extension) {
        Some(grammar) => syntax_end_rows(grammar, content),
        None => None,
    };
    match rows {
        Some(end_rows) => law_code_chunks_within_budget(content, end_rows, config, i),
        None => law_text_chunks_within_budget(lines_of(content), config, i),
    }
}

/// The extension check ignores case: two spellings that differ only in the
/// case of ASCII letters get the same answer.
pub proof fn law_binary_extension_ignores_case(a: Seq<char>, b: Seq<char>)
    requires
        a.len() == b.len(),
        forall|i: int|
            0 <= i < a.len() ==> lower_char(#[trigger] a[i]) == lower_char(b[i]),
    ensures
        names_binary_format(lowered(a)) == names_binary_format(lowered(b)),
{
    assert(lowered(a) =~= lowered(b));
}

} // verus!
