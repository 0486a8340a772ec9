//! Splits file contents into embeddable chunks.
//!
//! Recognized code extensions get boundary-aware splitting: the top-level
//! syntax nodes of a file are packed into windows of up to
//! [`ChunkingConfig::chunk_lines`] lines and [`ChunkingConfig::max_chars`]
//! characters, with [`ChunkingConfig::overlap_lines`] lines of trailing
//! context carried into the next window. Everything else is windowed by the
//! same budgets, line by line.

use crate::text::{
    ascii_lower, chars_of, join_range, joined, lines_of, lowered, same_text, split_lines, texts,
};
use vstd::prelude::*;
use vstd::string::*;

verus! {

/// Tuning for both the code-aware and the plain-text splitter.
#[derive(Debug, Clone, Copy)]
pub struct ChunkingConfig {
    /// Maximum number of lines per chunk.
    pub chunk_lines: usize,
    /// Lines of trailing context repeated at the start of the next chunk.
    pub overlap_lines: usize,
    /// Maximum characters per chunk, each line counted with its line feed
    /// (checked alongside `chunk_lines`; whichever budget is hit first ends the
    /// chunk).
    pub max_chars: usize,
}

impl Default for ChunkingConfig {
    fn default() -> (r: Self)
        ensures
            r.chunk_lines == 80,
            r.overlap_lines == 15,
            r.max_chars == 1500,
    {
        ChunkingConfig { chunk_lines: 80, overlap_lines: 15, max_chars: 1500 }
    }
}

/// One chunk of a file, with 0-indexed, inclusive line bounds into the
/// content of the file.
#[derive(Debug, Clone, PartialEq, Eq)]
pub struct Chunk {
    pub content: String,
    pub start_line: u32,
    pub end_line: u32,
}

/// What a [`Chunk`] holds.
pub struct ChunkView {
    pub content: Seq<char>,
    pub start_line: u32,
    pub end_line: u32,
}

impl View for Chunk {
    type V = ChunkView;

    open spec fn view(&self) -> ChunkView {
        ChunkView {
            content: self.content@,
            start_line: self.start_line,
            end_line: self.end_line,
        }
    }
}

/// What each chunk holds, in turn.
pub open spec fn chunk_views(chunks: Seq<Chunk>) -> Seq<ChunkView> {
    chunks.map_values(|c: Chunk| c@)
}

/// The characters of `lines[start..end]`, each line counted with its line
/// feed.
pub open spec fn span(lines: Seq<Seq<char>>, start: int, end: int) -> nat
    decreases end - start,
{
    if end <= start {
        0
    } else {
        span(lines, start, end - 1) + lines[end - 1].len() + 1
    }
}

/// Whether `lines[start..end]` is within both budgets.
pub open spec fn fits(
    lines: Seq<Seq<char>>,
    start: int,
    end: int,
    config: ChunkingConfig,
) -> bool {
    &&& end - start <= config.chunk_lines
    &&& span(lines, start, end) <= config.max_chars
}

/// The end of the longest window that begins with `lines[start..end]` and
/// takes in one further line after another while the budgets allow.
pub open spec fn grown(
    lines: Seq<Seq<char>>,
    start: int,
    end: int,
    config: ChunkingConfig,
) -> int
    decreases lines.len() - end,
{
    if end < lines.len() && fits(lines, start, end + 1, config) {
        grown(lines, start, end + 1, config)
    } else {
        end
    }
}

/// The end of the plain-text window at `start`: its first line in any case,
/// then as many more as the budgets allow.
pub open spec fn text_end(lines: Seq<Seq<char>>, start: int, config: ChunkingConfig) -> int {
    grown(lines, start, start + 1, config)
}

/// The chunk that `lines[start..end]` makes.
pub open spec fn window_chunk(lines: Seq<Seq<char>>, start: int, end: int) -> ChunkView {
    ChunkView {
        content: joined(lines.subrange(start, end), seq!['\n']),
        start_line: start as u32,
        end_line: (end - 1) as u32,
    }
}

/// Where the window after `lines[start..end]` begins: `overlap_lines` before
/// its end, but always past its start.
pub open spec fn next_start(start: int, end: int, config: ChunkingConfig) -> int {
    if end - config.overlap_lines > start {
        end - config.overlap_lines
    } else {
        start + 1
    }
}

/// The plain-text windows of `lines` from line `start` on, each as its first
/// line and the line after its last.
pub open spec fn text_windows(
    lines: Seq<Seq<char>>,
    start: int,
    config: ChunkingConfig,
) -> Seq<(int, int)>
    decreases lines.len() - start,
{
    if start >= lines.len() {
        seq![]
    } else {
        let end = text_end(lines, start, config);
        if end >= lines.len() {
            seq![(start, end)]
        } else {
            seq![(start, end)] + text_windows(lines, next_start(start, end, config), config)
        }
    }
}

/// The plain-text chunks of `lines`.
pub open spec fn text_chunks(lines: Seq<Seq<char>>, config: ChunkingConfig) -> Seq<ChunkView> {
    text_windows(lines, 0, config).map_values(|w: (int, int)| window_chunk(lines, w.0, w.1))
}

/// Whether `name`, in lower case, is the extension of a binary format: an
/// image, audio or video file, an archive, a compiled artifact, a font or
/// another non-text format.
pub open spec fn names_binary_format(name: Seq<char>) -> bool {
    ||| name == "png"@
    ||| name == "jpg"@
    ||| name == "jpeg"@
    ||| name == "gif"@
    ||| name == "bmp"@
    ||| name == "ico"@
    ||| name == "webp"@
    ||| name == "tiff"@
    ||| name == "exr"@
    ||| name == "hdr"@
    ||| name == "svg"@
    ||| name == "psd"@
    ||| name == "ai"@
    ||| name == "eps"@
    ||| name == "mp3"@
    ||| name == "wav"@
    ||| name == "mp4"@
    ||| name == "avi"@
    ||| name == "mov"@
    ||| name == "webm"@
    ||| name == "flac"@
    ||| name == "ogg"@
    ||| name == "m4a"@
    ||| name == "aac"@
    ||| name == "wma"@
    ||| name == "flv"@
    ||| name == "mkv"@
    ||| name == "wmv"@
    ||| name == "pdf"@
    ||| name == "doc"@
    ||| name == "docx"@
    ||| name == "xls"@
    ||| name == "xlsx"@
    ||| name == "ppt"@
    ||| name == "pptx"@
    ||| name == "odt"@
    ||| name == "zip"@
    ||| name == "tar"@
    ||| name == "gz"@
    ||| name == "7z"@
    ||| name == "rar"@
    ||| name == "iso"@
    ||| name == "dmg"@
    ||| name == "pkg"@
    ||| name == "deb"@
    ||| name == "rpm"@
    ||| name == "msi"@
    ||| name == "apk"@
    ||| name == "xz"@
    ||| name == "bz2"@
    ||| name == "exe"@
    ||| name == "dll"@
    ||| name == "so"@
    ||| name == "dylib"@
    ||| name == "class"@
    ||| name == "pyc"@
    ||| name == "o"@
    ||| name == "obj"@
    ||| name == "lib"@
    ||| name == "a"@
    ||| name == "out"@
    ||| name == "app"@
    ||| name == "jar"@
    ||| name == "ttf"@
    ||| name == "otf"@
    ||| name == "woff"@
    ||| name == "woff2"@
    ||| name == "eot"@
    ||| name == "bin"@
    ||| name == "dat"@
    ||| name == "db"@
    ||| name == "sqlite"@
}

/// Whether `extension` (without the leading dot, in any case) names a binary
/// format that should never be indexed.
pub fn is_binary_extension(extension: &str) -> (r: bool)
    ensures
        r == names_binary_format(lowered(extension@)),
{
    let lower = ascii_lower(extension);
    let name = lower.as_str();
    same_text(name, "png") || same_text(name, "jpg") || same_text(name, "jpeg")
        || same_text(name, "gif") || same_text(name, "bmp") || same_text(name, "ico")
        || same_text(name, "webp") || same_text(name, "tiff") || same_text(name, "exr")
        || same_text(name, "hdr") || same_text(name, "svg") || same_text(name, "psd")
        || same_text(name, "ai") || same_text(name, "eps") || same_text(name, "mp3")
        || same_text(name, "wav") || same_text(name, "mp4") || same_text(name, "avi")
        || same_text(name, "mov") || same_text(name, "webm") || same_text(name, "flac")
        || same_text(name, "ogg") || same_text(name, "m4a") || same_text(name, "aac")
        || same_text(name, "wma") || same_text(name, "flv") || same_text(name, "mkv")
        || same_text(name, "wmv") || same_text(name, "pdf") || same_text(name, "doc")
        || same_text(name, "docx") || same_text(name, "xls") || same_text(name, "xlsx")
        || same_text(name, "ppt") || same_text(name, "pptx") || same_text(name, "odt")
        || same_text(name, "zip") || same_text(name, "tar") || same_text(name, "gz")
        || same_text(name, "7z") || same_text(name, "rar") || same_text(name, "iso")
        || same_text(name, "dmg") || same_text(name, "pkg") || same_text(name, "deb")
        || same_text(name, "rpm") || same_text(name, "msi") || same_text(name, "apk")
        || same_text(name, "xz") || same_text(name, "bz2") || same_text(name, "exe")
        || same_text(name, "dll") || same_text(name, "so") || same_text(name, "dylib")
        || same_text(name, "class") || same_text(name, "pyc") || same_text(name, "o")
        || same_text(name, "obj") || same_text(name, "lib") || same_text(name, "a")
        || same_text(name, "out") || same_text(name, "app") || same_text(name, "jar")
        || same_text(name, "ttf") || same_text(name, "otf") || same_text(name, "woff")
        || same_text(name, "woff2") || same_text(name, "eot") || same_text(name, "bin")
        || same_text(name, "dat") || same_text(name, "db") || same_text(name, "sqlite")
}

/// The number of characters of `line`.
fn line_len(line: &String) -> (r: usize)
    ensures
        r == line@.len(),
{
    line.as_str().unicode_len()
}

/// The end of the plain-text window at `start`.
fn text_window_end(lines: &Vec<String>, start: usize, config: &ChunkingConfig) -> (r: usize)
    requires
        start < lines@.len(),
    ensures
        start < r <= lines@.len(),
        r == text_end(texts(lines@), start as int, *config),
{
    let ghost ls = texts(lines@);
    let total: usize = lines.len();
    let mut end: usize = start + 1;
    let mut count: u128 = line_len(&lines[start]) as u128 + 1;
    let mut growing: bool = true;
    reveal_with_fuel(span, 2);
    assert(ls[start as int] == lines@[start as int]@);
    while growing && end < total
        invariant
            ls == texts(lines@),
            total == lines@.len(),
            start < end <= lines@.len(),
            count == span(ls, start as int, end as int),
            count <= (end - start) * 0x1_0000_0000_0000_0000,
            text_end(ls, start as int, *config) == grown(ls, start as int, end as int, *config),
            !growing ==> text_end(ls, start as int, *config) == end,
        decreases lines@.len() - end + (if growing { 1int } else { 0int }),
    {
        let candidate: u128 = count + line_len(&lines[end]) as u128 + 1;
        assert(ls[end as int] == lines@[end as int]@);
        assert(candidate == span(ls, start as int, end + 1));
        if end - start >= config.chunk_lines || candidate > config.max_chars as u128 {
            growing = false;
        } else {
            count = candidate;
            end = end + 1;
        }
    }
    end
}

/// Plain line and character budget windowing, used for non-code files and
/// wherever code cannot be split along its syntax.
pub fn chunk_text(content: &str, config: &ChunkingConfig) -> (r: Vec<Chunk>)
    ensures
        chunk_views(r@) == text_chunks(lines_of(content@), *config),
{
    let lines = split_lines(content);
    let ghost ls = texts(lines@);
    let mut chunks: Vec<Chunk> = Vec::new();
    let mut start: usize = 0;
    let ghost mut done: Seq<(int, int)> = seq![];
    proof {
        reveal_strlit("\n");
        assert("\n"@ =~= seq!['\n']);
    }
    while start < lines.len()
        invariant
            ls == texts(lines@),
            "\n"@ == seq!['\n'],
            start <= lines@.len(),
            text_windows(ls, 0, *config) == done + text_windows(ls, start as int, *config),
            chunk_views(chunks@) == done.map_values(
                |w: (int, int)| window_chunk(ls, w.0, w.1),
            ),
        decreases lines@.len() - start,
    {
        let end = text_window_end(&lines, start, config);
        let chunk = Chunk {
            content: join_range(&lines, start, end, "\n"),
            start_line: start as u32,
            end_line: (end - 1) as u32,
        };
        let ghost before = chunks@;
        let ghost rest = text_windows(ls, start as int, *config);
        let ghost here = (start as int, end as int);
        chunks.push(chunk);
        assert(chunk@ == window_chunk(ls, start as int, end as int));
        assert(chunk_views(chunks@) =~= chunk_views(before).push(chunk@));
        if end >= lines.len() {
            start = lines.len();
            assert(rest == seq![here]);
            assert(done + rest =~= done.push(here));
        } else {
            start = following_start(start, end, config);
            assert(done + rest =~= done.push(here) + text_windows(ls, start as int, *config));
        }
        proof {
            done = done.push(here);
            assert(text_windows(ls, start as int, *config) =~= seq![] || start < ls.len());
            assert(done =~= done + text_windows(ls, start as int, *config) || start < ls.len());
            assert(chunk_views(chunks@) =~= done.map_values(
                |w: (int, int)| window_chunk(ls, w.0, w.1),
            ));
        }
    }
    proof {
        assert(done + text_windows(ls, start as int, *config) =~= done);
    }
    chunks
}

/// The languages whose files are split along their syntax.
#[derive(Debug, Clone, Copy, PartialEq, Eq, Structural)]
pub enum Grammar {
    Rust,
    Python,
    JavaScript,
    TypeScript,
    Tsx,
    Go,
}

/// The rows on which the children of the root node of `content`'s syntax tree
/// end, in order, when it is parsed by the given grammar; `None` if it cannot
/// be parsed.
pub uninterp spec fn syntax_end_rows(grammar: Grammar, content: Seq<char>) -> Option<Seq<usize>>;

/// Parses `content` with `tree_sitter::Parser::parse` under the grammar crate
/// of that language, and hands out `Node::end_position` of each of the root's
/// children. Claimed: the outcome depends on the grammar and the text alone.
/// Not claimed: anything about the rows themselves; in particular, a node
/// whose text takes in its final line feed ends one row further down.
#[verifier::external_body]
fn top_level_end_rows(grammar: Grammar, content: &str) -> (r: Option<Vec<usize>>)
    ensures
        r matches Some(rows) ==> syntax_end_rows(grammar, content@) == Some(rows@),
        r is None ==> syntax_end_rows(grammar, content@) is None,
{
    let language: tree_sitter::Language = match grammar {
        Grammar::Rust => tree_sitter_rust::LANGUAGE.into(),
        Grammar::Python => tree_sitter_python::LANGUAGE.into(),
        Grammar::JavaScript => tree_sitter_javascript::LANGUAGE.into(),
        Grammar::TypeScript => tree_sitter_typescript::LANGUAGE_TYPESCRIPT.into(),
        Grammar::Tsx => tree_sitter_typescript::LANGUAGE_TSX.into(),
        Grammar::Go => tree_sitter_go::LANGUAGE.into(),
    };
    let mut parser = tree_sitter::Parser::new();
    parser.set_language(&language).ok()?;
    let root = parser.parse(content, None)?;
    let mut cursor = root.walk();
    Some(root.root_node().children(&mut cursor).map(|node| node.end_position().row).collect())
}

/// The language of files with the given extension, if it is recognized.
pub open spec fn grammar_for(extension: Seq<char>) -> Option<Grammar> {
    if extension == "rs"@ {
        Some(Grammar::Rust)
    } else if extension == "py"@ {
        Some(Grammar::Python)
    } else if extension == "js"@ || extension == "jsx"@ || extension == "mjs"@ || extension
        == "cjs"@ {
        Some(Grammar::JavaScript)
    } else if extension == "ts"@ {
        Some(Grammar::TypeScript)
    } else if extension == "tsx"@ {
        Some(Grammar::Tsx)
    } else if extension == "go"@ {
        Some(Grammar::Go)
    } else {
        None
    }
}

/// The language of files with the given extension, if it is recognized.
pub fn language_for_extension(extension: &str) -> (r: Option<Grammar>)
    ensures
        r == grammar_for(extension@),
{
    if same_text(extension, "rs") {
        Some(Grammar::Rust)
    } else if same_text(extension, "py") {
        Some(Grammar::Python)
    } else if same_text(extension, "js") || same_text(extension, "jsx") || same_text(
        extension,
        "mjs",
    ) || same_text(extension, "cjs") {
        Some(Grammar::JavaScript)
    } else if same_text(extension, "ts") {
        Some(Grammar::TypeScript)
    } else if same_text(extension, "tsx") {
        Some(Grammar::Tsx)
    } else if same_text(extension, "go") {
        Some(Grammar::Go)
    } else {
        None
    }
}

/// The rows at which windows may end: those that the nodes end on, each at
/// most the last line, leaving out one at or above an earlier one, whose lines
/// are taken in already.
pub open spec fn boundaries(end_rows: Seq<usize>, total: int) -> Seq<int>
    decreases end_rows.len(),
{
    if end_rows.len() == 0 {
        seq![]
    } else {
        let before = boundaries(end_rows.drop_last(), total);
        let row = if end_rows.last() < total {
            end_rows.last() as int
        } else {
            total - 1
        };
        if before.len() == 0 || row > before.last() {
            before.push(row)
        } else {
            before
        }
    }
}

/// Whether a line has nothing but white space on it.
pub open spec fn is_blank(line: Seq<char>) -> bool {
    forall|i: int|
        0 <= i < line.len() ==> {
            let c = #[trigger] line[i];
            c == ' ' || c == '\t' || c == '\r' || c == '\u{b}' || c == '\u{c}'
        }
}

/// The first line from `from` on that is not blank, or `to` if there is none
/// before it.
pub open spec fn first_content(lines: Seq<Seq<char>>, from: int, to: int) -> int
    decreases to - from,
{
    if from >= to || !is_blank(lines[from]) {
        from
    } else {
        first_content(lines, from + 1, to)
    }
}

/// Where the lines of a node begin that no node before it takes in, blank
/// ones left out.
pub open spec fn own_start(lines: Seq<Seq<char>>, ends: Seq<int>, node: int) -> int {
    first_content(
        lines,
        if node == 0 {
            0
        } else {
            ends[node - 1] + 1
        },
        ends[node],
    )
}

/// Whether the lines of a node are within the budgets by themselves.
pub open spec fn node_fits(
    lines: Seq<Seq<char>>,
    ends: Seq<int>,
    node: int,
    config: ChunkingConfig,
) -> bool {
    fits(lines, own_start(lines, ends, node), ends[node] + 1, config)
}

/// The first line from `start` on from which the window up to `end` is within
/// the budgets, or `last` if there is none before it.
pub open spec fn shortened(
    lines: Seq<Seq<char>>,
    start: int,
    last: int,
    end: int,
    config: ChunkingConfig,
) -> int
    decreases last - start,
{
    if start >= last || fits(lines, start, end, config) {
        start
    } else {
        shortened(lines, start + 1, last, end, config)
    }
}

/// Where the window of a node begins when its overlap begins at `start`: the
/// overlap is shortened as far as the node needs, unless the node is over the
/// budgets by itself.
pub open spec fn window_start(
    lines: Seq<Seq<char>>,
    ends: Seq<int>,
    start: int,
    node: int,
    config: ChunkingConfig,
) -> int {
    if node_fits(lines, ends, node, config) {
        shortened(lines, start, own_start(lines, ends, node), ends[node] + 1, config)
    } else {
        start
    }
}

/// How many nodes, counted from the first of all, belong to the window at
/// line `start` once `nodes` of them do: one further node after another while
/// the budgets allow.
pub open spec fn absorbed(
    lines: Seq<Seq<char>>,
    ends: Seq<int>,
    start: int,
    nodes: int,
    config: ChunkingConfig,
) -> int
    decreases ends.len() - nodes,
{
    if nodes < ends.len() && fits(lines, start, ends[nodes] + 1, config) {
        absorbed(lines, ends, start, nodes + 1, config)
    } else {
        nodes
    }
}

/// The code windows from node `node` on, the overlap of the first beginning at
/// line `start`, each as its first line and the line after its last: a window
/// takes in at least one node and ends where its last node ends.
pub open spec fn code_windows(
    lines: Seq<Seq<char>>,
    ends: Seq<int>,
    start: int,
    node: int,
    config: ChunkingConfig,
) -> Seq<(int, int)>
    decreases ends.len() - node,
{
    if node >= ends.len() {
        seq![]
    } else {
        let begin = window_start(lines, ends, start, node, config);
        proof {
            lemma_absorbed_advances(lines, ends, begin, node + 1, config);
        }
        let nodes = absorbed(lines, ends, begin, node + 1, config);
        let end = ends[nodes - 1] + 1;
        seq![(begin, end)] + code_windows(
            lines,
            ends,
            next_start(begin, end, config),
            nodes,
            config,
        )
    }
}

/// `chunk` with its line bounds moved down by `lines`.
pub open spec fn moved_down(chunk: ChunkView, lines: int) -> ChunkView {
    ChunkView {
        content: chunk.content,
        start_line: (chunk.start_line + lines) as u32,
        end_line: (chunk.end_line + lines) as u32,
    }
}

/// The chunks of one code window: the window itself if it is within the
/// budgets, else its text split as plain text.
pub open spec fn code_window_chunks(
    lines: Seq<Seq<char>>,
    start: int,
    end: int,
    config: ChunkingConfig,
) -> Seq<ChunkView> {
    if fits(lines, start, end, config) {
        seq![window_chunk(lines, start, end)]
    } else {
        text_chunks(
            lines_of(joined(lines.subrange(start, end), seq!['\n'])),
            config,
        ).map_values(|c: ChunkView| moved_down(c, start))
    }
}

/// The chunks of a run of code windows.
pub open spec fn chunks_of_windows(
    lines: Seq<Seq<char>>,
    windows: Seq<(int, int)>,
    config: ChunkingConfig,
) -> Seq<ChunkView> {
    windows.map_values(|w: (int, int)| code_window_chunks(lines, w.0, w.1, config)).flatten()
}

/// The chunks of code whose windows may end on the rows `ends`.
pub open spec fn code_chunks(
    lines: Seq<Seq<char>>,
    ends: Seq<int>,
    config: ChunkingConfig,
) -> Seq<ChunkView> {
    chunks_of_windows(lines, code_windows(lines, ends, 0, 0, config), config)
}

/// Whether the rows lie in a file of `total` lines, each below the one before.
pub open spec fn are_boundaries(ends: Seq<int>, total: int) -> bool {
    &&& forall|i: int| 0 <= i < ends.len() ==> 0 <= #[trigger] ends[i] < total
    &&& forall|i: int, j: int| 0 <= i < j < ends.len() ==> ends[i] < ends[j]
}

pub proof fn lemma_boundaries(end_rows: Seq<usize>, total: int)
    requires
        total > 0,
    ensures
        are_boundaries(boundaries(end_rows, total), total),
        end_rows.len() > 0 ==> boundaries(end_rows, total).len() > 0,
    decreases end_rows.len(),
{
    if end_rows.len() > 0 {
        lemma_boundaries(end_rows.drop_last(), total);
    }
}

pub proof fn lemma_first_content(lines: Seq<Seq<char>>, from: int, to: int)
    requires
        from <= to,
    ensures
        from <= first_content(lines, from, to) <= to,
        forall|i: int|
            from <= i < first_content(lines, from, to) ==> is_blank(#[trigger] lines[i]),
    decreases to - from,
{
    if from < to && is_blank(lines[from]) {
        lemma_first_content(lines, from + 1, to);
    }
}

pub proof fn lemma_shortened(
    lines: Seq<Seq<char>>,
    start: int,
    last: int,
    end: int,
    config: ChunkingConfig,
)
    requires
        start <= last,
        fits(lines, last, end, config),
    ensures
        start <= shortened(lines, start, last, end, config) <= last,
        fits(lines, shortened(lines, start, last, end, config), end, config),
    decreases last - start,
{
    if start < last && !fits(lines, start, end, config) {
        lemma_shortened(lines, start + 1, last, end, config);
    }
}

/// A window begins at or below its overlap, at or above the first line that is
/// its node's own, and is within the budgets if that node is.
pub proof fn lemma_window_start(
    lines: Seq<Seq<char>>,
    ends: Seq<int>,
    start: int,
    node: int,
    config: ChunkingConfig,
)
    requires
        are_boundaries(ends, lines.len() as int),
        0 <= node < ends.len(),
        start <= if node == 0 {
            0
        } else {
            ends[node - 1] + 1
        },
    ensures
        start <= window_start(lines, ends, start, node, config) <= own_start(lines, ends, node)
            <= ends[node],
        node_fits(lines, ends, node, config) ==> fits(
            lines,
            window_start(lines, ends, start, node, config),
            ends[node] + 1,
            config,
        ),
{
    let from = if node == 0 {
        0
    } else {
        ends[node - 1] + 1
    };
    lemma_first_content(lines, from, ends[node]);
    if node_fits(lines, ends, node, config) {
        lemma_shortened(
            lines,
            start,
            own_start(lines, ends, node),
            ends[node] + 1,
            config,
        );
    }
}

pub proof fn lemma_absorbed_advances(
    lines: Seq<Seq<char>>,
    ends: Seq<int>,
    start: int,
    nodes: int,
    config: ChunkingConfig,
)
    requires
        nodes <= ends.len(),
    ensures
        nodes <= absorbed(lines, ends, start, nodes, config) <= ends.len(),
    decreases ends.len() - nodes,
{
    if nodes < ends.len() && fits(lines, start, ends[nodes] + 1, config) {
        lemma_absorbed_advances(lines, ends, start, nodes + 1, config);
    }
}

/// A window grows within the file, stays within the budgets if it grew at
/// all, and stops only at the end of the file or at a line that does not fit.
pub proof fn lemma_grown(lines: Seq<Seq<char>>, start: int, end: int, config: ChunkingConfig)
    requires
        end <= lines.len(),
    ensures
        end <= grown(lines, start, end, config) <= lines.len(),
        grown(lines, start, end, config) == end || fits(
            lines,
            start,
            grown(lines, start, end, config),
            config,
        ),
        grown(lines, start, end, config) == lines.len() || !fits(
            lines,
            start,
            grown(lines, start, end, config) + 1,
            config,
        ),
    decreases lines.len() - end,
{
    if end < lines.len() && fits(lines, start, end + 1, config) {
        lemma_grown(lines, start, end + 1, config);
    }
}

/// Whether each window begins where [`next_start`] puts it after the one
/// before.
pub open spec fn windows_follow(windows: Seq<(int, int)>, config: ChunkingConfig) -> bool {
    forall|i: int, j: int|
        #![trigger windows[i], windows[j]]
        0 <= i && j == i + 1 && j < windows.len() ==> windows[j].0 == next_start(
            windows[i].0,
            windows[i].1,
            config,
        )
}

/// Whether each window is a plain-text window of `lines` at or below `start`.
pub open spec fn are_text_windows(
    windows: Seq<(int, int)>,
    lines: Seq<Seq<char>>,
    start: int,
    config: ChunkingConfig,
) -> bool {
    forall|i: int|
        #![trigger windows[i]]
        0 <= i < windows.len() ==> {
            &&& start <= windows[i].0 < windows[i].1 <= lines.len()
            &&& windows[i].1 == text_end(lines, windows[i].0, config)
        }
}

/// The plain-text windows from `start` on begin at `start`, end at the end of
/// the file, and follow each other by [`next_start`].
pub proof fn lemma_text_windows(lines: Seq<Seq<char>>, start: int, config: ChunkingConfig)
    requires
        0 <= start < lines.len(),
    ensures
        text_windows(lines, start, config).len() > 0,
        text_windows(lines, start, config)[0].0 == start,
        text_windows(lines, start, config).last().1 == lines.len(),
        are_text_windows(text_windows(lines, start, config), lines, start, config),
        windows_follow(text_windows(lines, start, config), config),
    decreases lines.len() - start,
{
    let end = text_end(lines, start, config);
    lemma_grown(lines, start, start + 1, config);
    let all = text_windows(lines, start, config);
    if end < lines.len() {
        let next = next_start(start, end, config);
        let rest = text_windows(lines, next, config);
        lemma_text_windows(lines, next, config);
        lemma_windows_prepend((start, end), rest, config);
        assert(all == seq![(start, end)] + rest);
        assert forall|i: int| #![trigger all[i]] 0 <= i < all.len() implies {
            &&& start <= all[i].0 < all[i].1 <= lines.len()
            &&& all[i].1 == text_end(lines, all[i].0, config)
        } by {
            if i > 0 {
                assert(all[i] == rest[i - 1]);
            }
        }
        assert(all.last() == rest.last());
    } else {
        assert(all == seq![(start, end)]);
    }
}

pub proof fn lemma_windows_prepend(first: (int, int), rest: Seq<(int, int)>, config: ChunkingConfig)
    requires
        windows_follow(rest, config),
        rest.len() > 0 ==> rest[0].0 == next_start(first.0, first.1, config),
    ensures
        windows_follow(seq![first] + rest, config),
{
    let all = seq![first] + rest;
    assert forall|i: int, j: int|
        #![trigger all[i], all[j]]
        0 <= i && j == i + 1 && j < all.len() implies all[j].0 == next_start(
        all[i].0,
        all[i].1,
        config,
    ) by {
        assert(all[j] == rest[j - 1]);
        if i > 0 {
            assert(all[i] == rest[i - 1]);
        }
    }
}

/// The characters of `lines[start..end]`, each line counted with its line
/// feed.
fn span_len(lines: &Vec<String>, start: usize, end: usize) -> (r: u128)
    requires
        start <= end <= lines@.len(),
    ensures
        r == span(texts(lines@), start as int, end as int),
{
    let ghost ls = texts(lines@);
    let mut total: u128 = 0;
    for i in start..end
        invariant
            start <= i <= end <= lines@.len(),
            ls == texts(lines@),
            total == span(ls, start as int, i as int),
            total <= (i - start) * 0x1_0000_0000_0000_0000,
    {
        assert(ls[i as int] == lines@[i as int]@);
        total = total + line_len(&lines[i]) as u128 + 1;
    }
    total
}

/// Whether `lines[start..end]` is within both budgets.
fn window_fits(lines: &Vec<String>, start: usize, end: usize, config: &ChunkingConfig) -> (r: bool)
    requires
        start <= end <= lines@.len(),
    ensures
        r == fits(texts(lines@), start as int, end as int, *config),
{
    end - start <= config.chunk_lines && span_len(lines, start, end) <= config.max_chars as u128
}

/// How many nodes the window at `start` takes in once it has `nodes` of them.
fn take_in(
    lines: &Vec<String>,
    ends: &Vec<usize>,
    start: usize,
    nodes: usize,
    config: &ChunkingConfig,
) -> (r: usize)
    requires
        are_boundaries(row_views(ends@), lines@.len() as int),
        0 < nodes <= ends@.len(),
        start <= ends@[nodes - 1],
    ensures
        nodes <= r <= ends@.len(),
        r == absorbed(texts(lines@), row_views(ends@), start as int, nodes as int, *config),
{
    let ghost ls = texts(lines@);
    let ghost rows = row_views(ends@);
    let total: usize = lines.len();
    let mut n: usize = nodes;
    while n < ends.len()
        invariant
            total == lines@.len(),
            ls == texts(lines@),
            rows == row_views(ends@),
            are_boundaries(rows, lines@.len() as int),
            0 < nodes <= n <= ends@.len(),
            start <= ends@[nodes - 1],
            absorbed(ls, rows, start as int, nodes as int, *config) == absorbed(
                ls,
                rows,
                start as int,
                n as int,
                *config,
            ),
        decreases ends@.len() - n,
    {
        assert(rows[n as int] == ends@[n as int] && rows[n as int] < total);
        assert(rows[nodes - 1] < rows[n as int]);
        if !window_fits(lines, start, ends[n] + 1, config) {
            return n;
        }
        n = n + 1;
    }
    n
}

/// The rows as integers.
pub open spec fn row_views(rows: Seq<usize>) -> Seq<int> {
    rows.map_values(|r: usize| r as int)
}

/// The rows at which windows may end.
fn settle_rows(end_rows: &Vec<usize>, total: usize) -> (r: Vec<usize>)
    requires
        total > 0,
    ensures
        row_views(r@) == boundaries(end_rows@, total as int),
{
    let mut r: Vec<usize> = Vec::new();
    assert(row_views(r@) =~= boundaries(end_rows@.take(0), total as int));
    for i in 0..end_rows.len()
        invariant
            total > 0,
            row_views(r@) == boundaries(end_rows@.take(i as int), total as int),
    {
        let ghost before = r@;
        assert(end_rows@.take(i + 1).drop_last() =~= end_rows@.take(i as int));
        let row: usize = if end_rows[i] < total {
            end_rows[i]
        } else {
            total - 1
        };
        if r.len() == 0 || row > r[r.len() - 1] {
            r.push(row);
            assert(row_views(r@) =~= row_views(before).push(row as int));
        }
    }
    assert(end_rows@.take(end_rows@.len() as int) =~= end_rows@);
    r
}

/// Whether a line has nothing but white space on it.
fn blank(line: &String) -> (r: bool)
    ensures
        r == is_blank(line@),
{
    let chars = chars_of(line.as_str());
    for i in 0..chars.len()
        invariant
            chars@ == line@,
            forall|j: int|
                0 <= j < i ==> {
                    let c = #[trigger] line@[j];
                    c == ' ' || c == '\t' || c == '\r' || c == '\u{b}' || c == '\u{c}'
                },
    {
        let c = chars[i];
        if c != ' ' && c != '\t' && c != '\r' && c != '\u{b}' && c != '\u{c}' {
            assert(line@[i as int] == c);
            return false;
        }
    }
    true
}

/// Where the lines of a node begin that no node before it takes in, blank
/// ones left out.
fn first_own_line(lines: &Vec<String>, ends: &Vec<usize>, node: usize) -> (r: usize)
    requires
        are_boundaries(row_views(ends@), lines@.len() as int),
        node < ends@.len(),
    ensures
        r == own_start(texts(lines@), row_views(ends@), node as int),
        r <= ends@[node as int],
{
    let ghost ls = texts(lines@);
    let ghost rows = row_views(ends@);
    let to: usize = ends[node];
    assert(rows[node as int] == to);
    let mut from: usize = 0;
    if node > 0 {
        assert(rows[node - 1] < rows[node as int]);
        from = ends[node - 1] + 1;
    }
    while from < to && blank(&lines[from])
        invariant
            ls == texts(lines@),
            rows == row_views(ends@),
            from <= to < lines@.len(),
            own_start(ls, rows, node as int) == first_content(ls, from as int, to as int),
        decreases to - from,
    {
        assert(ls[from as int] == lines@[from as int]@);
        from = from + 1;
    }
    if from < to {
        assert(ls[from as int] == lines@[from as int]@);
    }
    from
}

/// Where the window of a node begins when its overlap begins at `start`.
fn begin_window(
    lines: &Vec<String>,
    ends: &Vec<usize>,
    start: usize,
    node: usize,
    config: &ChunkingConfig,
) -> (r: usize)
    requires
        are_boundaries(row_views(ends@), lines@.len() as int),
        node < ends@.len(),
        start <= if node == 0 {
            0
        } else {
            row_views(ends@)[node - 1] + 1
        },
    ensures
        r == window_start(texts(lines@), row_views(ends@), start as int, node as int, *config),
        r <= ends@[node as int],
{
    let ghost ls = texts(lines@);
    let ghost rows = row_views(ends@);
    proof {
        lemma_window_start(ls, rows, start as int, node as int, *config);
    }
    let total: usize = lines.len();
    assert(rows[node as int] == ends@[node as int] && rows[node as int] < total);
    let own = first_own_line(lines, ends, node);
    let end: usize = ends[node] + 1;
    if !window_fits(lines, own, end, config) {
        return start;
    }
    let mut s: usize = start;
    while s < own && !window_fits(lines, s, end, config)
        invariant
            ls == texts(lines@),
            s <= own < end <= lines@.len(),
            window_start(ls, rows, start as int, node as int, *config) == shortened(
                ls,
                s as int,
                own as int,
                end as int,
                *config,
            ),
        decreases own - s,
    {
        s = s + 1;
    }
    s
}

/// Where the window after `lines[start..end]` begins.
fn following_start(start: usize, end: usize, config: &ChunkingConfig) -> (r: usize)
    requires
        start < end,
    ensures
        r == next_start(start as int, end as int, *config),
{
    let overlap_start: usize = if end >= config.overlap_lines {
        end - config.overlap_lines
    } else {
        0
    };
    if overlap_start > start {
        overlap_start
    } else {
        start + 1
    }
}

/// The chunks of code whose top-level nodes end on the given rows; without
/// any node the text is split as plain text.
pub open spec fn split_code(
    content: Seq<char>,
    end_rows: Seq<usize>,
    config: ChunkingConfig,
) -> Seq<ChunkView> {
    let lines = lines_of(content);
    if lines.len() == 0 {
        seq![]
    } else if end_rows.len() == 0 {
        text_chunks(lines, config)
    } else {
        code_chunks(lines, boundaries(end_rows, lines.len() as int), config)
    }
}

/// The chunks of one code window that is over budget: its text split as plain
/// text, with the line bounds counted from the start of the file.
fn split_oversized(lines: &Vec<String>, start: usize, end: usize, config: &ChunkingConfig) -> (r:
    Vec<Chunk>)
    requires
        start < end <= lines@.len(),
        !fits(texts(lines@), start as int, end as int, *config),
    ensures
        chunk_views(r@) == code_window_chunks(
            texts(lines@),
            start as int,
            end as int,
            *config,
        ),
{
    proof {
        reveal_strlit("\n");
        assert("\n"@ =~= seq!['\n']);
    }
    let part = join_range(lines, start, end, "\n");
    let parts = chunk_text(part.as_str(), config);
    let ghost views = text_chunks(lines_of(part@), *config);
    let mut moved: Vec<Chunk> = Vec::new();
    for i in 0..parts.len()
        invariant
            chunk_views(parts@) == views,
            chunk_views(moved@) == views.take(i as int).map_values(
                |c: ChunkView| moved_down(c, start as int),
            ),
    {
        let ghost before = moved@;
        assert(views[i as int] == parts@[i as int]@);
        let chunk = Chunk {
            content: parts[i].content.clone(),
            start_line: (parts[i].start_line as u128 + start as u128) as u32,
            end_line: (parts[i].end_line as u128 + start as u128) as u32,
        };
        moved.push(chunk);
        assert(chunk@ == moved_down(views[i as int], start as int));
        assert(chunk_views(moved@) =~= chunk_views(before).push(chunk@));
        assert(views.take(i + 1) =~= views.take(i as int).push(views[i as int]));
        assert(chunk_views(moved@) =~= views.take(i + 1).map_values(
            |c: ChunkView| moved_down(c, start as int),
        ));
    }
    assert(views.take(views.len() as int) =~= views);
    moved
}

/// Splits code whose top-level nodes end on the given rows along those nodes.
pub fn chunk_nodes(content: &str, end_rows: &Vec<usize>, config: &ChunkingConfig) -> (r: Vec<Chunk>)
    ensures
        chunk_views(r@) == split_code(content@, end_rows@, *config),
{
    let lines = split_lines(content);
    let ghost ls = texts(lines@);
    let mut chunks: Vec<Chunk> = Vec::new();
    if lines.len() == 0 {
        assert(chunk_views(chunks@) =~= seq![]);
        return chunks;
    }
    if end_rows.len() == 0 {
        return chunk_text(content, config);
    }
    let total: usize = lines.len();
    let ends = settle_rows(end_rows, total);
    let ghost rows = row_views(ends@);
    let mut start: usize = 0;
    let mut node: usize = 0;
    let ghost mut done: Seq<(int, int)> = seq![];
    let ghost split = |w: (int, int)| code_window_chunks(ls, w.0, w.1, *config);
    proof {
        reveal_strlit("\n");
        assert("\n"@ =~= seq!['\n']);
        lemma_boundaries(end_rows@, ls.len() as int);
        assert(done.map_values(split) =~= seq![]);
        assert(chunk_views(chunks@) =~= done.map_values(split).flatten());
        assert(done + code_windows(ls, rows, 0, 0, *config) =~= code_windows(
            ls,
            rows,
            0,
            0,
            *config,
        ));
    }
    while node < ends.len()
        invariant
            ls == texts(lines@),
            rows == row_views(ends@),
            total == lines@.len(),
            are_boundaries(rows, total as int),
            "\n"@ == seq!['\n'],
            split == (|w: (int, int)| code_window_chunks(ls, w.0, w.1, *config)),
            node <= ends@.len(),
            start <= if node == 0 {
                0
            } else {
                rows[node - 1] + 1
            },
            code_windows(ls, rows, 0, 0, *config) == done + code_windows(
                ls,
                rows,
                start as int,
                node as int,
                *config,
            ),
            chunk_views(chunks@) == done.map_values(split).flatten(),
        decreases ends@.len() - node,
    {
        let begin = begin_window(&lines, &ends, start, node, config);
        let nodes = take_in(&lines, &ends, begin, node + 1, config);
        proof {
            assert(rows[nodes - 1] == ends@[nodes - 1] && rows[nodes - 1] < total);
            if node < nodes - 1 {
                assert(rows[node as int] < rows[nodes - 1]);
            }
        }
        let end: usize = ends[nodes - 1] + 1;
        let ghost here = (begin as int, end as int);
        let ghost before = chunks@;
        let mut window: Vec<Chunk> = Vec::new();
        if window_fits(&lines, begin, end, config) {
            let chunk = Chunk {
                content: join_range(&lines, begin, end, "\n"),
                start_line: begin as u32,
                end_line: (end - 1) as u32,
            };
            assert(chunk@ == window_chunk(ls, begin as int, end as int));
            window.push(chunk);
            assert(chunk_views(window@) =~= split(here));
        } else {
            window = split_oversized(&lines, begin, end, config);
        }
        let ghost added = window@;
        chunks.append(&mut window);
        proof {
            assert(chunk_views(chunks@) =~= chunk_views(before) + chunk_views(added));
            assert(done.push(here).map_values(split) =~= done.map_values(split).push(split(here)));
            done.map_values(split).lemma_flatten_push(split(here));
            let rest = code_windows(ls, rows, start as int, node as int, *config);
            let after = code_windows(
                ls,
                rows,
                next_start(begin as int, end as int, *config),
                nodes as int,
                *config,
            );
            assert(rest == seq![here] + after);
            assert(done + rest =~= done.push(here) + after);
            done = done.push(here);
        }
        start = following_start(begin, end, config);
        node = nodes;
    }
    assert(done + code_windows(ls, rows, start as int, node as int, *config) =~= done);
    chunks
}

/// Boundary-aware chunking for a recognized language. Returns `None` if the
/// content can't be parsed at all, so that the caller can fall back to
/// [`chunk_text`].
pub fn chunk_code(content: &str, grammar: Grammar, config: &ChunkingConfig) -> (r: Option<
    Vec<Chunk>,
>)
    ensures
        match syntax_end_rows(grammar, content@) {
            Some(rows) => r matches Some(chunks) && chunk_views(chunks@) == split_code(
                content@,
                rows,
                *config,
            ),
            None => r is None,
        },
{
    match top_level_end_rows(grammar, content) {
        Some(rows) => Some(chunk_nodes(content, &rows, config)),
        None => None,
    }
}

/// The chunks of a file: along its syntax for recognized code that parses,
/// else as plain text.
pub open spec fn file_chunks(
    extension: Seq<char>,
    content: Seq<char>,
    config: ChunkingConfig,
) -> Seq<ChunkView> {
    match grammar_for(extension) {
        Some(grammar) => match syntax_end_rows(grammar, content) {
            Some(rows) => split_code(content, rows, config),
            None => text_chunks(lines_of(content), config),
        },
        None => text_chunks(lines_of(content), config),
    }
}

/// Splits `content` into chunks appropriate for `extension` (e.g. `"rs"`,
/// without the leading dot): along its syntax for recognized code
/// extensions, falling back to plain windowing for anything else (code whose
/// parse fails too).
pub fn chunk_file(extension: &str, content: &str, config: &ChunkingConfig) -> (r: Vec<Chunk>)
    ensures
        chunk_views(r@) == file_chunks(extension@, content@, *config),
{
    match language_for_extension(extension) {
        Some(grammar) => match chunk_code(content, grammar, config) {
            Some(chunks) => chunks,
            None => chunk_text(content, config),
        },
        None => chunk_text(content, config),
    }
}

} // verus!
