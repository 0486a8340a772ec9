//! What nested `.gitignore` files come to, in terms of what each of them says
//! of a path: the closest one that says anything decides.

use crate::gitignore::{
    ignore_lines, is_ignored, verdict_in, verdict_of, verdict_within, without_bom, IgnoreFileView,
    Verdict,
};
use crate::resource::indexable;
use crate::text::{joined, lines_of, texts};
use crate::watcher::PathState;
use vstd::prelude::*;

verus! {

/// What a file says of the first `k` names of a path: what its lines say of
/// them relative to its directory, and nothing where they do not lie under
/// that. All but the whole path are directories.
pub open spec fn said(file: IgnoreFileView, path: Seq<Seq<char>>, k: int, is_dir: bool) -> Verdict {
    let depth = file.dir.len() as int;
    if depth < k && path.take(depth) == file.dir {
        verdict_of(
            file.lines,
            joined(path.subrange(depth, k), seq!['/']),
            k < path.len() || is_dir,
        )
    } else {
        Verdict::Open
    }
}

/// Whether one file comes before another: it is in a closer directory, or in
/// one of the same depth and later in the list.
pub open spec fn comes_before(files: Seq<IgnoreFileView>, g: int, f: int) -> bool {
    files[g].dir.len() > files[f].dir.len() || files[g].dir.len() == files[f].dir.len() && g > f
}

/// Whether a file decides on the first `k` names of a path: it says something
/// of them, and none that comes before it does.
pub open spec fn decides(
    files: Seq<IgnoreFileView>,
    path: Seq<Seq<char>>,
    k: int,
    f: int,
    is_dir: bool,
) -> bool {
    &&& 0 <= f < files.len()
    &&& said(files[f], path, k, is_dir) != Verdict::Open
    &&& forall|g: int|
        0 <= g < files.len() && comes_before(files, g, f) ==> said(
            #[trigger] files[g],
            path,
            k,
            is_dir,
        ) == Verdict::Open
}

proof fn lemma_in_one_directory(
    files: Seq<IgnoreFileView>,
    depth: int,
    path: Seq<Seq<char>>,
    is_dir: bool,
) -> (f: int)
    requires
        0 <= depth < path.len(),
    ensures
        ({
            let verdict = verdict_in(files, depth, path, is_dir);
            let of = |g: int|
                verdict_of(files[g].lines, joined(path.skip(depth), seq!['/']), is_dir);
            &&& verdict == Verdict::Open ==> forall|g: int|
                0 <= g < files.len() && (#[trigger] files[g]).dir == path.take(depth) ==> of(g)
                    == Verdict::Open
            &&& verdict != Verdict::Open ==> {
                &&& 0 <= f < files.len()
                &&& files[f].dir == path.take(depth)
                &&& of(f) == verdict
                &&& forall|g: int|
                    f < g < files.len() && (#[trigger] files[g]).dir == path.take(depth) ==> of(g)
                        == Verdict::Open
            }
        }),
    decreases files.len(),
{
    if files.len() == 0 {
        0
    } else {
        let n = files.len() - 1;
        let file = files.last();
        let front = files.drop_last();
        let verdict = verdict_of(file.lines, joined(path.skip(depth), seq!['/']), is_dir);
        if file.dir == path.take(depth) && verdict != Verdict::Open {
            n
        } else {
            let f = lemma_in_one_directory(front, depth, path, is_dir);
            assert forall|g: int| 0 <= g < n implies #[trigger] files[g] == front[g] by {}
            f
        }
    }
}

proof fn lemma_within(
    files: Seq<IgnoreFileView>,
    depth: int,
    path: Seq<Seq<char>>,
    k: int,
    is_dir: bool,
) -> (f: int)
    requires
        0 <= depth <= k <= path.len(),
    ensures
        ({
            let verdict = verdict_within(files, depth, path.take(k), k < path.len() || is_dir);
            &&& verdict == Verdict::Open ==> forall|g: int|
                0 <= g < files.len() && (#[trigger] files[g]).dir.len() < depth ==> said(
                    files[g],
                    path,
                    k,
                    is_dir,
                ) == Verdict::Open
            &&& verdict != Verdict::Open ==> {
                &&& 0 <= f < files.len()
                &&& files[f].dir.len() < depth
                &&& said(files[f], path, k, is_dir) == verdict
                &&& forall|g: int|
                    0 <= g < files.len() && (#[trigger] files[g]).dir.len() < depth
                        && comes_before(files, g, f) ==> said(files[g], path, k, is_dir)
                        == Verdict::Open
            }
        }),
    decreases depth,
{
    if depth == 0 {
        0
    } else {
        let p = path.take(k);
        let d = k < path.len() || is_dir;
        let here = lemma_in_one_directory(files, depth - 1, p, d);
        assert(p.take(depth - 1) =~= path.take(depth - 1));
        assert(p.skip(depth - 1) =~= path.subrange(depth - 1, k));
        assert forall|g: int|
            0 <= g < files.len() && (#[trigger] files[g]).dir.len() == depth - 1 implies said(
            files[g],
            path,
            k,
            is_dir,
        ) == if files[g].dir == path.take(depth - 1) {
            verdict_of(files[g].lines, joined(p.skip(depth - 1), seq!['/']), d)
        } else {
            Verdict::Open
        } by {}
        if verdict_in(files, depth - 1, p, d) != Verdict::Open {
            assert(files[here].dir.len() == depth - 1);
            here
        } else {
            let f = lemma_within(files, depth - 1, path, k, is_dir);
            f
        }
    }
}

/// The closest `.gitignore` file that says anything of a path, or of one of the
/// directories that hold it, decides on that: a path is ignored exactly if some
/// file that decides on it, or on one of these directories, says so. This is so
/// at any depth.
pub proof fn law_closest_file_decides(
    files: Seq<IgnoreFileView>,
    path: Seq<Seq<char>>,
    is_dir: bool,
)
    ensures
        is_ignored(files, path, is_dir) <==> exists|k: int, f: int|
            1 <= k <= path.len() && #[trigger] decides(files, path, k, f, is_dir) && said(
                files[f],
                path,
                k,
                is_dir,
            ) == Verdict::Ignored,
{
    if is_ignored(files, path, is_dir) {
        let k = choose|k: int|
            1 <= k <= path.len() && verdict_within(
                files,
                k,
                #[trigger] path.take(k),
                k < path.len() || is_dir,
            ) == Verdict::Ignored;
        let f = lemma_within(files, k, path, k, is_dir);
        assert forall|g: int| 0 <= g < files.len() && comes_before(files, g, f) implies said(
            #[trigger] files[g],
            path,
            k,
            is_dir,
        ) == Verdict::Open by {}
        assert(decides(files, path, k, f, is_dir));
    }
    if exists|k: int, f: int|
        1 <= k <= path.len() && #[trigger] decides(files, path, k, f, is_dir) && said(
            files[f],
            path,
            k,
            is_dir,
        ) == Verdict::Ignored {
        let (k, f) = choose|k: int, f: int|
            1 <= k <= path.len() && #[trigger] decides(files, path, k, f, is_dir) && said(
                files[f],
                path,
                k,
                is_dir,
            ) == Verdict::Ignored;
        let found = lemma_within(files, k, path, k, is_dir);
        assert(files[f].dir.len() < k);
        let verdict = verdict_within(files, k, path.take(k), k < path.len() || is_dir);
        assert(verdict != Verdict::Open);
        if found != f {
            assert(comes_before(files, found, f) || comes_before(files, f, found));
            assert(said(files[found], path, k, is_dir) != Verdict::Open);
        }
        assert(verdict == Verdict::Ignored);
    }
}

/// With a single `.gitignore` file, in a directory that holds the path, a path
/// of which its lines say so is ignored, however deep it lies.
pub proof fn law_a_single_file_is_heeded_at_any_depth(
    file: IgnoreFileView,
    path: Seq<Seq<char>>,
    is_dir: bool,
)
    requires
        file.dir.len() < path.len(),
        path.take(file.dir.len() as int) == file.dir,
        verdict_of(
            file.lines,
            joined(path.skip(file.dir.len() as int), seq!['/']),
            is_dir,
        ) == Verdict::Ignored,
    ensures
        is_ignored(seq![file], path, is_dir),
{
    let files = seq![file];
    let n = path.len() as int;
    assert(path.subrange(file.dir.len() as int, n) =~= path.skip(file.dir.len() as int));
    assert(decides(files, path, n, 0, is_dir));
    law_closest_file_decides(files, path, is_dir);
}

/// The lines of a `.gitignore` file are those of its text, but for byte order
/// marks in front of the first: these are left out, all of them and nothing
/// else.
pub proof fn law_ignore_lines_are_those_of_the_text(content: Seq<char>)
    ensures
        ignore_lines(content).len() == lines_of(content).len(),
        forall|i: int|
            0 < i < lines_of(content).len() ==> #[trigger] ignore_lines(content)[i] == lines_of(
                content,
            )[i],
        lines_of(content).len() > 0 ==> {
            let line = lines_of(content)[0];
            let kept = ignore_lines(content)[0];
            let marks = line.len() - kept.len();
            &&& 0 <= marks
            &&& kept == line.skip(marks)
            &&& forall|i: int| 0 <= i < marks ==> #[trigger] line[i] == '\u{feff}'
            &&& kept.len() > 0 ==> kept[0] != '\u{feff}'
        },
{
    if lines_of(content).len() > 0 {
        lemma_only_marks_are_left_out(lines_of(content)[0]);
    }
}

proof fn lemma_only_marks_are_left_out(line: Seq<char>)
    ensures
        without_bom(line).len() <= line.len(),
        without_bom(line) == line.skip(line.len() - without_bom(line).len()),
        forall|i: int|
            0 <= i < line.len() - without_bom(line).len() ==> #[trigger] line[i] == '\u{feff}',
        without_bom(line).len() > 0 ==> without_bom(line)[0] != '\u{feff}',
    decreases line.len(),
{
    if line.len() > 0 && line[0] == '\u{feff}' {
        let rest = line.drop_first();
        lemma_only_marks_are_left_out(rest);
        let kept = without_bom(rest);
        assert(rest.skip(rest.len() - kept.len()) =~= line.skip(line.len() - kept.len()));
        assert forall|i: int| 0 <= i < line.len() - kept.len() implies #[trigger] line[i]
            == '\u{feff}' by {
            if i > 0 {
                assert(line[i] == rest[i - 1]);
            }
        }
    } else {
        assert(line.skip(0) =~= line);
    }
}

/// A byte order mark in front of a line has no part in it.
pub proof fn law_byte_order_marks_are_left_out(line: Seq<char>)
    ensures
        without_bom(seq!['\u{feff}'] + line) == without_bom(line),
        line.len() == 0 || line[0] != '\u{feff}' ==> without_bom(line) == line,
{
    assert((seq!['\u{feff}'] + line).drop_first() =~= line);
}

/// The watcher indexes a path exactly if it lies under the root, no file that
/// decides on it or on a directory that holds it says that it is ignored, it is
/// a regular file, and its name is one that is indexed; and then under the
/// extension of that name.
pub proof fn law_watcher_indexes_just_the_allowed_files(
    files: Seq<IgnoreFileView>,
    path: PathState,
    extension: Seq<char>,
)
    ensures
        path.to_index(files) == Some(extension) <==> {
            &&& path.names matches Some(names) && !exists|k: int, f: int|
                1 <= k <= names@.len() && #[trigger] decides(
                    files,
                    texts(names@),
                    k,
                    f,
                    path.is_dir,
                ) && said(files[f], texts(names@), k, path.is_dir) == Verdict::Ignored
            &&& path.is_file
            &&& !path.is_dir
            &&& path.file_name matches Some(name) && indexable(name@) == Some(extension)
        },
{
    if path.names is Some {
        law_closest_file_decides(files, texts(path.names->0@), path.is_dir);
    }
}

} // verus!
