//! Nested `.gitignore` files: each applies to the paths under its own
//! directory, the one closest to a path has the last word on it, and nothing
//! below an ignored directory is kept.

use crate::text::{
    chars_of, join_range, joined, lines_of, same_text, split_lines, text_of, texts,
};
use ignore::gitignore::{Gitignore, GitignoreBuilder};
use ignore::Match;
use vstd::prelude::*;
use vstd::string::*;

verus! {

/// The patterns of a `.gitignore` file as they are gathered, to be matched
/// with paths relative to the file's directory.
#[verifier::external_body]
pub struct PatternBuilder {
    builder: GitignoreBuilder,
}

/// The patterns of a `.gitignore` file, to be matched with paths relative to
/// the file's directory. Only [`IgnoreFile::parse`] makes one.
#[verifier::external_body]
pub struct PatternMatcher {
    gitignore: Gitignore,
}

/// What a `.gitignore` file says of a path.
#[derive(Debug, Clone, Copy, PartialEq, Eq, Structural)]
pub enum Verdict {
    /// Nothing.
    Open,
    /// It is ignored.
    Ignored,
    /// It is kept, by a pattern that starts with an exclamation mark.
    Kept,
}

/// The lines that a builder was given, in order.
pub uninterp spec fn builder_lines(builder: PatternBuilder) -> Seq<Seq<char>>;

/// The lines that a matcher was built from, in order.
pub uninterp spec fn matcher_lines(matcher: PatternMatcher) -> Seq<Seq<char>>;

/// What the lines of a `.gitignore` file say of a path, which is given
/// relative to the file's directory.
pub uninterp spec fn verdict_of(lines: Seq<Seq<char>>, path: Seq<char>, is_dir: bool) -> Verdict;

/// `GitignoreBuilder::new` of `ignore` makes a builder without any pattern,
/// which tells upper from lower case. Its root is `.`, so that paths are
/// matched as they are given.
#[verifier::external_body]
fn new_builder() -> (r: PatternBuilder)
    ensures
        builder_lines(r) == Seq::<Seq<char>>::empty(),
{
    PatternBuilder { builder: GitignoreBuilder::new(".") }
}

/// `GitignoreBuilder::add_line` of `ignore` takes in one more line of the
/// file. A line that is no pattern has no effect.
#[verifier::external_body]
fn add_line(builder: &mut PatternBuilder, line: &str)
    ensures
        builder_lines(*final(builder)) == builder_lines(*old(builder)).push(line@),
{
    let _ = builder.builder.add_line(None, line);
}

/// `GitignoreBuilder::build` of `ignore` makes a matcher of the lines taken
/// in. Where they make none, the matcher has a verdict on no path.
#[verifier::external_body]
fn build_matcher(builder: &PatternBuilder) -> (r: PatternMatcher)
    ensures
        matcher_lines(r) == builder_lines(*builder),
{
    let gitignore = builder.builder.build().unwrap_or_else(|_| Gitignore::empty());
    PatternMatcher { gitignore }
}

/// `Gitignore::matched` of `ignore` gives the verdict of the last pattern
/// that matches the path, and of no pattern on its parents. It also depends on
/// the matcher's root and on whether the matcher tells upper from lower case,
/// which are the same for every [`PatternMatcher`]; what is left are the lines,
/// the path and whether it is a directory.
#[verifier::external_body]
fn matched(matcher: &PatternMatcher, path: &str, is_dir: bool) -> (r: Verdict)
    ensures
        r == verdict_of(matcher_lines(*matcher), path@, is_dir),
{
    match matcher.gitignore.matched(path, is_dir) {
        Match::None => Verdict::Open,
        Match::Ignore(_) => Verdict::Ignored,
        Match::Whitelist(_) => Verdict::Kept,
    }
}

/// A `.gitignore` file: the directory it applies to, as the names that lead
/// to it from the root, and its patterns.
pub struct IgnoreFile {
    pub dir: Vec<String>,
    pub matcher: PatternMatcher,
}

/// What an [`IgnoreFile`] holds.
pub struct IgnoreFileView {
    pub dir: Seq<Seq<char>>,
    pub lines: Seq<Seq<char>>,
}

impl View for IgnoreFile {
    type V = IgnoreFileView;

    open spec fn view(&self) -> IgnoreFileView {
        IgnoreFileView { dir: texts(self.dir@), lines: matcher_lines(self.matcher) }
    }
}

/// What each file holds, in turn.
pub open spec fn file_views(files: Seq<IgnoreFile>) -> Seq<IgnoreFileView> {
    files.map_values(|f: IgnoreFile| f@)
}

/// `s` without the byte order marks that it starts with.
pub open spec fn without_bom(s: Seq<char>) -> Seq<char>
    decreases s.len(),
{
    if s.len() > 0 && s[0] == '\u{feff}' {
        without_bom(s.drop_first())
    } else {
        s
    }
}

/// The lines of a `.gitignore` file; the first without a byte order mark.
pub open spec fn ignore_lines(content: Seq<char>) -> Seq<Seq<char>> {
    let lines = lines_of(content);
    if lines.len() == 0 {
        lines
    } else {
        lines.update(0, without_bom(lines[0]))
    }
}

fn strip_bom(s: &str) -> (r: String)
    ensures
        r@ == without_bom(s@),
{
    let chars = chars_of(s);
    let mut from: usize = 0;
    assert(chars@.skip(0) =~= s@);
    while from < chars.len() && chars[from] == '\u{feff}'
        invariant
            chars@ == s@,
            from <= chars@.len(),
            without_bom(s@) == without_bom(chars@.skip(from as int)),
        decreases chars@.len() - from,
    {
        assert(chars@.skip(from as int).drop_first() =~= chars@.skip(from + 1));
        from = from + 1;
    }
    let r = text_of(&chars, from, chars.len());
    assert(r@ =~= chars@.skip(from as int));
    r
}

impl IgnoreFile {
    /// Reads the content of the `.gitignore` file of a directory.
    pub fn parse(dir: Vec<String>, content: &str) -> (r: IgnoreFile)
        ensures
            r@ == (IgnoreFileView { dir: texts(dir@), lines: ignore_lines(content@) }),
    {
        let lines = split_lines(content);
        let ghost wanted = ignore_lines(content@);
        let mut builder = new_builder();
        for i in 0..lines.len()
            invariant
                texts(lines@) == lines_of(content@),
                wanted == ignore_lines(content@),
                builder_lines(builder) == wanted.take(i as int),
        {
            assert(texts(lines@)[i as int] == lines@[i as int]@);
            if i == 0 {
                let first = strip_bom(lines[0].as_str());
                add_line(&mut builder, first.as_str());
            } else {
                add_line(&mut builder, lines[i].as_str());
            }
            assert(builder_lines(builder) =~= wanted.take(i + 1));
        }
        let matcher = build_matcher(&builder);
        assert(matcher_lines(matcher) =~= wanted);
        IgnoreFile { dir, matcher }
    }
}

/// What the files of one directory say of a path under it, the last of them
/// first.
pub open spec fn verdict_in(
    files: Seq<IgnoreFileView>,
    depth: int,
    path: Seq<Seq<char>>,
    is_dir: bool,
) -> Verdict
    decreases files.len(),
{
    if files.len() == 0 {
        Verdict::Open
    } else {
        let file = files.last();
        let verdict = verdict_of(file.lines, joined(path.skip(depth), seq!['/']), is_dir);
        if file.dir == path.take(depth) && verdict != Verdict::Open {
            verdict
        } else {
            verdict_in(files.drop_last(), depth, path, is_dir)
        }
    }
}

/// What the files say of a path: those of the closest directory first, out of
/// the `depth` outermost ones that hold it.
pub open spec fn verdict_within(
    files: Seq<IgnoreFileView>,
    depth: int,
    path: Seq<Seq<char>>,
    is_dir: bool,
) -> Verdict
    decreases depth,
{
    if depth <= 0 {
        Verdict::Open
    } else {
        let verdict = verdict_in(files, depth - 1, path, is_dir);
        if verdict != Verdict::Open {
            verdict
        } else {
            verdict_within(files, depth - 1, path, is_dir)
        }
    }
}

/// Whether the files ignore a path, given as the names that lead to it from
/// the root: they do if they ignore the path itself or one of the directories
/// that hold it, whatever they say of what lies below that.
pub open spec fn is_ignored(
    files: Seq<IgnoreFileView>,
    path: Seq<Seq<char>>,
    is_dir: bool,
) -> bool {
    exists|k: int|
        1 <= k <= path.len() && verdict_within(
            files,
            k,
            #[trigger] path.take(k),
            k < path.len() || is_dir,
        ) == Verdict::Ignored
}

/// Whether the files ignore the first `k` names of a path, as far as patterns
/// on these themselves go.
spec fn is_ignored_itself(
    files: Seq<IgnoreFileView>,
    path: Seq<Seq<char>>,
    k: int,
    is_dir: bool,
) -> bool {
    verdict_within(files, k, path.take(k), k < path.len() || is_dir) == Verdict::Ignored
}

/// Whether `dir` is the first `depth` names of `path`.
fn leads(dir: &Vec<String>, path: &Vec<String>, depth: usize) -> (r: bool)
    requires
        depth <= path@.len(),
    ensures
        r == (texts(dir@) == texts(path@).take(depth as int)),
{
    if dir.len() != depth {
        assert(texts(dir@).len() != texts(path@).take(depth as int).len());
        return false;
    }
    for i in 0..depth
        invariant
            depth <= path@.len(),
            dir@.len() == depth,
            forall|j: int| 0 <= j < i ==> (#[trigger] dir@[j])@ == path@[j]@,
    {
        if !same_text(dir[i].as_str(), path[i].as_str()) {
            assert(texts(dir@)[i as int] != texts(path@).take(depth as int)[i as int]);
            return false;
        }
    }
    assert(texts(dir@) =~= texts(path@).take(depth as int));
    true
}

/// What the files say of the first `taken` names of a path.
fn nearest_verdict(files: &Vec<IgnoreFile>, path: &Vec<String>, taken: usize, is_dir: bool) -> (r:
    Verdict)
    requires
        taken <= path@.len(),
    ensures
        r == verdict_within(
            file_views(files@),
            taken as int,
            texts(path@).take(taken as int),
            is_dir,
        ),
{
    let ghost views = file_views(files@);
    let ghost names = texts(path@).take(taken as int);
    let mut depth: usize = taken;
    while depth > 0
        invariant
            depth <= taken <= path@.len(),
            views == file_views(files@),
            names == texts(path@).take(taken as int),
            verdict_within(views, taken as int, names, is_dir) == verdict_within(
                views,
                depth as int,
                names,
                is_dir,
            ),
        decreases depth,
    {
        depth = depth - 1;
        let rest = join_range(path, depth, taken, "/");
        proof {
            reveal_strlit("/");
            assert("/"@ =~= seq!['/']);
            assert(names.skip(depth as int) =~= texts(path@).subrange(
                depth as int,
                taken as int,
            ));
            assert(names.take(depth as int) =~= texts(path@).take(depth as int));
        }
        let mut n: usize = files.len();
        assert(views.take(n as int) =~= views);
        while n > 0
            invariant
                depth < taken <= path@.len(),
                n <= files@.len(),
                views == file_views(files@),
                names == texts(path@).take(taken as int),
                rest@ == joined(names.skip(depth as int), seq!['/']),
                names.take(depth as int) == texts(path@).take(depth as int),
                verdict_within(views, taken as int, names, is_dir) == verdict_within(
                    views,
                    depth + 1,
                    names,
                    is_dir,
                ),
                verdict_in(views, depth as int, names, is_dir) == verdict_in(
                    views.take(n as int),
                    depth as int,
                    names,
                    is_dir,
                ),
            decreases n,
        {
            n = n - 1;
            let file = &files[n];
            proof {
                let front = views.take(n + 1);
                assert(front.last() == file@);
                assert(front.drop_last() =~= views.take(n as int));
            }
            if leads(&file.dir, path, depth) {
                let verdict = matched(&file.matcher, rest.as_str(), is_dir);
                if verdict != Verdict::Open {
                    return verdict;
                }
            }
        }
        assert(views.take(0).len() == 0);
    }
    Verdict::Open
}

/// Whether the `.gitignore` files ignore a path or one of the directories that
/// hold it. The path is given as the names that lead to it from the root. Of
/// patterns on the same path, those of a file in a closer directory come
/// first.
pub fn path_is_ignored(files: &Vec<IgnoreFile>, path: &Vec<String>, is_dir: bool) -> (r: bool)
    ensures
        r == is_ignored(file_views(files@), texts(path@), is_dir),
{
    let ghost views = file_views(files@);
    let ghost names = texts(path@);
    for n in 0..path.len()
        invariant
            views == file_views(files@),
            names == texts(path@),
            forall|k: int|
                #![trigger names.take(k)]
                1 <= k <= n ==> !is_ignored_itself(views, names, k, is_dir),
    {
        let taken: usize = n + 1;
        let verdict = nearest_verdict(files, path, taken, taken < path.len() || is_dir);
        if verdict == Verdict::Ignored {
            assert(is_ignored_itself(views, names, n + 1, is_dir));
            return true;
        }
        assert(!is_ignored_itself(views, names, n + 1, is_dir));
    }
    false
}

/// Whether a walk that goes down from the root, and enters no directory that
/// the files ignore, comes upon a path that they do not ignore itself.
pub open spec fn is_reached(files: Seq<IgnoreFileView>, path: Seq<Seq<char>>, is_dir: bool) -> bool
    decreases path.len(),
{
    path.len() == 0 || {
        &&& is_reached(files, path.drop_last(), true)
        &&& verdict_within(files, path.len() as int, path, is_dir) != Verdict::Ignored
    }
}

/// What is not ignored is just what a walk comes upon that enters no ignored
/// directory: nothing below such a directory can be kept.
pub proof fn law_walk_reaches_what_is_not_ignored(
    files: Seq<IgnoreFileView>,
    path: Seq<Seq<char>>,
    is_dir: bool,
)
    ensures
        is_reached(files, path, is_dir) == !is_ignored(files, path, is_dir),
    decreases path.len(),
{
    let n = path.len() as int;
    if n > 0 {
        let front = path.drop_last();
        law_walk_reaches_what_is_not_ignored(files, front, true);
        assert(path.take(n) =~= path);
        assert forall|k: int|
            #![trigger path.take(k)]
            #![trigger front.take(k)]
            1 <= k < n implies is_ignored_itself(files, path, k, is_dir) == is_ignored_itself(
            files,
            front,
            k,
            true,
        ) by {
            assert(front.take(k) =~= path.take(k));
        }
        if is_ignored(files, front, true) {
            let k = choose|k: int|
                #![trigger front.take(k)]
                1 <= k <= front.len() && is_ignored_itself(files, front, k, true);
            assert(is_ignored_itself(files, path, k, is_dir));
        }
        if is_ignored(files, path, is_dir) {
            let k = choose|k: int|
                #![trigger path.take(k)]
                1 <= k <= n && is_ignored_itself(files, path, k, is_dir);
            if k < n {
                assert(is_ignored_itself(files, front, k, true));
            }
        }
        if verdict_within(files, n, path, is_dir) == Verdict::Ignored {
            assert(is_ignored_itself(files, path, n, is_dir));
        }
    }
}

/// Whatever lies below an ignored directory is ignored, whatever patterns
/// there are on it.
pub proof fn law_nothing_is_kept_below_an_ignored_directory(
    files: Seq<IgnoreFileView>,
    dir: Seq<Seq<char>>,
    path: Seq<Seq<char>>,
    is_dir: bool,
)
    requires
        is_ignored(files, dir, true),
        lies_under(path, dir),
    ensures
        is_ignored(files, path, is_dir),
{
    let k = choose|k: int|
        #![trigger dir.take(k)]
        1 <= k <= dir.len() && is_ignored_itself(files, dir, k, true);
    assert(path.take(k) =~= dir.take(k));
    assert(is_ignored_itself(files, path, k, is_dir));
}

/// Whether a path lies under a directory.
pub open spec fn lies_under(path: Seq<Seq<char>>, dir: Seq<Seq<char>>) -> bool {
    dir.len() < path.len() && path.take(dir.len() as int) == dir
}

/// Without `.gitignore` files nothing is ignored.
pub proof fn law_nothing_is_ignored_without_files(path: Seq<Seq<char>>, is_dir: bool)
    ensures
        !is_ignored(seq![], path, is_dir),
{
    assert forall|k: int|
        #![trigger path.take(k)]
        1 <= k <= path.len() implies !is_ignored_itself(
        seq![],
        path,
        k,
        is_dir,
    ) by {
        lemma_no_files_within(k, path.take(k), k < path.len() || is_dir);
    }
}

proof fn lemma_no_files_within(depth: int, path: Seq<Seq<char>>, is_dir: bool)
    ensures
        verdict_within(seq![], depth, path, is_dir) == Verdict::Open,
    decreases depth,
{
    if depth > 0 {
        lemma_no_files_within(depth - 1, path, is_dir);
    }
}

/// A `.gitignore` file has no say on a path outside its directory.
pub proof fn law_ignore_file_stays_in_its_directory(
    files: Seq<IgnoreFileView>,
    file: IgnoreFileView,
    path: Seq<Seq<char>>,
    is_dir: bool,
)
    requires
        !lies_under(path, file.dir),
    ensures
        is_ignored(files.push(file), path, is_dir) == is_ignored(files, path, is_dir),
{
    let more = files.push(file);
    assert forall|k: int|
        #![trigger path.take(k)]
        1 <= k <= path.len() implies is_ignored_itself(
        more,
        path,
        k,
        is_dir,
    ) == is_ignored_itself(files, path, k, is_dir) by {
        let front = path.take(k);
        if lies_under(front, file.dir) {
            assert(front.take(file.dir.len() as int) =~= path.take(file.dir.len() as int));
        }
        lemma_file_elsewhere_within(files, file, k, front, k < path.len() || is_dir);
    }
    if is_ignored(files, path, is_dir) {
        let k = choose|k: int|
            #![trigger path.take(k)]
            1 <= k <= path.len() && is_ignored_itself(files, path, k, is_dir);
        assert(is_ignored_itself(more, path, k, is_dir));
    }
}

proof fn lemma_file_elsewhere_within(
    files: Seq<IgnoreFileView>,
    file: IgnoreFileView,
    depth: int,
    path: Seq<Seq<char>>,
    is_dir: bool,
)
    requires
        !lies_under(path, file.dir),
        depth <= path.len(),
    ensures
        verdict_within(files.push(file), depth, path, is_dir) == verdict_within(
            files,
            depth,
            path,
            is_dir,
        ),
    decreases depth,
{
    if depth > 0 {
        assert(files.push(file).drop_last() =~= files);
        if file.dir == path.take(depth - 1) {
            assert(lies_under(path, file.dir));
        }
        lemma_file_elsewhere_within(files, file, depth - 1, path, is_dir);
    }
}

} // verus!
