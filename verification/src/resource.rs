//! Per-resource indexing: which files of a directory are indexed, what is
//! done with each of them in turn, and how a resource moves through its
//! indexing lifecycle.

use crate::chunker::{is_binary_extension, names_binary_format};
use crate::db::{IndexingStatus, ResourceRecord, ResourceView};
use crate::error::{ErrorView, RagdError};
use crate::text::{chars_of, lowered, numeral, opt_text, same_text, text_of, write_numeral};
use std::collections::hash_map::DefaultHasher;
use std::hash::Hasher;
use vstd::prelude::*;
use vstd::std_specs::hash::DefaultHasherAdditionalSpecFns;
use vstd::string::*;
use vstd::utf8::encode_utf8;

verus! {

/// Summary of one full-directory indexing pass.
#[derive(Debug, Clone, Copy, PartialEq, Eq, Default)]
pub struct IndexOutcome {
    pub files_indexed: usize,
    pub files_failed: usize,
}

/// The position of the last full stop in a file name, or -1 if it has none.
pub open spec fn last_dot(name: Seq<char>) -> int
    decreases name.len(),
{
    if name.len() == 0 {
        -1
    } else if name.last() == '.' {
        name.len() - 1
    } else {
        last_dot(name.drop_last())
    }
}

/// The extension of a file name: what follows its last full stop, unless it
/// has none but a leading one.
pub open spec fn extension_of(name: Seq<char>) -> Option<Seq<char>> {
    if last_dot(name) <= 0 || name == ".."@ {
        None
    } else {
        Some(name.skip(last_dot(name) + 1))
    }
}

/// Whether a file name is that of a dependency manager's lockfile.
pub open spec fn names_lockfile(name: Seq<char>) -> bool {
    ||| name == "Cargo.lock"@
    ||| name == "package-lock.json"@
    ||| name == "npm-shrinkwrap.json"@
    ||| name == "yarn.lock"@
    ||| name == "pnpm-lock.yaml"@
    ||| name == "bun.lock"@
    ||| name == "bun.lockb"@
    ||| name == "deno.lock"@
    ||| name == "poetry.lock"@
    ||| name == "Pipfile.lock"@
    ||| name == "pdm.lock"@
    ||| name == "uv.lock"@
    ||| name == "Gemfile.lock"@
    ||| name == "composer.lock"@
    ||| name == "go.sum"@
    ||| name == "mix.lock"@
    ||| name == "pubspec.lock"@
    ||| name == "Podfile.lock"@
    ||| name == "gradle.lockfile"@
    ||| name == "packages.lock.json"@
    ||| name == "flake.lock"@
}

/// The extension of a file that is indexed: one that has an extension, and is
/// neither of a binary format nor a lockfile.
pub open spec fn indexable(name: Seq<char>) -> Option<Seq<char>> {
    match extension_of(name) {
        Some(extension) => if names_binary_format(lowered(extension)) || names_lockfile(name) {
            None
        } else {
            Some(extension)
        },
        None => None,
    }
}

/// Whether a file name is that of a dependency manager's lockfile: valid
/// text, but machine-generated noise of no value for retrieval.
pub fn is_lockfile(name: &str) -> (r: bool)
    ensures
        r == names_lockfile(name@),
{
    same_text(name, "Cargo.lock") || same_text(name, "package-lock.json")
        || same_text(name, "npm-shrinkwrap.json") || same_text(name, "yarn.lock")
        || same_text(name, "pnpm-lock.yaml") || same_text(name, "bun.lock")
        || same_text(name, "bun.lockb") || same_text(name, "deno.lock")
        || same_text(name, "poetry.lock") || same_text(name, "Pipfile.lock")
        || same_text(name, "pdm.lock") || same_text(name, "uv.lock")
        || same_text(name, "Gemfile.lock") || same_text(name, "composer.lock")
        || same_text(name, "go.sum") || same_text(name, "mix.lock")
        || same_text(name, "pubspec.lock") || same_text(name, "Podfile.lock")
        || same_text(name, "gradle.lockfile") || same_text(name, "packages.lock.json")
        || same_text(name, "flake.lock")
}

/// The extension of a file name, if it has one.
fn file_extension(name: &str) -> (r: Option<String>)
    ensures
        opt_text(r) == extension_of(name@),
{
    let chars = chars_of(name);
    let mut end: usize = chars.len();
    assert(name@.take(name@.len() as int) =~= name@);
    while end > 0
        invariant
            chars@ == name@,
            end <= chars@.len(),
            last_dot(name@) == last_dot(name@.take(end as int)),
        decreases end,
    {
        let ghost front = name@.take(end as int);
        assert(front.drop_last() =~= name@.take(end - 1));
        if chars[end - 1] == '.' {
            if end == 1 || same_text(name, "..") {
                return None;
            }
            let extension = text_of(&chars, end, chars.len());
            assert(extension@ =~= name@.skip(end as int));
            return Some(extension);
        }
        end = end - 1;
    }
    None
}

/// The extension of a file if it is one that is indexed; none if it has no
/// extension, is of a recognized binary format, or is a lockfile. The full
/// scan and the live watcher share it, so that they never diverge on what
/// counts as indexable.
pub fn indexable_extension(file_name: &str) -> (r: Option<String>)
    ensures
        opt_text(r) == indexable(file_name@),
{
    match file_extension(file_name) {
        Some(extension) => if is_binary_extension(extension.as_str()) || is_lockfile(file_name) {
            None
        } else {
            Some(extension)
        },
        None => None,
    }
}

/// What a directory walk does with an entry.
#[derive(Debug, Clone, PartialEq, Eq)]
pub enum ScanStep {
    /// End the walk.
    Stop,
    /// Go on to the next entry.
    Skip,
    /// Index the file, of the given extension.
    Index(String),
}

/// What a [`ScanStep`] holds.
pub enum ScanStepView {
    Stop,
    Skip,
    Index(Seq<char>),
}

impl View for ScanStep {
    type V = ScanStepView;

    open spec fn view(&self) -> ScanStepView {
        match self {
            ScanStep::Stop => ScanStepView::Stop,
            ScanStep::Skip => ScanStepView::Skip,
            ScanStep::Index(extension) => ScanStepView::Index(extension@),
        }
    }
}

/// Decides on an entry of a directory walk. An entry that could not be read
/// has no file name; one that is no regular file is skipped too.
pub fn scan_entry(cancelled: bool, is_file: bool, file_name: &Option<String>) -> (r: ScanStep)
    ensures
        r@ == if cancelled {
            ScanStepView::Stop
        } else {
            match opt_text(*file_name) {
                Some(name) => if is_file && indexable(name) is Some {
                    ScanStepView::Index(indexable(name)->0)
                } else {
                    ScanStepView::Skip
                },
                None => ScanStepView::Skip,
            }
        },
{
    if cancelled {
        return ScanStep::Stop;
    }
    if !is_file {
        return ScanStep::Skip;
    }
    match file_name {
        Some(name) => match indexable_extension(name.as_str()) {
            Some(extension) => ScanStep::Index(extension),
            None => ScanStep::Skip,
        },
        None => ScanStep::Skip,
    }
}

/// The number of files that are indexed at a time: as many as asked for, and
/// at least one.
pub fn worker_count(max_concurrency: usize) -> (r: usize)
    ensures
        r == if max_concurrency == 0 {
            1
        } else {
            max_concurrency
        },
{
    if max_concurrency == 0 {
        1
    } else {
        max_concurrency
    }
}

/// How many of the results are a success.
pub open spec fn successes(results: Seq<Option<bool>>) -> nat
    decreases results.len(),
{
    if results.len() == 0 {
        0
    } else {
        successes(results.drop_last()) + if results.last() == Some(true) {
            1nat
        } else {
            0
        }
    }
}

impl IndexOutcome {
    /// Sums up the results of indexing files, each whether it was indexed.
    /// A task that did not finish gave no result, and counts as failed.
    pub fn tally(results: &Vec<Option<bool>>) -> (r: Self)
        ensures
            r.files_indexed == successes(results@),
            r.files_failed == results@.len() - successes(results@),
    {
        let mut r = IndexOutcome { files_indexed: 0, files_failed: 0 };
        for i in 0..results.len()
            invariant
                r.files_indexed == successes(results@.take(i as int)),
                r.files_indexed + r.files_failed == i,
        {
            let ghost next = results@.take(i + 1);
            assert(next.drop_last() =~= results@.take(i as int));
            match results[i] {
                Some(true) => {
                    r.files_indexed = r.files_indexed + 1;
                },
                _ => {
                    r.files_failed = r.files_failed + 1;
                },
            }
        }
        assert(results@.take(results@.len() as int) =~= results@);
        r
    }
}

/// The fingerprint of a chunk's content: what the default hasher makes of its
/// bytes, closed by a byte that UTF-8 never holds, written in hexadecimal.
pub open spec fn hash_of(content: Seq<char>) -> Seq<char> {
    numeral(
        DefaultHasher::spec_finish(seq![encode_utf8(content), seq![0xffu8]]) as nat,
        16,
    )
}

/// A cheap, non-cryptographic fingerprint, used only for change detection and
/// not for identity (which the chunk key is for).
pub fn content_hash(content: &str) -> (r: String)
    ensures
        r@ == hash_of(content@),
{
    let mut hasher = DefaultHasher::new();
    hasher.write(content.as_bytes());
    let end: [u8; 1] = [0xff];
    hasher.write(&end);
    assert(end@ =~= seq![0xffu8]);
    assert(hasher@ =~= seq![encode_utf8(content@), seq![0xffu8]]);
    write_numeral(hasher.finish(), 16)
}

/// The path that a `file://` URI names, if it is one with an absolute path.
pub open spec fn path_of(uri: Seq<char>) -> Option<Seq<char>> {
    if uri.len() > 7 && uri.take(7) == "file://"@ && uri[7] == '/' {
        Some(uri.skip(7))
    } else {
        None
    }
}

/// The directory that a resource's URI names. It must be a `file://` URI with
/// an absolute path.
pub fn uri_to_path(uri: &str) -> (r: Result<String, RagdError>)
    ensures
        match path_of(uri@) {
            Some(path) => r matches Ok(text) && text@ == path,
            None => r matches Err(e) && e@ == ErrorView::Config(
                "uri `"@ + uri@ + "` is not a file:// URI of a local directory"@,
            ),
        },
{
    let chars = chars_of(uri);
    if chars.len() > 7 && chars[7] == '/' {
        let scheme = text_of(&chars, 0, 7);
        assert(scheme@ =~= uri@.take(7));
        if same_text(scheme.as_str(), "file://") {
            let path = text_of(&chars, 7, chars.len());
            assert(path@ =~= uri@.skip(7));
            return Ok(path);
        }
    }
    Err(
        RagdError::Config(
            "uri `".to_owned().concat(uri).concat("` is not a file:// URI of a local directory"),
        ),
    )
}

/// A resource whose indexing starts.
pub open spec fn indexing_from(resource: ResourceView, now: Seq<char>) -> ResourceView {
    ResourceView {
        indexing_status: IndexingStatus::Indexing,
        indexing_started_at: Some(now),
        ..resource
    }
}

/// The note on files that could not be indexed.
pub open spec fn failure_note(files_failed: usize) -> Seq<char> {
    numeral(files_failed as nat, 10) + " file(s) could not be indexed"@
}

/// A resource whose indexing ended. It failed if no file could be indexed
/// though there were some; else it is indexed, with a note on the files that
/// could not be.
pub open spec fn indexed_with(
    resource: ResourceView,
    outcome: IndexOutcome,
    now: Seq<char>,
) -> ResourceView {
    if outcome.files_indexed == 0 && outcome.files_failed > 0 {
        ResourceView {
            indexing_status: IndexingStatus::Failed,
            last_error: Some(failure_note(outcome.files_failed)),
            ..resource
        }
    } else {
        ResourceView {
            indexing_status: IndexingStatus::Indexed,
            last_indexed_at: Some(now),
            last_error: if outcome.files_failed > 0 {
                Some(failure_note(outcome.files_failed))
            } else {
                None
            },
            ..resource
        }
    }
}

fn write_failure_note(files_failed: usize) -> (r: String)
    ensures
        r@ == failure_note(files_failed),
{
    write_numeral(files_failed as u64, 10).concat(" file(s) could not be indexed")
}

/// Marks the start of a resource's indexing.
pub fn start_indexing(resource: ResourceRecord, now: &str) -> (r: ResourceRecord)
    ensures
        r@ == indexing_from(resource@, now@),
{
    let mut resource = resource;
    resource.indexing_status = IndexingStatus::Indexing;
    resource.indexing_started_at = Some(now.to_owned());
    resource
}

/// Marks the end of a resource's indexing.
pub fn finish_indexing(resource: ResourceRecord, outcome: IndexOutcome, now: &str) -> (r:
    ResourceRecord)
    ensures
        r@ == indexed_with(resource@, outcome, now@),
{
    let mut resource = resource;
    if outcome.files_indexed == 0 && outcome.files_failed > 0 {
        resource.indexing_status = IndexingStatus::Failed;
        resource.last_error = Some(write_failure_note(outcome.files_failed));
    } else {
        resource.indexing_status = IndexingStatus::Indexed;
        resource.last_indexed_at = Some(now.to_owned());
        resource.last_error = None;
        if outcome.files_failed > 0 {
            resource.last_error = Some(write_failure_note(outcome.files_failed));
        }
    }
    resource
}

/// A binary format and a lockfile are never indexed, whatever the case of the
/// extension; nor is a file without an extension.
pub proof fn law_binaries_and_lockfiles_are_never_indexed(name: Seq<char>)
    ensures
        names_lockfile(name) ==> indexable(name) is None,
        extension_of(name) is None ==> indexable(name) is None,
        extension_of(name) matches Some(extension) && names_binary_format(lowered(extension))
            ==> indexable(name) is None,
        indexable(name) is Some ==> indexable(name) == extension_of(name),
{
}

/// Indexing a resource touches its indexing state alone: it is being indexed
/// first, then indexed or failed, and it fails only if files did. What it is,
/// where it is and whether it is active stay.
pub proof fn law_indexing_lifecycle(
    resource: ResourceView,
    outcome: IndexOutcome,
    now: Seq<char>,
    later: Seq<char>,
)
    ensures
        ({
            let during = indexing_from(resource, now);
            let after = indexed_with(during, outcome, later);
            &&& during.indexing_status == IndexingStatus::Indexing
            &&& after.indexing_status == IndexingStatus::Indexed || after.indexing_status
                == IndexingStatus::Failed
            &&& after.indexing_status == IndexingStatus::Failed ==> outcome.files_failed > 0
            &&& outcome.files_failed > 0 <==> after.last_error is Some
            &&& after.indexing_started_at == Some(now)
            &&& after.uri == resource.uri && after.name == resource.name
            &&& after.status == resource.status && after.created_at == resource.created_at
        }),
{
}

} // verus!
