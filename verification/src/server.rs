//! HTTP API: what each request comes to, given what the store and the models
//! answer.

use crate::db::{
    resource_views, ChunkRecord, ChunkRow, IndexingStatus, ResourceRecord, ResourceStatus,
    ResourceView,
};
use crate::error::{ErrorView, RagdError};
use crate::resource::{path_of, uri_to_path};
use crate::store::copy_resource;
use crate::text::{join_range, joined, same_text, texts};
use vstd::prelude::*;
use vstd::string::*;

verus! {

/// A request to register a resource.
#[derive(Debug, Clone, PartialEq, Eq)]
pub struct AddResourceRequest {
    pub name: String,
    pub uri: String,
}

/// What is done about a request to register a resource, given the resource
/// stored under its URI.
#[derive(Debug, Clone, PartialEq)]
pub enum UriCheck {
    /// Nothing: the resource is registered already. The message says so.
    Registered(String),
    /// The resource was removed, and is stored anew.
    Renewed(ResourceRecord),
    /// It is looked up whether the name is taken.
    LookUpName,
}

/// What a [`UriCheck`] holds.
pub enum UriCheckView {
    Registered(Seq<char>),
    Renewed(ResourceView),
    LookUpName,
}

impl View for UriCheck {
    type V = UriCheckView;

    open spec fn view(&self) -> UriCheckView {
        match self {
            UriCheck::Registered(message) => UriCheckView::Registered(message@),
            UriCheck::Renewed(resource) => UriCheckView::Renewed(resource@),
            UriCheck::LookUpName => UriCheckView::LookUpName,
        }
    }
}

/// A resource as it is first registered.
pub open spec fn new_resource(name: Seq<char>, uri: Seq<char>, now: Seq<char>) -> ResourceView {
    ResourceView {
        uri,
        name,
        status: ResourceStatus::Active,
        indexing_status: IndexingStatus::Pending,
        indexing_status_message: None,
        created_at: now,
        indexing_started_at: None,
        last_indexed_at: None,
        last_error: None,
    }
}

/// What a resource stored under the requested URI means for a request to
/// register one: under the same name, an active one is registered already, and
/// one that was removed is registered anew.
pub open spec fn uri_verdict(
    name: Seq<char>,
    uri: Seq<char>,
    existing: Option<ResourceView>,
    now: Seq<char>,
) -> Result<UriCheckView, ErrorView> {
    match existing {
        Some(resource) => if resource.name != name {
            Err(
                ErrorView::ResourceAlreadyExists(
                    "uri `"@ + uri + "` is already registered under a different name (`"@
                        + resource.name + "`)"@,
                ),
            )
        } else if resource.status == ResourceStatus::Active {
            Ok(UriCheckView::Registered("resource `"@ + name + "` already registered"@))
        } else {
            Ok(UriCheckView::Renewed(new_resource(name, uri, now)))
        },
        None => Ok(UriCheckView::LookUpName),
    }
}

/// What a taken name means for a request to register a resource.
pub open spec fn name_verdict(
    name: Seq<char>,
    uri: Seq<char>,
    taken: bool,
    now: Seq<char>,
) -> Result<ResourceView, ErrorView> {
    if taken {
        Err(ErrorView::ResourceAlreadyExists("name `"@ + name + "` is already in use"@))
    } else {
        Ok(new_resource(name, uri, now))
    }
}

impl AddResourceRequest {
    /// The directory to index. The URI must be a `file://` one.
    pub fn root(&self) -> (r: Result<String, RagdError>)
        ensures
            match path_of(self.uri@) {
                Some(path) => r matches Ok(text) && text@ == path,
                None => r matches Err(e) && e@ == ErrorView::Config(
                    "uri `"@ + self.uri@ + "` is not a file:// URI of a local directory"@,
                ),
            },
    {
        uri_to_path(self.uri.as_str())
    }

    /// The resource as it is first registered.
    fn new_record(&self, now: &str) -> (r: ResourceRecord)
        ensures
            r@ == new_resource(self.name@, self.uri@, now@),
    {
        ResourceRecord {
            uri: self.uri.clone(),
            name: self.name.clone(),
            status: ResourceStatus::Active,
            indexing_status: IndexingStatus::Pending,
            indexing_status_message: None,
            created_at: now.to_owned(),
            indexing_started_at: None,
            last_indexed_at: None,
            last_error: None,
        }
    }

    /// Decides on the request, given the resource stored under its URI:
    /// registering an active resource again is no error, another name for it
    /// is, and one that was removed is registered anew.
    pub fn check_uri(&self, existing: &Option<ResourceRecord>, now: &str) -> (r: Result<
        UriCheck,
        RagdError,
    >)
        ensures
            match uri_verdict(
                self.name@,
                self.uri@,
                match existing {
                    Some(resource) => Some(resource@),
                    None => None,
                },
                now@,
            ) {
                Ok(check) => r matches Ok(c) && c@ == check,
                Err(e) => r matches Err(error) && error@ == e,
            },
    {
        match existing {
            Some(resource) => {
                if !same_text(resource.name.as_str(), self.name.as_str()) {
                    Err(
                        RagdError::ResourceAlreadyExists(
                            "uri `".to_owned().concat(self.uri.as_str()).concat(
                                "` is already registered under a different name (`",
                            ).concat(resource.name.as_str()).concat("`)"),
                        ),
                    )
                } else if resource.status == ResourceStatus::Active {
                    Ok(
                        UriCheck::Registered(
                            "resource `".to_owned().concat(self.name.as_str()).concat(
                                "` already registered",
                            ),
                        ),
                    )
                } else {
                    Ok(UriCheck::Renewed(self.new_record(now)))
                }
            },
            None => Ok(UriCheck::LookUpName),
        }
    }

    /// Decides on the request, given the resource stored under its name, if
    /// there is one. Gives the resource to store.
    pub fn check_name(&self, holder: &Option<ResourceRecord>, now: &str) -> (r: Result<
        ResourceRecord,
        RagdError,
    >)
        ensures
            match name_verdict(self.name@, self.uri@, holder is Some, now@) {
                Ok(resource) => r matches Ok(record) && record@ == resource,
                Err(e) => r matches Err(error) && error@ == e,
            },
    {
        match holder {
            Some(_) => Err(
                RagdError::ResourceAlreadyExists(
                    "name `".to_owned().concat(self.name.as_str()).concat("` is already in use"),
                ),
            ),
            None => Ok(self.new_record(now)),
        }
    }

    /// The message that a resource was added.
    pub fn added_message(&self) -> (r: String)
        ensures
            r@ == "resource `"@ + self.name@ + "` added"@,
    {
        "resource `".to_owned().concat(self.name.as_str()).concat("` added")
    }
}

/// What the store answered to a lookup.
pub open spec fn lookup_view(r: Result<Option<ResourceRecord>, RagdError>) -> Result<
    Option<ResourceView>,
    ErrorView,
> {
    match r {
        Ok(Some(resource)) => Ok(Some(resource@)),
        Ok(None) => Ok(None),
        Err(e) => Err(e@),
    }
}

/// How far a registration has come.
#[derive(Debug, Clone, Copy, PartialEq, Eq, Structural)]
pub enum AddPhase {
    /// Nothing was done yet.
    Starting,
    /// The resource under the URI is being looked up.
    FindingUri,
    /// The resource of the name is being looked up.
    FindingName,
    /// The new resource is being stored.
    Storing,
    /// The request is answered.
    Done,
}

/// What came of the last action of a registration.
#[derive(Debug)]
pub enum AddEvent {
    /// The registration is to start.
    Started,
    /// What the store answered to a lookup.
    Found(Result<Option<ResourceRecord>, RagdError>),
    /// Whether the resource was stored.
    Stored(Result<(), RagdError>),
}

/// What an [`AddEvent`] holds.
pub enum AddEventView {
    Started,
    Found(Result<Option<ResourceView>, ErrorView>),
    Stored(Result<(), ErrorView>),
}

impl View for AddEvent {
    type V = AddEventView;

    open spec fn view(&self) -> AddEventView {
        match self {
            AddEvent::Started => AddEventView::Started,
            AddEvent::Found(r) => AddEventView::Found(lookup_view(*r)),
            AddEvent::Stored(r) => AddEventView::Stored(
                match r {
                    Ok(_) => Ok(()),
                    Err(e) => Err(e@),
                },
            ),
        }
    }
}

/// What a registration does next.
#[derive(Debug)]
pub enum AddAction {
    /// Look up the resource under a URI.
    FindByUri(String),
    /// Look up the resource of a name.
    FindByName(String),
    /// Store a resource.
    Store(ResourceRecord),
    /// Answer the request, with a message or an error.
    Reply(Result<String, RagdError>),
}

/// What an [`AddAction`] holds.
pub enum AddActionView {
    FindByUri(Seq<char>),
    FindByName(Seq<char>),
    Store(ResourceView),
    Reply(Result<Seq<char>, ErrorView>),
}

impl View for AddAction {
    type V = AddActionView;

    open spec fn view(&self) -> AddActionView {
        match self {
            AddAction::FindByUri(uri) => AddActionView::FindByUri(uri@),
            AddAction::FindByName(name) => AddActionView::FindByName(name@),
            AddAction::Store(resource) => AddActionView::Store(resource@),
            AddAction::Reply(r) => AddActionView::Reply(
                match r {
                    Ok(message) => Ok(message@),
                    Err(e) => Err(e@),
                },
            ),
        }
    }
}

/// Whether an event answers the last action of a registration.
pub open spec fn answers_add(phase: AddPhase, event: AddEventView) -> bool {
    match phase {
        AddPhase::Starting => event is Started,
        AddPhase::FindingUri | AddPhase::FindingName => event is Found,
        AddPhase::Storing => event is Stored,
        AddPhase::Done => false,
    }
}

/// The next phase and action of a registration: the URI is checked and looked
/// up, then the name unless the resource was known, and a new resource stored.
/// An error of the store is the answer.
pub open spec fn next_add(
    name: Seq<char>,
    uri: Seq<char>,
    phase: AddPhase,
    event: AddEventView,
    now: Seq<char>,
) -> (AddPhase, AddActionView) {
    match (phase, event) {
        (AddPhase::Starting, _) => if path_of(uri) is Some {
            (AddPhase::FindingUri, AddActionView::FindByUri(uri))
        } else {
            (
                AddPhase::Done,
                AddActionView::Reply(
                    Err(
                        ErrorView::Config(
                            "uri `"@ + uri + "` is not a file:// URI of a local directory"@,
                        ),
                    ),
                ),
            )
        },
        (AddPhase::FindingUri, AddEventView::Found(Ok(existing))) => match uri_verdict(
            name,
            uri,
            existing,
            now,
        ) {
            Ok(UriCheckView::Registered(message)) => (
                AddPhase::Done,
                AddActionView::Reply(Ok(message)),
            ),
            Ok(UriCheckView::Renewed(resource)) => (
                AddPhase::Storing,
                AddActionView::Store(resource),
            ),
            Ok(UriCheckView::LookUpName) => (
                AddPhase::FindingName,
                AddActionView::FindByName(name),
            ),
            Err(e) => (AddPhase::Done, AddActionView::Reply(Err(e))),
        },
        (AddPhase::FindingName, AddEventView::Found(Ok(holder))) => match name_verdict(
            name,
            uri,
            holder is Some,
            now,
        ) {
            Ok(resource) => (AddPhase::Storing, AddActionView::Store(resource)),
            Err(e) => (AddPhase::Done, AddActionView::Reply(Err(e))),
        },
        (_, AddEventView::Stored(Ok(_))) => (
            AddPhase::Done,
            AddActionView::Reply(Ok("resource `"@ + name + "` added"@)),
        ),
        (_, AddEventView::Found(Err(e))) => (AddPhase::Done, AddActionView::Reply(Err(e))),
        (_, AddEventView::Stored(Err(e))) => (AddPhase::Done, AddActionView::Reply(Err(e))),
        _ => arbitrary(),
    }
}

/// The handling of a request to register a resource.
#[derive(Debug)]
pub struct AddRun {
    pub request: AddResourceRequest,
    pub phase: AddPhase,
}

impl AddRun {
    /// Prepares the handling of a request.
    pub fn new(request: AddResourceRequest) -> (r: AddRun)
        ensures
            r.request == request,
            r.phase == AddPhase::Starting,
    {
        AddRun { request, phase: AddPhase::Starting }
    }

    /// Takes in what came of the last action and gives the next one. `now` is
    /// the time to record for a new resource.
    pub fn step(&mut self, event: AddEvent, now: &str) -> (r: AddAction)
        requires
            answers_add(old(self).phase, event@),
        ensures
            final(self).request == old(self).request,
            (final(self).phase, r@) == next_add(
                old(self).request.name@,
                old(self).request.uri@,
                old(self).phase,
                event@,
                now@,
            ),
    {
        let phase = self.phase;
        self.phase = AddPhase::Done;
        match event {
            AddEvent::Started => match self.request.root() {
                Ok(_) => {
                    self.phase = AddPhase::FindingUri;
                    AddAction::FindByUri(self.request.uri.clone())
                },
                Err(e) => AddAction::Reply(Err(e)),
            },
            AddEvent::Found(Ok(resource)) => {
                if phase == AddPhase::FindingUri {
                    match self.request.check_uri(&resource, now) {
                        Ok(UriCheck::Registered(message)) => AddAction::Reply(Ok(message)),
                        Ok(UriCheck::Renewed(record)) => {
                            self.phase = AddPhase::Storing;
                            AddAction::Store(record)
                        },
                        Ok(UriCheck::LookUpName) => {
                            self.phase = AddPhase::FindingName;
                            AddAction::FindByName(self.request.name.clone())
                        },
                        Err(e) => AddAction::Reply(Err(e)),
                    }
                } else {
                    match self.request.check_name(&resource, now) {
                        Ok(record) => {
                            self.phase = AddPhase::Storing;
                            AddAction::Store(record)
                        },
                        Err(e) => AddAction::Reply(Err(e)),
                    }
                }
            },
            AddEvent::Found(Err(e)) => AddAction::Reply(Err(e)),
            AddEvent::Stored(Ok(_)) => AddAction::Reply(Ok(self.request.added_message())),
            AddEvent::Stored(Err(e)) => AddAction::Reply(Err(e)),
        }
    }
}

/// A resource that is no longer watched and indexed.
pub open spec fn deactivated(resource: ResourceView) -> ResourceView {
    ResourceView { status: ResourceStatus::Inactive, ..resource }
}

/// The resource of the given name, if it was found.
fn found(name: &str, resource: Option<ResourceRecord>) -> (r: Result<ResourceRecord, RagdError>)
    ensures
        match resource {
            Some(record) => r == Ok::<ResourceRecord, RagdError>(record),
            None => r matches Err(e) && e@ == ErrorView::ResourceNotFound(name@),
        },
{
    match resource {
        Some(record) => Ok(record),
        None => Err(RagdError::ResourceNotFound(name.to_owned())),
    }
}

/// Deactivates the resource of the given name, as it was found. Its chunks
/// stay.
pub fn remove_resource(name: &str, resource: Option<ResourceRecord>) -> (r: Result<
    ResourceRecord,
    RagdError,
>)
    ensures
        match resource {
            Some(record) => r matches Ok(removed) && removed@ == deactivated(record@),
            None => r matches Err(e) && e@ == ErrorView::ResourceNotFound(name@),
        },
{
    match found(name, resource) {
        Ok(record) => {
            let mut record = record;
            record.status = ResourceStatus::Inactive;
            Ok(record)
        },
        Err(e) => Err(e),
    }
}

/// The message that a resource was removed.
pub fn removed_message(name: &str) -> (r: String)
    ensures
        r@ == "resource `"@ + name@ + "` removed"@,
{
    "resource `".to_owned().concat(name).concat("` removed")
}

/// How many of the resources have the given status.
pub open spec fn count_of(resources: Seq<ResourceView>, status: ResourceStatus) -> nat
    decreases resources.len(),
{
    if resources.len() == 0 {
        0
    } else {
        count_of(resources.drop_last(), status) + if resources.last().status == status {
            1nat
        } else {
            0
        }
    }
}

/// The number of resources of each status that some resource has.
pub fn status_summary(resources: &Vec<ResourceRecord>) -> (r: Vec<(ResourceStatus, usize)>)
    ensures
        ({
            let views = resource_views(resources@);
            let active = count_of(views, ResourceStatus::Active);
            let inactive = count_of(views, ResourceStatus::Inactive);
            let first = if active > 0 {
                seq![(ResourceStatus::Active, active as usize)]
            } else {
                seq![]
            };
            let second = if inactive > 0 {
                seq![(ResourceStatus::Inactive, inactive as usize)]
            } else {
                seq![]
            };
            r@ == first + second
        }),
{
    let mut active: usize = 0;
    let mut inactive: usize = 0;
    let ghost views = resource_views(resources@);
    for i in 0..resources.len()
        invariant
            views == resource_views(resources@),
            active == count_of(views.take(i as int), ResourceStatus::Active),
            inactive == count_of(views.take(i as int), ResourceStatus::Inactive),
            active + inactive == i,
    {
        let ghost next = views.take(i + 1);
        assert(next.drop_last() =~= views.take(i as int));
        assert(next.last() == resources@[i as int]@);
        match resources[i].status {
            ResourceStatus::Active => {
                active = active + 1;
            },
            ResourceStatus::Inactive => {
                inactive = inactive + 1;
            },
        }
    }
    assert(views.take(views.len() as int) =~= views);
    let mut r: Vec<(ResourceStatus, usize)> = Vec::new();
    if active > 0 {
        r.push((ResourceStatus::Active, active));
    }
    if inactive > 0 {
        r.push((ResourceStatus::Inactive, inactive));
    }
    r
}

/// The number of chunks that a query retrieves: as many as asked for, five by
/// default, at least one and at most twenty.
pub open spec fn top_k_of(top_k: Option<usize>) -> usize {
    match top_k {
        Some(k) => if k < 1 {
            1
        } else if k > 20 {
            20
        } else {
            k
        },
        None => 5,
    }
}

/// A request to answer a question from a resource.
#[derive(Debug, Clone, PartialEq, Eq)]
pub struct QueryRequest {
    pub resource: String,
    pub query: String,
    pub top_k: Option<usize>,
}

impl QueryRequest {
    /// The resource to ask, as it was found under the requested name.
    pub fn target(&self, resource: Option<ResourceRecord>) -> (r: Result<
        ResourceRecord,
        RagdError,
    >)
        ensures
            match resource {
                Some(record) => r == Ok::<ResourceRecord, RagdError>(record),
                None => r matches Err(e) && e@ == ErrorView::ResourceNotFound(self.resource@),
            },
    {
        found(self.resource.as_str(), resource)
    }

    /// The number of chunks to retrieve.
    pub fn chunk_count(&self) -> (r: usize)
        ensures
            r == top_k_of(self.top_k),
            1 <= r <= 20,
    {
        match self.top_k {
            Some(k) => if k < 1 {
                1
            } else if k > 20 {
                20
            } else {
                k
            },
            None => 5,
        }
    }
}

/// A retrieved chunk as the model gets to see it.
pub open spec fn source_text(chunk: ChunkRow) -> Seq<char> {
    "Source: "@ + chunk.file_path + "\n"@ + chunk.content
}

/// The instructions for the model, with the retrieved chunks as context.
pub open spec fn prompt_for(chunks: Seq<ChunkRow>) -> Seq<char> {
    "Answer the user's question using only the following retrieved context. If the context doesn't contain the answer, say so plainly rather than guessing.\n\n"@
        + joined(chunks.map_values(|c: ChunkRow| source_text(c)), "\n\n---\n\n"@)
}

/// What a query does once its chunks are retrieved.
#[derive(Debug, Clone, PartialEq, Eq)]
pub enum Synthesis {
    /// Nothing matched: this is the answer, without any sources.
    Answer(String),
    /// The model is asked, with this prompt.
    Ask(String),
}

/// What a [`Synthesis`] holds.
pub enum SynthesisView {
    Answer(Seq<char>),
    Ask(Seq<char>),
}

impl View for Synthesis {
    type V = SynthesisView;

    open spec fn view(&self) -> SynthesisView {
        match self {
            Synthesis::Answer(text) => SynthesisView::Answer(text@),
            Synthesis::Ask(prompt) => SynthesisView::Ask(prompt@),
        }
    }
}

/// Decides what a query does with the chunks that were retrieved. Without any
/// it says so rather than letting the model guess.
pub fn synthesize(scored: &Vec<(ChunkRecord, u32)>) -> (r: Synthesis)
    ensures
        r@ == if scored@.len() == 0 {
            SynthesisView::Answer("No indexed content matched this query."@)
        } else {
            SynthesisView::Ask(prompt_for(chunks_of(scored_views(scored@))))
        },
{
    if scored.len() == 0 {
        return Synthesis::Answer("No indexed content matched this query.".to_owned());
    }
    let mut parts: Vec<String> = Vec::new();
    for i in 0..scored.len()
        invariant
            parts@.len() == i,
            forall|j: int| 0 <= j < i ==> (#[trigger] parts@[j])@ == source_text(scored@[j].0@),
    {
        parts.push(
            "Source: ".to_owned().concat(scored[i].0.file_path.as_str()).concat("\n").concat(
                scored[i].0.content.as_str(),
            ),
        );
    }
    let context = join_range(&parts, 0, parts.len(), "\n\n---\n\n");
    proof {
        let chunks = chunks_of(scored_views(scored@));
        let sources = chunks.map_values(|c: ChunkRow| source_text(c));
        assert(texts(parts@).subrange(0, parts@.len() as int) =~= sources);
    }
    Synthesis::Ask(
        "Answer the user's question using only the following retrieved context. If the context doesn't contain the answer, say so plainly rather than guessing.\n\n".to_owned().concat(
            context.as_str(),
        ),
    )
}

/// A chunk that an answer is grounded in. The score is the bit pattern of a
/// single-precision number.
#[derive(Debug, Clone, PartialEq, Eq)]
pub struct SourceChunk {
    pub path: String,
    pub content: String,
    pub score: u32,
}

/// The sources of an answer: the chunks retrieved, in order, each with its
/// score.
pub fn sources_of(scored: &Vec<(ChunkRecord, u32)>) -> (r: Vec<SourceChunk>)
    ensures
        source_views(r@) == sources_for(scored_views(scored@)),
{
    let mut r: Vec<SourceChunk> = Vec::new();
    for i in 0..scored.len()
        invariant
            r@.len() == i,
            forall|j: int|
                0 <= j < i ==> (#[trigger] r@[j])@ == sources_for(scored_views(scored@))[j],
    {
        let chunk = &scored[i].0;
        r.push(
            SourceChunk {
                path: chunk.file_path.clone(),
                content: chunk.content.clone(),
                score: scored[i].1,
            },
        );
    }
    assert(source_views(r@) =~= sources_for(scored_views(scored@)));
    r
}

/// The answer to a question: its text, and the chunks that it is grounded in.
#[derive(Debug, Clone, PartialEq, Eq)]
pub struct QueryResponse {
    pub answer: String,
    pub sources: Vec<SourceChunk>,
}

/// What a [`SourceChunk`] holds.
pub struct SourceView {
    pub path: Seq<char>,
    pub content: Seq<char>,
    pub score: u32,
}

impl View for SourceChunk {
    type V = SourceView;

    open spec fn view(&self) -> SourceView {
        SourceView { path: self.path@, content: self.content@, score: self.score }
    }
}

/// What each source holds, in turn.
pub open spec fn source_views(sources: Seq<SourceChunk>) -> Seq<SourceView> {
    sources.map_values(|c: SourceChunk| c@)
}

/// What a [`QueryResponse`] holds.
pub struct ResponseView {
    pub answer: Seq<char>,
    pub sources: Seq<SourceView>,
}

impl View for QueryResponse {
    type V = ResponseView;

    open spec fn view(&self) -> ResponseView {
        ResponseView { answer: self.answer@, sources: source_views(self.sources@) }
    }
}

/// The retrieved chunks without their scores.
pub open spec fn chunks_of(scored: Seq<(ChunkRow, u32)>) -> Seq<ChunkRow> {
    scored.map_values(|c: (ChunkRow, u32)| c.0)
}

/// The sources of an answer: the chunks retrieved, in order, each with its
/// score.
pub open spec fn sources_for(scored: Seq<(ChunkRow, u32)>) -> Seq<SourceView> {
    scored.map_values(
        |c: (ChunkRow, u32)|
            SourceView { path: c.0.file_path, content: c.0.content, score: c.1 },
    )
}

/// What each retrieved chunk holds, in turn, with its score.
pub open spec fn scored_views(scored: Seq<(ChunkRecord, u32)>) -> Seq<(ChunkRow, u32)> {
    scored.map_values(|c: (ChunkRecord, u32)| (c.0@, c.1))
}

/// How far a query has come.
#[derive(Debug)]
pub enum QueryPhase {
    /// Nothing was done yet.
    Starting,
    /// The resource is being looked up.
    Finding,
    /// The question is being embedded; the resource's name is known.
    Embedding(String),
    /// The chunks closest to the question are being retrieved.
    Searching,
    /// The model is being asked; the sources are known.
    Asking(Vec<SourceChunk>),
    /// The request is answered.
    Done,
}

/// What a [`QueryPhase`] holds.
pub enum QueryPhaseView {
    Starting,
    Finding,
    Embedding(Seq<char>),
    Searching,
    Asking(Seq<SourceView>),
    Done,
}

impl View for QueryPhase {
    type V = QueryPhaseView;

    open spec fn view(&self) -> QueryPhaseView {
        match self {
            QueryPhase::Starting => QueryPhaseView::Starting,
            QueryPhase::Finding => QueryPhaseView::Finding,
            QueryPhase::Embedding(name) => QueryPhaseView::Embedding(name@),
            QueryPhase::Searching => QueryPhaseView::Searching,
            QueryPhase::Asking(sources) => QueryPhaseView::Asking(source_views(sources@)),
            QueryPhase::Done => QueryPhaseView::Done,
        }
    }
}

/// What came of the last action of a query.
#[derive(Debug)]
pub enum QueryEvent {
    /// The query is to start.
    Started,
    /// What the store answered to the lookup of the resource.
    Found(Result<Option<ResourceRecord>, RagdError>),
    /// The embedding of the question.
    Embedded(Result<Vec<u32>, RagdError>),
    /// The chunks retrieved, closest first, each with its score.
    Retrieved(Result<Vec<(ChunkRecord, u32)>, RagdError>),
    /// What the model answered.
    Answered(Result<String, RagdError>),
}

/// What a [`QueryEvent`] holds.
pub enum QueryEventView {
    Started,
    Found(Result<Option<ResourceView>, ErrorView>),
    Embedded(Result<Seq<u32>, ErrorView>),
    Retrieved(Result<Seq<(ChunkRow, u32)>, ErrorView>),
    Answered(Result<Seq<char>, ErrorView>),
}

impl View for QueryEvent {
    type V = QueryEventView;

    open spec fn view(&self) -> QueryEventView {
        match self {
            QueryEvent::Started => QueryEventView::Started,
            QueryEvent::Found(r) => QueryEventView::Found(lookup_view(*r)),
            QueryEvent::Embedded(r) => QueryEventView::Embedded(
                match r {
                    Ok(embedding) => Ok(embedding@),
                    Err(e) => Err(e@),
                },
            ),
            QueryEvent::Retrieved(r) => QueryEventView::Retrieved(
                match r {
                    Ok(scored) => Ok(scored_views(scored@)),
                    Err(e) => Err(e@),
                },
            ),
            QueryEvent::Answered(r) => QueryEventView::Answered(
                match r {
                    Ok(text) => Ok(text@),
                    Err(e) => Err(e@),
                },
            ),
        }
    }
}

/// What a query does next.
#[derive(Debug)]
pub enum QueryAction {
    /// Look up the resource of a name.
    Find(String),
    /// Embed a text.
    Embed(String),
    /// Retrieve the chunks of a resource closest to an embedding, at most as
    /// many as given.
    Search { resource_name: String, embedding: Vec<u32>, top_k: usize },
    /// Ask the model.
    Ask { system_prompt: String, user_message: String },
    /// Answer the request.
    Reply(Result<QueryResponse, RagdError>),
}

/// What a [`QueryAction`] holds.
pub enum QueryActionView {
    Find(Seq<char>),
    Embed(Seq<char>),
    Search { resource_name: Seq<char>, embedding: Seq<u32>, top_k: usize },
    Ask { system_prompt: Seq<char>, user_message: Seq<char> },
    Reply(Result<ResponseView, ErrorView>),
}

impl View for QueryAction {
    type V = QueryActionView;

    open spec fn view(&self) -> QueryActionView {
        match self {
            QueryAction::Find(name) => QueryActionView::Find(name@),
            QueryAction::Embed(text) => QueryActionView::Embed(text@),
            QueryAction::Search { resource_name, embedding, top_k } => QueryActionView::Search {
                resource_name: resource_name@,
                embedding: embedding@,
                top_k: *top_k,
            },
            QueryAction::Ask { system_prompt, user_message } => QueryActionView::Ask {
                system_prompt: system_prompt@,
                user_message: user_message@,
            },
            QueryAction::Reply(r) => QueryActionView::Reply(
                match r {
                    Ok(response) => Ok(response@),
                    Err(e) => Err(e@),
                },
            ),
        }
    }
}

/// Whether an event answers the last action of a query.
pub open spec fn answers_query(phase: QueryPhaseView, event: QueryEventView) -> bool {
    match phase {
        QueryPhaseView::Starting => event is Started,
        QueryPhaseView::Finding => event is Found,
        QueryPhaseView::Embedding(_) => event is Embedded,
        QueryPhaseView::Searching => event is Retrieved,
        QueryPhaseView::Asking(_) => event is Answered,
        QueryPhaseView::Done => false,
    }
}

/// The error that an event brings, if it brings one.
pub open spec fn error_in(event: QueryEventView) -> Option<ErrorView> {
    match event {
        QueryEventView::Found(Err(e)) => Some(e),
        QueryEventView::Embedded(Err(e)) => Some(e),
        QueryEventView::Retrieved(Err(e)) => Some(e),
        QueryEventView::Answered(Err(e)) => Some(e),
        _ => None,
    }
}

/// The next phase and action of a query: the resource is looked up, the
/// question embedded, the closest chunks of that resource retrieved, and the
/// model asked the question with them as context. Without any chunk the
/// answer says so, and the model is not asked. An error on the way is the
/// answer.
pub open spec fn next_query(
    resource: Seq<char>,
    query: Seq<char>,
    top_k: Option<usize>,
    phase: QueryPhaseView,
    event: QueryEventView,
) -> (QueryPhaseView, QueryActionView) {
    if error_in(event) is Some {
        (QueryPhaseView::Done, QueryActionView::Reply(Err(error_in(event)->0)))
    } else {
        match (phase, event) {
            (QueryPhaseView::Finding, QueryEventView::Found(Ok(Some(found)))) => (
                QueryPhaseView::Embedding(found.name),
                QueryActionView::Embed(query),
            ),
            (QueryPhaseView::Finding, _) => (
                QueryPhaseView::Done,
                QueryActionView::Reply(Err(ErrorView::ResourceNotFound(resource))),
            ),
            (QueryPhaseView::Embedding(name), QueryEventView::Embedded(Ok(embedding))) => (
                QueryPhaseView::Searching,
                QueryActionView::Search {
                    resource_name: name,
                    embedding,
                    top_k: top_k_of(top_k),
                },
            ),
            (QueryPhaseView::Searching, QueryEventView::Retrieved(Ok(scored))) => if scored.len()
                == 0 {
                (
                    QueryPhaseView::Done,
                    QueryActionView::Reply(
                        Ok(
                            ResponseView {
                                answer: "No indexed content matched this query."@,
                                sources: seq![],
                            },
                        ),
                    ),
                )
            } else {
                (
                    QueryPhaseView::Asking(sources_for(scored)),
                    QueryActionView::Ask {
                        system_prompt: prompt_for(chunks_of(scored)),
                        user_message: query,
                    },
                )
            },
            (QueryPhaseView::Asking(sources), QueryEventView::Answered(Ok(answer))) => (
                QueryPhaseView::Done,
                QueryActionView::Reply(Ok(ResponseView { answer, sources })),
            ),
            (QueryPhaseView::Starting, _) => (
                QueryPhaseView::Finding,
                QueryActionView::Find(resource),
            ),
            _ => arbitrary(),
        }
    }
}

/// The handling of a request to answer a question.
#[derive(Debug)]
pub struct QueryRun {
    pub request: QueryRequest,
    pub phase: QueryPhase,
}

impl QueryRun {
    /// Prepares the handling of a request.
    pub fn new(request: QueryRequest) -> (r: QueryRun)
        ensures
            r.request == request,
            r.phase == QueryPhase::Starting,
    {
        QueryRun { request, phase: QueryPhase::Starting }
    }

    /// Takes in what came of the last action and gives the next one.
    pub fn step(self, event: QueryEvent) -> (r: (QueryRun, QueryAction))
        requires
            answers_query(self.phase@, event@),
        ensures
            r.0.request == self.request,
            (r.0.phase@, r.1@) == next_query(
                self.request.resource@,
                self.request.query@,
                self.request.top_k,
                self.phase@,
                event@,
            ),
    {
        let QueryRun { request, phase } = self;
        match (phase, event) {
            (QueryPhase::Finding, QueryEvent::Found(Ok(resource))) => match request.target(
                resource,
            ) {
                Ok(resource) => {
                    let text = request.query.clone();
                    (
                        QueryRun { request, phase: QueryPhase::Embedding(resource.name) },
                        QueryAction::Embed(text),
                    )
                },
                Err(e) => (
                    QueryRun { request, phase: QueryPhase::Done },
                    QueryAction::Reply(Err(e)),
                ),
            },
            (QueryPhase::Embedding(resource_name), QueryEvent::Embedded(Ok(embedding))) => {
                let top_k: usize = request.chunk_count();
                (
                    QueryRun { request, phase: QueryPhase::Searching },
                    QueryAction::Search { resource_name, embedding, top_k },
                )
            },
            (QueryPhase::Searching, QueryEvent::Retrieved(Ok(scored))) => {
                let ghost views = scored_views(scored@);
                let sources = sources_of(&scored);
                match synthesize(&scored) {
                    Synthesis::Answer(answer) => {
                        let response = QueryResponse { answer, sources };
                        assert(response@.sources =~= seq![]);
                        (
                            QueryRun { request, phase: QueryPhase::Done },
                            QueryAction::Reply(Ok(response)),
                        )
                    },
                    Synthesis::Ask(system_prompt) => {
                        let user_message = request.query.clone();
                        (
                            QueryRun { request, phase: QueryPhase::Asking(sources) },
                            QueryAction::Ask { system_prompt, user_message },
                        )
                    },
                }
            },
            (QueryPhase::Asking(sources), QueryEvent::Answered(Ok(answer))) => (
                QueryRun { request, phase: QueryPhase::Done },
                QueryAction::Reply(Ok(QueryResponse { answer, sources })),
            ),
            (_, QueryEvent::Found(Err(e))) => (
                QueryRun { request, phase: QueryPhase::Done },
                QueryAction::Reply(Err(e)),
            ),
            (_, QueryEvent::Embedded(Err(e))) => (
                QueryRun { request, phase: QueryPhase::Done },
                QueryAction::Reply(Err(e)),
            ),
            (_, QueryEvent::Retrieved(Err(e))) => (
                QueryRun { request, phase: QueryPhase::Done },
                QueryAction::Reply(Err(e)),
            ),
            (_, QueryEvent::Answered(Err(e))) => (
                QueryRun { request, phase: QueryPhase::Done },
                QueryAction::Reply(Err(e)),
            ),
            _ => {
                let name = request.resource.clone();
                (QueryRun { request, phase: QueryPhase::Finding }, QueryAction::Find(name))
            },
        }
    }
}

/// The resources to resume after a restart: those left active, in order.
pub open spec fn active_of(resources: Seq<ResourceView>) -> Seq<ResourceView> {
    resources.filter(|r: ResourceView| r.status == ResourceStatus::Active)
}

/// The resources to resume after a restart: those left active.
pub fn resumable(resources: &Vec<ResourceRecord>) -> (r: Vec<ResourceRecord>)
    ensures
        resource_views(r@) == active_of(resource_views(resources@)),
{
    let ghost views = resource_views(resources@);
    let mut r: Vec<ResourceRecord> = Vec::new();
    assert(resource_views(r@) =~= seq![]);
    assert(active_of(views.take(0)) =~= seq![]) by {
        reveal(Seq::filter);
    }
    for i in 0..resources.len()
        invariant
            views == resource_views(resources@),
            resource_views(r@) == active_of(views.take(i as int)),
    {
        let ghost before = r@;
        proof {
            let next = views.take(i + 1);
            assert(next.drop_last() =~= views.take(i as int));
            assert(next.last() == resources@[i as int]@);
            reveal(Seq::filter);
        }
        if resources[i].status == ResourceStatus::Active {
            let copy = copy_resource(&resources[i]);
            r.push(copy);
            assert(resource_views(r@) =~= resource_views(before).push(
                copy@,
            ));
        }
    }
    assert(views.take(views.len() as int) =~= views);
    r
}

} // verus!
