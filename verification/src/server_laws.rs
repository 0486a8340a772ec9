//! What holds of the registry of resources as a whole: names stay unique,
//! registering twice changes nothing, removing keeps the resource, and one
//! that was removed can be registered again.

use crate::db::{ChunkRecord, ChunkRow, IndexingStatus, ResourceStatus, ResourceView};
use crate::error::ErrorView;
use crate::resource::path_of;
use crate::server::{
    active_of, chunks_of, count_of, deactivated, new_resource, next_add, next_query, prompt_for,
    scored_views, source_text, sources_for, top_k_of, AddActionView, AddEventView, AddPhase,
    QueryActionView, QueryEventView, QueryPhaseView, ResponseView,
};
use vstd::prelude::*;

verus! {

/// The registered resources, each under its URI.
pub type Registry = Map<Seq<char>, ResourceView>;

/// Whether each resource stands under its own URI, and no two have the same
/// name.
pub open spec fn is_registry(registry: Registry) -> bool {
    &&& forall|u: Seq<char>| #[trigger] registry.dom().contains(u) ==> registry[u].uri == u
    &&& forall|u: Seq<char>, v: Seq<char>|
        #[trigger] registry.dom().contains(u) && #[trigger] registry.dom().contains(v)
            && registry[u].name == registry[v].name ==> u == v
}

/// Whether a resource of the given name is registered under the given URI.
pub open spec fn is_at(registry: Registry, name: Seq<char>, uri: Seq<char>) -> bool {
    registry.dom().contains(uri) && registry[uri].name == name
}

/// Whether some resource has the given name.
pub open spec fn is_taken(registry: Registry, name: Seq<char>) -> bool {
    exists|u: Seq<char>| is_at(registry, name, u)
}

/// The resource under the given URI, if there is one.
pub open spec fn stored_at(registry: Registry, uri: Seq<char>) -> Option<ResourceView> {
    if registry.dom().contains(uri) {
        Some(registry[uri])
    } else {
        None
    }
}

/// The resource of the given name, if there is one.
pub open spec fn holder_of(registry: Registry, name: Seq<char>) -> Option<ResourceView> {
    if is_taken(registry, name) {
        Some(registry[choose|u: Seq<char>| is_at(registry, name, u)])
    } else {
        None
    }
}

/// The registry with a resource inserted, or updated if one stands under its
/// URI.
pub open spec fn upserted(registry: Registry, resource: ResourceView) -> Registry {
    registry.insert(resource.uri, resource)
}

/// A resource that was stored is what a lookup of its URI gives back; storing
/// another one under the same URI replaces it and adds nothing, and every
/// other resource stays.
pub proof fn law_stored_resource_is_read_back(
    registry: Registry,
    resource: ResourceView,
    update: ResourceView,
    other: Seq<char>,
)
    requires
        update.uri == resource.uri,
        other != resource.uri,
    ensures
        stored_at(upserted(registry, resource), resource.uri) == Some(resource),
        upserted(upserted(registry, resource), update) == upserted(registry, update),
        upserted(upserted(registry, resource), update).dom() == upserted(registry, resource).dom(),
        stored_at(upserted(registry, resource), other) == stored_at(registry, other),
{
    assert(upserted(upserted(registry, resource), update) =~= upserted(registry, update));
    assert(upserted(registry, update).dom() =~= upserted(registry, resource).dom());
}

/// A registration taken through its steps, with a store that answers from the
/// registry and stores what it is given: the registry afterwards, and what
/// the request is answered.
pub open spec fn after_add(
    registry: Registry,
    name: Seq<char>,
    uri: Seq<char>,
    now: Seq<char>,
) -> (Registry, Result<Seq<char>, ErrorView>) {
    let (phase, action) = next_add(name, uri, AddPhase::Starting, AddEventView::Started, now);
    match action {
        AddActionView::FindByUri(asked) => {
            let found = AddEventView::Found(Ok(stored_at(registry, asked)));
            let (phase, action) = next_add(name, uri, phase, found, now);
            match action {
                AddActionView::FindByName(asked) => {
                    let found = AddEventView::Found(Ok(holder_of(registry, asked)));
                    let (phase, action) = next_add(name, uri, phase, found, now);
                    after_decision(registry, name, uri, phase, action, now)
                },
                _ => after_decision(registry, name, uri, phase, action, now),
            }
        },
        _ => (registry, action->Reply_0),
    }
}

/// What a registration comes to once it is decided: a resource to store is
/// stored.
pub open spec fn after_decision(
    registry: Registry,
    name: Seq<char>,
    uri: Seq<char>,
    phase: AddPhase,
    action: AddActionView,
    now: Seq<char>,
) -> (Registry, Result<Seq<char>, ErrorView>) {
    match action {
        AddActionView::Store(resource) => {
            let stored = AddEventView::Stored(Ok(()));
            (upserted(registry, resource), next_add(name, uri, phase, stored, now).1->Reply_0)
        },
        _ => (registry, action->Reply_0),
    }
}

/// The registry after a request to remove a resource.
pub open spec fn after_remove(registry: Registry, name: Seq<char>) -> Registry {
    if is_taken(registry, name) {
        let uri = choose|u: Seq<char>| is_at(registry, name, u);
        upserted(registry, deactivated(registry[uri]))
    } else {
        registry
    }
}

/// Registering keeps names unique.
pub proof fn law_add_keeps_names_unique(
    registry: Registry,
    name: Seq<char>,
    uri: Seq<char>,
    now: Seq<char>,
)
    requires
        is_registry(registry),
    ensures
        is_registry(after_add(registry, name, uri, now).0),
{
    let after = after_add(registry, name, uri, now).0;
    assert forall|u: Seq<char>, v: Seq<char>|
        #[trigger] after.dom().contains(u) && #[trigger] after.dom().contains(v) && after[u].name
            == after[v].name implies u == v by {
        if u != v && (u == uri || v == uri) && !registry.dom().contains(uri) {
            let other = if u == uri {
                v
            } else {
                u
            };
            assert(registry.dom().contains(other));
            assert(is_at(registry, name, other));
        }
    }
}

/// A new resource under a free URI and a free name is stored, active and
/// waiting to be indexed, and everything else stays.
pub proof fn law_add_stores_a_pending_resource(
    registry: Registry,
    name: Seq<char>,
    uri: Seq<char>,
    now: Seq<char>,
)
    requires
        path_of(uri) is Some,
        !registry.dom().contains(uri),
        !is_taken(registry, name),
    ensures
        after_add(registry, name, uri, now).0 == registry.insert(
            uri,
            new_resource(name, uri, now),
        ),
        after_add(registry, name, uri, now).1 is Ok,
{
}

/// Registering an active resource again is no error and changes nothing.
pub proof fn law_adding_an_active_resource_is_a_no_op(
    registry: Registry,
    name: Seq<char>,
    uri: Seq<char>,
    now: Seq<char>,
)
    requires
        path_of(uri) is Some,
        is_at(registry, name, uri),
        registry[uri].status == ResourceStatus::Active,
    ensures
        after_add(registry, name, uri, now).0 == registry,
        after_add(registry, name, uri, now).1 == Ok::<Seq<char>, ErrorView>(
            "resource `"@ + name + "` already registered"@,
        ),
{
}

/// Registering twice is no error, and the second time changes nothing.
pub proof fn law_add_twice_is_a_no_op(
    registry: Registry,
    name: Seq<char>,
    uri: Seq<char>,
    now: Seq<char>,
    later: Seq<char>,
)
    requires
        after_add(registry, name, uri, now).1 is Ok,
    ensures
        after_add(after_add(registry, name, uri, now).0, name, uri, later).0 == after_add(
            registry,
            name,
            uri,
            now,
        ).0,
        after_add(after_add(registry, name, uri, now).0, name, uri, later).1 is Ok,
{
}

/// A registration that succeeds leaves the resource registered and active.
pub proof fn law_added_resource_is_active(
    registry: Registry,
    name: Seq<char>,
    uri: Seq<char>,
    now: Seq<char>,
)
    requires
        after_add(registry, name, uri, now).1 is Ok,
    ensures
        is_at(after_add(registry, name, uri, now).0, name, uri),
        after_add(registry, name, uri, now).0[uri].status == ResourceStatus::Active,
{
}

/// Registering an inactive resource under its name stores it like a new one,
/// and everything else stays.
pub proof fn law_adding_an_inactive_resource_renews_it(
    registry: Registry,
    name: Seq<char>,
    uri: Seq<char>,
    now: Seq<char>,
)
    requires
        path_of(uri) is Some,
        is_at(registry, name, uri),
        registry[uri].status == ResourceStatus::Inactive,
    ensures
        after_add(registry, name, uri, now).0 == registry.insert(
            uri,
            new_resource(name, uri, now),
        ),
        after_add(registry, name, uri, now).1 == Ok::<Seq<char>, ErrorView>(
            "resource `"@ + name + "` added"@,
        ),
{
}

/// A resource that was removed can be registered again under the same name:
/// it is stored like a new one, and everything else stays.
pub proof fn law_removed_resource_can_be_added_again(
    registry: Registry,
    name: Seq<char>,
    uri: Seq<char>,
    now: Seq<char>,
)
    requires
        is_registry(registry),
        path_of(uri) is Some,
        is_at(registry, name, uri),
    ensures
        after_add(after_remove(registry, name), name, uri, now).0 == registry.insert(
            uri,
            new_resource(name, uri, now),
        ),
        after_add(after_remove(registry, name), name, uri, now).1 == Ok::<Seq<char>, ErrorView>(
            "resource `"@ + name + "` added"@,
        ),
{
    law_remove_marks_inactive(registry, name, uri);
    let removed = after_remove(registry, name);
    law_adding_an_inactive_resource_renews_it(removed, name, uri, now);
    assert(removed.insert(uri, new_resource(name, uri, now)) =~= registry.insert(
        uri,
        new_resource(name, uri, now),
    ));
}

/// A refused registration changes nothing.
pub proof fn law_refused_add_changes_nothing(
    registry: Registry,
    name: Seq<char>,
    uri: Seq<char>,
    now: Seq<char>,
)
    requires
        after_add(registry, name, uri, now).1 is Err,
    ensures
        after_add(registry, name, uri, now).0 == registry,
{
}

/// A name that is in use under another URI, and a URI that is registered
/// under another name, are refused as a conflict.
pub proof fn law_name_and_uri_belong_together(
    registry: Registry,
    name: Seq<char>,
    uri: Seq<char>,
    now: Seq<char>,
    other: Seq<char>,
)
    requires
        is_registry(registry),
        path_of(uri) is Some,
        is_at(registry, name, other) && other != uri || registry.dom().contains(uri)
            && registry[uri].name != name,
    ensures
        after_add(registry, name, uri, now).1 matches Err(e) && e is ResourceAlreadyExists
            && e.http_status() == 409,
{
    if is_at(registry, name, other) && other != uri {
        assert(is_taken(registry, name));
        if registry.dom().contains(uri) {
            assert(registry.dom().contains(other));
        }
    }
}

/// What a registration is answered names the resource and says what came of
/// it: that it is registered already, that it was added, under which other
/// name its URI is registered, or that its name is in use.
pub proof fn law_registrations_are_answered(
    registry: Registry,
    name: Seq<char>,
    uri: Seq<char>,
    now: Seq<char>,
)
    requires
        is_registry(registry),
        path_of(uri) is Some,
    ensures
        ({
            let answer = after_add(registry, name, uri, now).1;
            if registry.dom().contains(uri) {
                let there = registry[uri];
                &&& there.name == name && there.status == ResourceStatus::Active ==> answer == Ok::<
                    Seq<char>,
                    ErrorView,
                >("resource `"@ + (name + "` already registered"@))
                &&& there.name == name && there.status == ResourceStatus::Inactive ==> answer
                    == Ok::<Seq<char>, ErrorView>("resource `"@ + (name + "` added"@))
                &&& there.name != name ==> answer == Err::<Seq<char>, ErrorView>(
                    ErrorView::ResourceAlreadyExists(
                        "uri `"@ + (uri + ("` is already registered under a different name (`"@ + (
                        there.name + "`)"@))),
                    ),
                )
            } else if exists|other: Seq<char>| is_at(registry, name, other) {
                answer == Err::<Seq<char>, ErrorView>(
                    ErrorView::ResourceAlreadyExists(
                        "name `"@ + (name + "` is already in use"@),
                    ),
                )
            } else {
                answer == Ok::<Seq<char>, ErrorView>("resource `"@ + (name + "` added"@))
            }
        }),
{
    assert("resource `"@ + name + "` already registered"@ =~= "resource `"@ + (name
        + "` already registered"@));
    assert("resource `"@ + name + "` added"@ =~= "resource `"@ + (name + "` added"@));
    assert("name `"@ + name + "` is already in use"@ =~= "name `"@ + (name
        + "` is already in use"@));
    let there = registry[uri].name;
    assert("uri `"@ + uri + "` is already registered under a different name (`"@ + there + "`)"@
        =~= "uri `"@ + (uri + ("` is already registered under a different name (`"@ + (there
        + "`)"@))));
}

/// Removing a resource marks it inactive and keeps it; nothing else changes,
/// and names stay unique.
pub proof fn law_remove_marks_inactive(registry: Registry, name: Seq<char>, uri: Seq<char>)
    requires
        is_registry(registry),
        is_at(registry, name, uri),
    ensures
        after_remove(registry, name) == registry.insert(uri, deactivated(registry[uri])),
        after_remove(registry, name).dom() == registry.dom(),
        after_remove(registry, name)[uri].status == ResourceStatus::Inactive,
        is_registry(after_remove(registry, name)),
{
    let u = choose|u: Seq<char>| is_at(registry, name, u);
    assert(is_at(registry, name, u));
    assert(registry.dom().contains(u) && registry.dom().contains(uri));
    assert(u == uri);
    let after = after_remove(registry, name);
    assert(after.dom() =~= registry.dom());
    assert forall|x: Seq<char>, y: Seq<char>|
        #[trigger] after.dom().contains(x) && #[trigger] after.dom().contains(y) && after[x].name
            == after[y].name implies x == y by {
        assert(registry.dom().contains(x) && registry.dom().contains(y));
    }
}

/// An error of the store at any step of a registration is what the request is
/// answered, and nothing more is asked of the store.
pub proof fn law_store_errors_are_reported(
    name: Seq<char>,
    uri: Seq<char>,
    phase: AddPhase,
    e: ErrorView,
    now: Seq<char>,
)
    ensures
        phase == AddPhase::FindingUri || phase == AddPhase::FindingName ==> next_add(
            name,
            uri,
            phase,
            AddEventView::Found(Err(e)),
            now,
        ) == (AddPhase::Done, AddActionView::Reply(Err(e))),
        phase == AddPhase::Storing ==> next_add(
            name,
            uri,
            phase,
            AddEventView::Stored(Err(e)),
            now,
        ) == (AddPhase::Done, AddActionView::Reply(Err(e))),
{
}

/// What a query is answered when everything it asks for succeeds: a question
/// of a resource that is not registered gets an error; one that nothing
/// matches is answered so, without sources and without the model; any other
/// gets the model's answer, grounded in exactly the chunks retrieved, which
/// are what the model is shown.
pub proof fn law_answers_are_grounded_in_their_sources(
    resource: Seq<char>,
    query: Seq<char>,
    top_k: Option<usize>,
    found: Option<ResourceView>,
    embedding: Seq<u32>,
    scored: Seq<(ChunkRow, u32)>,
    answer: Seq<char>,
)
    ensures
        ({
            let step = |phase: QueryPhaseView, event: QueryEventView|
                next_query(resource, query, top_k, phase, event);
            let looked_up = step(QueryPhaseView::Finding, QueryEventView::Found(Ok(found)));
            let embedded = step(looked_up.0, QueryEventView::Embedded(Ok(embedding)));
            let retrieved = step(embedded.0, QueryEventView::Retrieved(Ok(scored)));
            let answered = step(retrieved.0, QueryEventView::Answered(Ok(answer)));
            &&& step(QueryPhaseView::Starting, QueryEventView::Started) == (
                QueryPhaseView::Finding,
                QueryActionView::Find(resource),
            )
            &&& found is None ==> looked_up.1 == QueryActionView::Reply(
                Err(ErrorView::ResourceNotFound(resource)),
            )
            &&& found matches Some(known) ==> {
                &&& looked_up.1 == QueryActionView::Embed(query)
                &&& embedded.1 == (QueryActionView::Search {
                    resource_name: known.name,
                    embedding,
                    top_k: top_k_of(top_k),
                })
                &&& scored.len() == 0 ==> retrieved.1 == QueryActionView::Reply(
                    Ok(
                        ResponseView {
                            answer: "No indexed content matched this query."@,
                            sources: seq![],
                        },
                    ),
                )
                &&& scored.len() > 0 ==> retrieved.1 == (QueryActionView::Ask {
                    system_prompt: prompt_for(chunks_of(scored)),
                    user_message: query,
                }) && answered.1 == QueryActionView::Reply(
                    Ok(ResponseView { answer, sources: sources_for(scored) }),
                )
            }
        }),
{
}

/// The counts of the statuses add up to the number of resources.
pub proof fn law_status_counts_add_up(resources: Seq<ResourceView>)
    ensures
        count_of(resources, ResourceStatus::Active) + count_of(resources, ResourceStatus::Inactive)
            == resources.len(),
    decreases resources.len(),
{
    if resources.len() > 0 {
        law_status_counts_add_up(resources.drop_last());
    }
}

/// A resource as it is first registered is active and waits to be indexed; it
/// was created now, and nothing else is known of it.
pub proof fn law_new_resources_wait_to_be_indexed(
    name: Seq<char>,
    uri: Seq<char>,
    now: Seq<char>,
)
    ensures
        new_resource(name, uri, now).uri == uri,
        new_resource(name, uri, now).name == name,
        new_resource(name, uri, now).status == ResourceStatus::Active,
        new_resource(name, uri, now).indexing_status == IndexingStatus::Pending,
        new_resource(name, uri, now).created_at == now,
        new_resource(name, uri, now).indexing_status_message is None,
        new_resource(name, uri, now).indexing_started_at is None,
        new_resource(name, uri, now).last_indexed_at is None,
        new_resource(name, uri, now).last_error is None,
{
}

/// Removing a resource changes its status and nothing else of it.
pub proof fn law_removing_changes_the_status_alone(resource: ResourceView)
    ensures
        deactivated(resource) == (ResourceView { status: ResourceStatus::Inactive, ..resource }),
{
}

/// A request with a URI that names no local directory is refused as a bad one.
pub proof fn law_only_directories_are_registered(
    registry: Registry,
    name: Seq<char>,
    uri: Seq<char>,
    now: Seq<char>,
)
    requires
        path_of(uri) is None,
    ensures
        after_add(registry, name, uri, now).0 == registry,
        after_add(registry, name, uri, now).1 matches Err(e) && e is Config && e.http_status()
            == 400,
{
}

/// Each error is reported with its own status, and its message says what kind
/// it is and then what went wrong.
pub proof fn law_errors_say_what_they_are(text: Seq<char>)
    ensures
        ErrorView::ResourceNotFound(text).http_status() == 404,
        ErrorView::ResourceAlreadyExists(text).http_status() == 409,
        ErrorView::Config(text).http_status() == 400,
        ErrorView::Io(text).http_status() == 500,
        ErrorView::Storage(text).http_status() == 500,
        ErrorView::ModelEndpoint(text).http_status() == 500,
        ErrorView::ResourceNotFound(text).message() == "resource not found: "@ + text,
        ErrorView::ResourceAlreadyExists(text).message() == "resource already exists: "@ + text,
        ErrorView::Config(text).message() == "invalid configuration: "@ + text,
        ErrorView::Io(text).message() == "io error: "@ + text,
        ErrorView::Storage(text).message() == "storage error: "@ + text,
        ErrorView::ModelEndpoint(text).message() == "model endpoint error: "@ + text,
{
}

/// What the model is told before it is shown anything.
pub open spec fn instruction() -> Seq<char> {
    "Answer the user's question using only the following retrieved context. If the context doesn't contain the answer, say so plainly rather than guessing.\n\n"@
}

/// The part of the prompt that shows a chunk: where it comes from, and what it
/// says.
pub open spec fn shown(chunk: ChunkRow) -> Seq<char> {
    "Source: "@ + chunk.file_path + "\n"@ + chunk.content
}

/// The prompt shows every chunk that was retrieved, in order: the prompt for
/// one is the instruction and that chunk, and one more chunk comes behind a
/// dividing line, with the rest of the prompt as it was.
pub proof fn law_prompt_shows_every_chunk(chunks: Seq<ChunkRow>, chunk: ChunkRow)
    ensures
        prompt_for(seq![chunk]) == instruction() + shown(chunk),
        chunks.len() > 0 ==> prompt_for(chunks.push(chunk)) == prompt_for(chunks)
            + "\n\n---\n\n"@ + shown(chunk),
{
    let of = |c: ChunkRow| source_text(c);
    assert(seq![chunk].map_values(of) =~= seq![shown(chunk)]);
    assert(chunks.push(chunk).map_values(of) =~= chunks.map_values(of).push(shown(chunk)));
    if chunks.len() > 0 {
        let parts = chunks.map_values(of);
        let sep = "\n\n---\n\n"@;
        assert(parts.push(shown(chunk)).drop_last() =~= parts);
        assert(prompt_for(chunks.push(chunk)) =~= prompt_for(chunks) + sep + shown(chunk));
    }
}

/// A chunk that was retrieved is in the prompt, whole, wherever it stands among
/// the others.
pub proof fn law_every_retrieved_chunk_is_shown(chunks: Seq<ChunkRow>, i: int) -> (at: int)
    requires
        0 <= i < chunks.len(),
    ensures
        0 <= at <= at + shown(chunks[i]).len() <= prompt_for(chunks).len(),
        prompt_for(chunks).subrange(at, at + shown(chunks[i]).len()) == shown(chunks[i]),
    decreases chunks.len(),
{
    let n = chunks.len() - 1;
    let front = chunks.drop_last();
    let prompt = prompt_for(chunks);
    assert(front.push(chunks.last()) =~= chunks);
    law_prompt_shows_every_chunk(front, chunks.last());
    if i == n {
        let at = prompt.len() - shown(chunks[i]).len();
        if n == 0 {
            assert(chunks =~= seq![chunks[0]]);
        }
        assert(prompt.subrange(at, prompt.len() as int) =~= shown(chunks[i]));
        at
    } else {
        let at = law_every_retrieved_chunk_is_shown(front, i);
        assert(prompt.subrange(at, at + shown(chunks[i]).len()) =~= prompt_for(front).subrange(
            at,
            at + shown(chunks[i]).len(),
        ));
        at
    }
}

/// The sources of an answer are the chunks retrieved, all of them and in order,
/// each with its path, its content and its score; and these are the chunks
/// that the model is shown.
pub proof fn law_sources_are_what_was_retrieved(scored: Seq<(ChunkRow, u32)>, i: int)
    requires
        0 <= i < scored.len(),
    ensures
        sources_for(scored).len() == scored.len(),
        sources_for(scored)[i].path == scored[i].0.file_path,
        sources_for(scored)[i].content == scored[i].0.content,
        sources_for(scored)[i].score == scored[i].1,
        chunks_of(scored).len() == scored.len(),
        chunks_of(scored)[i] == scored[i].0,
{
}

/// What was retrieved is what the store gave: every chunk with its score.
pub proof fn law_retrieved_chunks_are_taken_as_they_are(
    scored: Seq<(ChunkRecord, u32)>,
    i: int,
)
    requires
        0 <= i < scored.len(),
    ensures
        scored_views(scored).len() == scored.len(),
        scored_views(scored)[i].0 == scored[i].0@,
        scored_views(scored)[i].1 == scored[i].1,
{
}

/// A query retrieves five chunks, or as many as asked for from one to twenty;
/// fewer than one count as one, and more than twenty as twenty.
pub proof fn law_number_of_chunks_is_bounded(k: usize)
    ensures
        top_k_of(None) == 5,
        1 <= k <= 20 ==> top_k_of(Some(k)) == k,
        k < 1 ==> top_k_of(Some(k)) == 1,
        k > 20 ==> top_k_of(Some(k)) == 20,
{
}

/// An error on the way of a query, whatever step it comes from, is what the
/// request is answered, and nothing more is done.
pub proof fn law_query_errors_are_reported(
    resource: Seq<char>,
    query: Seq<char>,
    top_k: Option<usize>,
    phase: QueryPhaseView,
    e: ErrorView,
)
    ensures
        ({
            let answered = (QueryPhaseView::Done, QueryActionView::Reply(Err(e)));
            let step = |event: QueryEventView| next_query(resource, query, top_k, phase, event);
            &&& step(QueryEventView::Found(Err(e))) == answered
            &&& step(QueryEventView::Embedded(Err(e))) == answered
            &&& step(QueryEventView::Retrieved(Err(e))) == answered
            &&& step(QueryEventView::Answered(Err(e))) == answered
        }),
{
}

/// As many resources count as of a status as have it.
pub proof fn law_statuses_are_counted(resources: Seq<ResourceView>, status: ResourceStatus)
    ensures
        count_of(resources, status) == resources.map_values(
            |r: ResourceView| r.status,
        ).to_multiset().count(status),
    decreases resources.len(),
{
    let statuses = resources.map_values(|r: ResourceView| r.status);
    statuses.to_multiset_ensures();
    if resources.len() > 0 {
        let front = resources.drop_last();
        let before = front.map_values(|r: ResourceView| r.status);
        law_statuses_are_counted(front, status);
        before.to_multiset_ensures();
        assert(before.push(resources.last().status) =~= statuses);
    } else {
        assert(!statuses.contains(status));
    }
}

/// After a restart the resources left active are resumed, all of them, in order
/// and no others.
pub proof fn law_active_resources_are_resumed(
    resources: Seq<ResourceView>,
    resource: ResourceView,
)
    ensures
        active_of(seq![]) == Seq::<ResourceView>::empty(),
        resource.status == ResourceStatus::Active ==> active_of(resources.push(resource))
            == active_of(resources).push(resource),
        resource.status != ResourceStatus::Active ==> active_of(resources.push(resource))
            == active_of(resources),
{
    reveal(Seq::filter);
    assert(resources.push(resource).drop_last() =~= resources);
}

} // verus!
