use ragd::db::{ChunkRecord, IndexingStatus, ResourceRecord, ResourceStatus};
use ragd::error::RagdError;
use ragd::server::{
    remove_resource, removed_message, resumable, status_summary, AddAction, AddEvent,
    AddResourceRequest, AddRun, QueryAction, QueryEvent, QueryRequest, QueryResponse, QueryRun,
    SourceChunk,
};

/// A registry that answers lookups and stores what it is given.
struct Registry {
    resources: Vec<ResourceRecord>,
}

impl Registry {
    fn new() -> Self {
        Registry { resources: Vec::new() }
    }

    fn add(&mut self, name: &str, uri: &str) -> Result<String, RagdError> {
        let mut run = AddRun::new(AddResourceRequest {
            name: name.to_string(),
            uri: uri.to_string(),
        });
        let mut event = AddEvent::Started;
        loop {
            event = match run.step(event, "2026-09-24T00:00:00Z") {
                AddAction::FindByUri(uri) => {
                    AddEvent::Found(Ok(self.resources.iter().find(|r| r.uri == uri).cloned()))
                }
                AddAction::FindByName(name) => AddEvent::Found(Ok(self.by_name(&name))),
                AddAction::Store(resource) => {
                    self.resources.retain(|r| r.uri != resource.uri);
                    self.resources.push(resource);
                    AddEvent::Stored(Ok(()))
                }
                AddAction::Reply(reply) => return reply,
            };
        }
    }

    fn by_name(&self, name: &str) -> Option<ResourceRecord> {
        self.resources.iter().find(|r| r.name == name).cloned()
    }

    fn remove(&mut self, name: &str) -> Result<String, RagdError> {
        let removed = remove_resource(name, self.by_name(name))?;
        self.resources.retain(|r| r.uri != removed.uri);
        self.resources.push(removed);
        Ok(removed_message(name))
    }
}

#[test]
fn add_resource_then_list_returns_it() {
    let mut registry = Registry::new();
    let message = registry.add("proj", "file:///tmp/proj/").expect("added");
    assert_eq!(message, "resource `proj` added");
    assert_eq!(registry.resources.len(), 1);
    assert_eq!(
        registry.resources[0],
        ResourceRecord {
            uri: "file:///tmp/proj/".to_string(),
            name: "proj".to_string(),
            status: ResourceStatus::Active,
            indexing_status: IndexingStatus::Pending,
            indexing_status_message: None,
            created_at: "2026-09-24T00:00:00Z".to_string(),
            indexing_started_at: None,
            last_indexed_at: None,
            last_error: None,
        }
    );
    assert_eq!(status_summary(&registry.resources), vec![(ResourceStatus::Active, 1)]);
}

#[test]
fn add_resource_twice_same_uri_is_idempotent() {
    let mut registry = Registry::new();
    registry.add("proj", "file:///tmp/proj/").expect("added");
    let message = registry.add("proj", "file:///tmp/proj/").expect("no error");
    assert_eq!(message, "resource `proj` already registered");
    assert_eq!(registry.resources.len(), 1);
}

#[test]
fn add_resource_duplicate_name_different_uri_conflicts() {
    let mut registry = Registry::new();
    registry.add("proj", "file:///tmp/proj-a/").expect("added");
    let error = registry.add("proj", "file:///tmp/proj-b/").expect_err("conflict");
    assert_eq!(error.http_status(), 409);
    assert_eq!(error.message(), "resource already exists: name `proj` is already in use");

    let error = registry.add("other", "file:///tmp/proj-a/").expect_err("conflict");
    assert_eq!(error.http_status(), 409);
    assert_eq!(
        error.message(),
        "resource already exists: uri `file:///tmp/proj-a/` is already registered under a \
         different name (`proj`)"
    );
    assert_eq!(registry.resources.len(), 1);
}

#[test]
fn add_resource_needs_a_file_uri() {
    let mut registry = Registry::new();
    let error = registry.add("proj", "https://example.com/").expect_err("no file URI");
    assert_eq!(error.http_status(), 400);
    assert!(registry.resources.is_empty());
}

#[test]
fn store_errors_reach_the_caller() {
    let mut run = AddRun::new(AddResourceRequest {
        name: "proj".to_string(),
        uri: "file:///tmp/proj/".to_string(),
    });
    run.step(AddEvent::Started, "now");
    let action = run.step(AddEvent::Found(Err(RagdError::Storage("down".to_string()))), "now");
    match action {
        AddAction::Reply(Err(error)) => {
            assert_eq!(error.message(), "storage error: down");
            assert_eq!(error.http_status(), 500);
        }
        other => panic!("unexpected action: {other:?}"),
    }
}

#[test]
fn a_removed_resource_can_be_added_again() {
    let mut registry = Registry::new();
    registry.add("proj", "file:///tmp/proj/").expect("added");
    let first = registry.resources[0].clone();
    registry.resources[0].last_indexed_at = Some("2026-09-23T00:00:00Z".to_string());
    registry.resources[0].indexing_status = IndexingStatus::Indexed;
    registry.remove("proj").expect("removed");
    // Under another name, the URI is still taken; so is the name elsewhere.
    assert_eq!(registry.add("other", "file:///tmp/proj/").expect_err("conflict").http_status(), 409);
    assert_eq!(registry.add("proj", "file:///tmp/else/").expect_err("conflict").http_status(), 409);

    let message = registry.add("proj", "file:///tmp/proj/").expect("added again");
    assert_eq!(message, "resource `proj` added");
    assert_eq!(registry.resources, vec![first]);
    assert_eq!(resumable(&registry.resources).len(), 1);
    let message = registry.add("proj", "file:///tmp/proj/").expect("no error");
    assert_eq!(message, "resource `proj` already registered");
}

#[test]
fn remove_resource_marks_inactive_not_deleted() {
    let mut registry = Registry::new();
    registry.add("proj", "file:///tmp/proj/").expect("added");
    assert_eq!(registry.remove("proj").expect("removed"), "resource `proj` removed");
    assert_eq!(registry.resources.len(), 1);
    assert_eq!(registry.resources[0].status, ResourceStatus::Inactive);
    assert_eq!(status_summary(&registry.resources), vec![(ResourceStatus::Inactive, 1)]);
    assert!(resumable(&registry.resources).is_empty());
}

#[test]
fn remove_missing_resource_returns_404() {
    let error = Registry::new().remove("does-not-exist").expect_err("missing");
    assert_eq!(error.http_status(), 404);
    assert_eq!(error.message(), "resource not found: does-not-exist");
}

#[test]
fn summaries_count_each_status() {
    let mut registry = Registry::new();
    for (name, uri) in [("a", "file:///a"), ("b", "file:///b"), ("c", "file:///c")] {
        registry.add(name, uri).expect("added");
    }
    registry.remove("b").expect("removed");
    assert_eq!(
        status_summary(&registry.resources),
        vec![(ResourceStatus::Active, 2), (ResourceStatus::Inactive, 1)]
    );
    assert_eq!(status_summary(&Vec::new()), Vec::new());
    let names: Vec<String> = resumable(&registry.resources).into_iter().map(|r| r.name).collect();
    assert_eq!(names, vec!["a".to_string(), "c".to_string()]);
}

fn query(top_k: Option<usize>) -> QueryRun {
    QueryRun::new(QueryRequest {
        resource: "proj".to_string(),
        query: "what does a do?".to_string(),
        top_k,
    })
}

fn sample_resource() -> ResourceRecord {
    let mut registry = Registry::new();
    registry.add("proj", "file:///tmp/proj/").expect("added");
    registry.resources.remove(0)
}

fn sample_chunk(file_path: &str, content: &str) -> ChunkRecord {
    ChunkRecord {
        resource_name: "proj".to_string(),
        file_path: file_path.to_string(),
        chunk_index: 0,
        content: content.to_string(),
        content_hash: "hash".to_string(),
        start_line: 0,
        end_line: 0,
        embedding: vec![1.0f32.to_bits(), 0, 0, 0],
        updated_at: "2026-09-24T00:00:00Z".to_string(),
    }
}

#[test]
fn query_returns_synthesized_answer_and_scored_sources() {
    let (run, action) = query(None).step(QueryEvent::Started);
    assert!(matches!(action, QueryAction::Find(name) if name == "proj"));
    let (run, action) = run.step(QueryEvent::Found(Ok(Some(sample_resource()))));
    assert!(matches!(action, QueryAction::Embed(text) if text == "what does a do?"));
    let (run, action) = run.step(QueryEvent::Embedded(Ok(vec![7])));
    match action {
        QueryAction::Search { resource_name, embedding, top_k } => {
            assert_eq!(resource_name, "proj");
            assert_eq!(embedding, vec![7]);
            assert_eq!(top_k, 5);
        }
        other => panic!("unexpected action: {other:?}"),
    }
    let score = 1.0f32.to_bits();
    let (run, action) = run.step(QueryEvent::Retrieved(Ok(vec![
        (sample_chunk("/tmp/proj/a.rs", "fn a() {}"), score),
        (sample_chunk("/tmp/proj/b.rs", "fn b() {}"), 0),
    ])));
    match action {
        QueryAction::Ask { system_prompt, user_message } => {
            assert_eq!(
                system_prompt,
                "Answer the user's question using only the following retrieved context. If the \
                 context doesn't contain the answer, say so plainly rather than guessing.\n\n\
                 Source: /tmp/proj/a.rs\nfn a() {}\n\n---\n\nSource: /tmp/proj/b.rs\nfn b() {}"
            );
            assert_eq!(user_message, "what does a do?");
        }
        other => panic!("unexpected action: {other:?}"),
    }
    let (_, action) = run.step(QueryEvent::Answered(Ok("synthesized answer".to_string())));
    match action {
        QueryAction::Reply(Ok(response)) => assert_eq!(
            response,
            QueryResponse {
                answer: "synthesized answer".to_string(),
                sources: vec![
                    SourceChunk {
                        path: "/tmp/proj/a.rs".to_string(),
                        content: "fn a() {}".to_string(),
                        score,
                    },
                    SourceChunk {
                        path: "/tmp/proj/b.rs".to_string(),
                        content: "fn b() {}".to_string(),
                        score: 0,
                    },
                ],
            }
        ),
        other => panic!("unexpected action: {other:?}"),
    }
}

#[test]
fn query_returns_404_for_unknown_resource() {
    let (run, _) = query(None).step(QueryEvent::Started);
    let (_, action) = run.step(QueryEvent::Found(Ok(None)));
    match action {
        QueryAction::Reply(Err(error)) => {
            assert_eq!(error.http_status(), 404);
            assert_eq!(error.message(), "resource not found: proj");
        }
        other => panic!("unexpected action: {other:?}"),
    }
}

#[test]
fn query_returns_empty_sources_when_resource_has_no_chunks() {
    let (run, _) = query(None).step(QueryEvent::Started);
    let (run, _) = run.step(QueryEvent::Found(Ok(Some(sample_resource()))));
    let (run, _) = run.step(QueryEvent::Embedded(Ok(vec![7])));
    let (_, action) = run.step(QueryEvent::Retrieved(Ok(Vec::new())));
    match action {
        QueryAction::Reply(Ok(response)) => {
            assert_eq!(response.sources, Vec::new());
            assert_eq!(response.answer, "No indexed content matched this query.");
        }
        other => panic!("unexpected action: {other:?}"),
    }
}

#[test]
fn model_errors_end_a_query() {
    let (run, _) = query(None).step(QueryEvent::Started);
    let (run, _) = run.step(QueryEvent::Found(Ok(Some(sample_resource()))));
    let (_, action) =
        run.step(QueryEvent::Embedded(Err(RagdError::ModelEndpoint("boom".to_string()))));
    assert!(
        matches!(action, QueryAction::Reply(Err(RagdError::ModelEndpoint(m))) if m == "boom")
    );
}

#[test]
fn top_k_is_clamped() {
    for (asked, expected) in [(None, 5), (Some(0), 1), (Some(1), 1), (Some(10), 10), (Some(99), 20)] {
        let request = query(asked).request;
        assert_eq!(request.chunk_count(), expected);
    }
}

#[test]
fn errors_describe_themselves() {
    let cases = [
        (RagdError::Io("x".to_string()), "io error: x", 500),
        (RagdError::Config("x".to_string()), "invalid configuration: x", 400),
        (RagdError::Storage("x".to_string()), "storage error: x", 500),
        (RagdError::ModelEndpoint("x".to_string()), "model endpoint error: x", 500),
        (RagdError::ResourceNotFound("x".to_string()), "resource not found: x", 404),
        (RagdError::ResourceAlreadyExists("x".to_string()), "resource already exists: x", 409),
    ];
    for (error, message, status) in cases {
        assert_eq!(error.message(), message);
        assert_eq!(error.http_status(), status);
    }
}
