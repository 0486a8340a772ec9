use ragd::error::RagdError;
use ragd::openai_client::{Message, ModelRequest, OpenAiClient, Reply, RequestBody};

fn client(base: &str, embed_api_key: &str) -> OpenAiClient {
    OpenAiClient::new(base, embed_api_key, "test-embed", base, "", "test-llm")
}

fn bits(values: &[f32]) -> Vec<u32> {
    values.iter().map(|v| v.to_bits()).collect()
}

#[test]
fn embed_parses_openai_shaped_response() {
    let embedding = client("http://h", "")
        .embedding_from(Reply::Items(vec![bits(&[0.1, 0.2, 0.3])]))
        .expect("embed ok");
    assert_eq!(embedding, bits(&[0.1, 0.2, 0.3]));
}

#[test]
fn embed_takes_the_last_datum() {
    let embedding = client("http://h", "")
        .embedding_from(Reply::Items(vec![bits(&[1.0]), bits(&[2.0])]))
        .expect("embed ok");
    assert_eq!(embedding, bits(&[2.0]));
}

#[test]
fn embed_sends_bearer_auth_header_when_api_key_set() {
    let request = client("http://h/v1/", "secret-key").embed_request("hi");
    assert_eq!(
        request,
        ModelRequest {
            url: "http://h/v1/embeddings".to_string(),
            bearer: Some("secret-key".to_string()),
            body: RequestBody::Embed {
                model: "test-embed".to_string(),
                input: "hi".to_string(),
            },
        }
    );
}

#[test]
fn embed_omits_auth_header_when_api_key_empty() {
    assert_eq!(client("http://h", "").embed_request("hi").bearer, None);
}

#[test]
fn embed_propagates_http_error_status_as_model_endpoint_error() {
    let err = client("http://h", "")
        .embedding_from(Reply::Refused {
            status: "500 Internal Server Error".to_string(),
            text: "boom".to_string(),
        })
        .expect_err("should fail");
    assert_eq!(
        err.message(),
        "model endpoint error: http://h/embeddings returned 500 Internal Server Error: boom"
    );
    assert!(
        matches!(err, RagdError::ModelEndpoint(msg) if msg.contains("500") && msg.contains("boom"))
    );
}

#[test]
fn embed_errors_on_empty_data_array() {
    let err = client("http://h", "")
        .embedding_from(Reply::Items(Vec::new()))
        .expect_err("should fail");
    assert!(
        matches!(err, RagdError::ModelEndpoint(m) if m == "embed response contained no data")
    );
}

#[test]
fn chat_returns_completion_text() {
    let client = client("http://h//", "key");
    let request = client.chat_request("system prompt", "question");
    assert_eq!(request.url, "http://h/chat/completions");
    assert_eq!(request.bearer, None);
    assert_eq!(
        request.body,
        RequestBody::Chat {
            model: "test-llm".to_string(),
            messages: vec![
                Message { role: "system".to_string(), content: "system prompt".to_string() },
                Message { role: "user".to_string(), content: "question".to_string() },
            ],
        }
    );
    let text = client
        .answer_from(Reply::Items(vec!["hello world".to_string()]))
        .expect("chat ok");
    assert_eq!(text, "hello world");
}

#[test]
fn failed_chats_say_why() {
    let client = client("http://h", "");
    let cases = [
        (
            Reply::Unsent("no route".to_string()),
            "request to http://h/chat/completions failed: no route",
        ),
        (
            Reply::Invalid("not JSON".to_string()),
            "invalid response from http://h/chat/completions: not JSON",
        ),
        (Reply::Items(Vec::new()), "chat response contained no choices"),
    ];
    for (reply, message) in cases {
        let err = client.answer_from(reply).expect_err("should fail");
        assert_eq!(err.http_status(), 500);
        assert!(matches!(err, RagdError::ModelEndpoint(m) if m == message));
    }
}
