use aicg::llm::{
    first_model, running_model, status_url, Answer, LlmConfig, ModelError, DEFAULT_BASE_URL,
    MAX_TURNS, PREAMBLE,
};
use serde_json::Value;

const URL: &str = "http://h/api/ps";

fn ask(body: &str) -> Result<String, ModelError> {
    running_model(URL, Answer::Body(body.as_bytes().to_vec()))
}

#[test]
fn status_is_a_sibling_of_the_api_root() {
    for base in ["http://h", "http://h/", "http://h/v1", "http://h/v1/", "http://h//v1", "http://h///v1/"] {
        assert_eq!(status_url(base), URL, "{base}");
    }
    assert_eq!(status_url("http://h/v1//"), "http://h/v1/api/ps");
    assert_eq!(status_url("http://h/v1/v1"), "http://h/v1/api/ps");
    assert_eq!(status_url("/v1"), "/api/ps");
    assert_eq!(status_url(DEFAULT_BASE_URL), "http://127.0.0.1:8001/api/ps");
}

#[test]
fn settings_are_layered() {
    let p = LlmConfig::resolve(Some("a".into()), Some("b".into()), Some("k".into()));
    assert_eq!((p.base_url.as_str(), p.api_key.as_str()), ("a", "k"));
    let p = LlmConfig::resolve(None, Some("b".into()), None);
    assert_eq!((p.base_url.as_str(), p.api_key.as_str()), ("b", "local"));
    let p = LlmConfig::resolve(None, None, None);
    assert_eq!(p.base_url, "http://127.0.0.1:8001/v1");
    assert_eq!(p.url(), "http://127.0.0.1:8001/api/ps");
    let body = br#"{"models":[{"name":"llama"}]}"#.to_vec();
    let c = p.complete(Answer::Body(body)).unwrap();
    assert_eq!(c.base_url, "http://127.0.0.1:8001/v1");
    assert_eq!(c.model, "llama");
    assert_eq!(c.api_key, "local");
}

#[test]
fn first_loaded_model_is_used() {
    assert_eq!(ask(r#"{"models":[{"name":"a"},{"name":"b"}]}"#).unwrap(), "a");
    assert_eq!(ask(r#" {"x":1,"models":[{"size":2,"name":"é"}]} "#).unwrap(), "é");
    assert_eq!(ask(r#"{"models":[{"name":""}]}"#).unwrap(), "");
}

#[test]
fn no_model_is_an_error() {
    for body in [
        "{}", "[]", "null", "3", r#"{"models":[]}"#, r#"{"models":{}}"#, r#"{"models":[{}]}"#,
        r#"{"models":[{"name":7}]}"#, r#"{"models":{"0":{"name":"x"}}}"#, r#"{"models":["x"]}"#,
        r#"{"models":[null,{"name":"x"}]}"#,
    ] {
        let e = ask(body).unwrap_err();
        assert!(matches!(e, ModelError::NotLoaded { .. }), "{body}");
        assert_eq!(
            e.message(),
            "no model is currently loaded in FastFlowLM (per http://h/api/ps)"
        );
    }
}

#[test]
fn malformed_answer_is_unexpected() {
    let expected = serde_json::from_str::<Value>("{").unwrap_err().to_string();
    match ask("{").unwrap_err() {
        ModelError::Unexpected { url, cause } => {
            assert_eq!(url, URL);
            assert_eq!(cause, expected);
        }
        e => panic!("got {e:?}"),
    }
    let e = running_model(URL, Answer::Broken("cut".into())).unwrap_err();
    assert!(matches!(&e, ModelError::Unexpected { cause, .. } if cause == "cut"));
    assert_eq!(e.message(), "unexpected response from http://h/api/ps");
}

#[test]
fn unreachable_server_is_an_error() {
    let p = LlmConfig::resolve(Some("http://h/v1".into()), None, None);
    let e = p.complete(Answer::Failed("refused".into())).unwrap_err();
    assert!(matches!(&e, ModelError::Unreachable { cause, .. } if cause == "refused"));
    assert_eq!(e.message(), "could not reach FastFlowLM at http://h/api/ps — is it running?");
}

#[test]
fn model_is_taken_from_a_parsed_value() {
    let mut model = serde_json::Map::new();
    model.insert("name".to_string(), Value::String("phi".to_string()));
    let mut root = serde_json::Map::new();
    root.insert("models".to_string(), Value::Array(vec![Value::Object(model)]));
    assert_eq!(first_model(&Value::Object(root)).as_deref(), Some("phi"));
    assert_eq!(first_model(&Value::Null), None);
}

#[test]
fn constants() {
    assert_eq!(MAX_TURNS, 5);
    assert!(PREAMBLE.starts_with("You are an assistant embedded in a Unix shell. Be concise. You can"));
}
