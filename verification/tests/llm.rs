use fire_ctrl::config::LlmConfig;
use fire_ctrl::json::{Json, JsonNumber};
use fire_ctrl::llm::{
    rank_by_relevance, ChatReply, ChatStep, Extraction, ExtractionRequest, ExtractionStep,
    LlmClient, LlmCompletion, LlmOutcome,
};

fn test_client() -> LlmClient {
    client_with(1, "http://localhost:11434/v1")
}

fn client_with(max_retries: u32, base_url: &str) -> LlmClient {
    let cfg = LlmConfig {
        base_url: base_url.to_string(),
        api_key: "test".to_string(),
        model_name: "llama3".to_string(),
        embedding_model: None,
        ollama_base_url: None,
        timeout_seconds: 10,
        max_retries,
        max_input_chars: 24_000,
    };
    LlmClient::new(&cfg).unwrap()
}

fn make_client() -> LlmClient {
    let cfg = LlmConfig {
        base_url: "http://127.0.0.1:11434/v1".to_string(),
        api_key: "test".to_string(),
        model_name: "test-model".to_string(),
        embedding_model: None,
        ollama_base_url: None,
        timeout_seconds: 5,
        max_retries: 1,
        max_input_chars: 1_000,
    };
    LlmClient::new(&cfg).expect("client construction must not fail")
}

fn text(s: &str) -> Json {
    Json::Text(s.to_string())
}

fn object(members: Vec<(&str, Json)>) -> Json {
    Json::Object(members.into_iter().map(|(k, v)| (k.to_string(), v)).collect())
}

fn request(content: &str, prompt: &str) -> ExtractionRequest {
    ExtractionRequest {
        content: content.to_string(),
        prompt: prompt.to_string(),
        schema: None,
        system_prompt: None,
    }
}

fn answer(text: &str) -> LlmOutcome {
    LlmOutcome::Answer(LlmCompletion {
        text: text.to_string(),
        tokens: Some(7),
        warning: Some("careful".to_string()),
    })
}

#[test]
fn extract_json_bare() {
    let c = test_client();
    let r = c.extract_json(r#"{"key":"value"}"#).unwrap();
    assert_eq!(r, r#"{"key":"value"}"#);
}

#[test]
fn extract_json_fenced() {
    let c = test_client();
    let r = c.extract_json("```json\n{\"key\":\"value\"}\n```").unwrap();
    assert_eq!(r, r#"{"key":"value"}"#);
}

#[test]
fn extract_json_embedded() {
    let c = test_client();
    let r = c
        .extract_json(r#"Here is the answer: {"key":"value"} done."#)
        .unwrap();
    assert_eq!(r, r#"{"key":"value"}"#);
}

#[test]
fn extract_json_handles_code_fence_json_marker() {
    let client = make_client();
    let raw = client
        .extract_json("```json\n{\"k\":1}\n```")
        .expect("must extract");
    let v: serde_json::Value = serde_json::from_str(&raw).unwrap();
    assert_eq!(v["k"], 1);
}

#[test]
fn extract_json_handles_bare_code_fence() {
    let client = make_client();
    let raw = client
        .extract_json("```\n{\"k\":2}\n```")
        .expect("must extract");
    let v: serde_json::Value = serde_json::from_str(&raw).unwrap();
    assert_eq!(v["k"], 2);
}

#[test]
fn extract_json_handles_prefix_prose() {
    let client = make_client();
    let raw = client
        .extract_json("Sure! Here is your JSON: {\"k\":3}")
        .expect("must extract");
    let v: serde_json::Value = serde_json::from_str(&raw).unwrap();
    assert_eq!(v["k"], 3);
}

#[test]
fn extract_json_returns_err_on_no_json_at_all() {
    let client = make_client();
    // No braces, no fences, no JSON shape.
    assert!(client.extract_json("hello world no json here").is_err());
}

#[test]
fn extract_json_recovers_every_wrapping() {
    let client = make_client();
    let raw = "{\"a\":null,\"b_1\":-12,\"c\":\"x y\"}";
    for prose in ["", "Here it is, enjoy!", "  two words  ", "1.5?"] {
        for input in [
            raw.to_string(),
            format!("{prose}\n{raw}"),
            format!("{prose}\n```json\n{raw}\n```\n"),
            format!("{prose}\n```\n{raw}\n```\n"),
        ] {
            assert_eq!(client.extract_json(&input).unwrap(), raw, "{input:?}");
        }
    }
}

#[test]
fn extract_json_survives_malformed_input() {
    let client = make_client();
    for input in ["{\"key\"  :", "prose {\"key\":", "} {", "]] [[ x", "```", "```json {", ""] {
        let _ = client.extract_json(input);
    }
    assert!(client.extract_json("prose } and { more").is_err());
    assert!(client.extract_json("prose ] and [ more").is_err());
    assert_eq!(client.extract_json("a }{ b").unwrap(), "");
    assert_eq!(client.extract_json("see [1, 2] there").unwrap(), "[1, 2]");
    assert_eq!(client.extract_json("```text\nno\n``` {\"a\":1}").unwrap(), "{\"a\":1}");
    assert_eq!(client.extract_json(" [1] ").unwrap(), "[1]");
}

#[test]
fn extraction_prompts() {
    let client = test_client();
    assert_eq!(client.max_input_chars(), 24_000);
    let mut req = request("the page", "  ");
    let run = client.extract(&req);
    assert!(run.system_prompt.starts_with("You are a data extraction assistant. Extract the requested"));
    assert_eq!(
        run.message().unwrap(),
        "Content:\nthe page\n\nExtraction Request:\nExtract data that matches the schema. If the \
         source is very long, return a representative subset that still matches the schema exactly."
    );
    req.schema = Some(object(vec![("type", text("object"))]));
    req.prompt = "names".to_string();
    let run = client.extract(&req);
    assert_eq!(
        run.system_prompt,
        "You are a data extraction assistant. Extract information from the provided content \
         according to this JSON schema:\n{\n  \"type\": \"object\"\n}\n\nReturn ONLY valid JSON \
         that matches the schema, with no markdown fences or prose."
    );
    assert_eq!(run.message().unwrap(), "Content:\nthe page\n\nExtraction Request:\nnames");
    req.system_prompt = Some("be brief".to_string());
    assert_eq!(client.extract(&req).system_prompt, "be brief");
}

#[test]
fn retries_send_less_and_pause_longer() {
    let client = client_with(3, "http://localhost:11434/v1");
    let long = "x".repeat(30_000);
    let mut run: Extraction = client.extract(&request(&long, "p"));
    assert_eq!(run.message().unwrap().chars().filter(|c| *c == 'x').count(), 30_001);
    match run.answered(LlmOutcome::TimedOut, 5) {
        ExtractionStep::Again { pause_seconds } => assert_eq!(pause_seconds, 1),
        other => panic!("{other:?}"),
    }
    assert_eq!(run.last_error, "LLM request timed out");
    assert_eq!(run.message().unwrap().chars().filter(|c| *c == 'x').count(), 12_001);
    match run.answered(LlmOutcome::Failed("boom".to_string()), 5) {
        ExtractionStep::Again { pause_seconds } => assert_eq!(pause_seconds, 2),
        other => panic!("{other:?}"),
    }
    assert_eq!(run.message().unwrap().chars().filter(|c| *c == 'x').count(), 8_001);
    match run.answered(LlmOutcome::Failed("boom".to_string()), 5) {
        ExtractionStep::Finished(Err(e)) => assert_eq!(e, "LLM request failed: boom"),
        other => panic!("{other:?}"),
    }
    assert_eq!(run.message(), None);
}

#[test]
fn no_attempt_is_made_without_retries() {
    let run = client_with(0, "http://localhost:11434/v1").extract(&request("c", "p"));
    assert_eq!(run.message(), None);
    assert_eq!(run.last_error, "LLM extraction failed");
}

#[test]
fn answers_end_the_extraction() {
    let client = client_with(2, "http://localhost:11434/v1");
    let mut run = client.extract(&request("c", "p"));
    match run.answered(answer("Sure: {\"a\": [1, -2, 0.5, true, null, \"t\"]}"), 12) {
        ExtractionStep::Finished(Ok(x)) => {
            assert_eq!(x.data.to_text(), "{\"a\":[1,-2,0.5,true,null,\"t\"]}");
            assert_eq!(x.metadata.model, "llama3");
            assert_eq!(x.metadata.tokens_used, Some(7));
            assert_eq!(x.metadata.processing_time_ms, 12);
            assert_eq!(x.warning.as_deref(), Some("careful"));
        }
        other => panic!("{other:?}"),
    }
    let mut run = client.extract(&request("c", "p"));
    match run.answered(answer("nothing to see"), 1) {
        ExtractionStep::Finished(Err(e)) => {
            assert_eq!(e, "Could not extract JSON from LLM response")
        }
        other => panic!("{other:?}"),
    }
    let mut run = client.extract(&request("c", "p"));
    match run.answered(answer("{broken"), 1) {
        ExtractionStep::Finished(Err(e)) => assert_eq!(e, "Failed to parse LLM response as JSON"),
        other => panic!("{other:?}"),
    }
}

#[test]
fn health_check_asks_for_a_status() {
    let req = test_client().health_check();
    assert_eq!(req.content, "ping");
    assert_eq!(req.prompt, r#"Return {"status":"ok"}"#);
}

#[test]
fn chat_request_shape() {
    let req = client_with(1, "http://localhost:11434/v1//").chat_complete("sys", "usr");
    assert_eq!(req.url, "http://localhost:11434/v1/chat/completions");
    assert_eq!(req.authorization.as_deref(), Some("Bearer test"));
    assert_eq!(
        req.first_body.to_text(),
        "{\"model\":\"llama3\",\"temperature\":0.1,\"reasoning_effort\":\"none\",\"messages\":[\
         {\"role\":\"system\",\"content\":\"sys\"},{\"role\":\"user\",\"content\":\"usr\"}]}"
    );
    assert_eq!(
        req.second_body.unwrap().to_text(),
        "{\"model\":\"llama3\",\"temperature\":0.1,\"messages\":[\
         {\"role\":\"system\",\"content\":\"sys\"},{\"role\":\"user\",\"content\":\"usr\"}]}"
    );
    let groq = client_with(1, "https://api.groq.com/openai/v1").chat_complete("sys", "usr");
    assert!(groq.second_body.is_none());
    assert!(!groq.first_body.to_text().contains("reasoning_effort"));
}

fn reply(content: Json, tokens: u64) -> Json {
    object(vec![
        (
            "choices",
            Json::Array(vec![object(vec![("message", object(vec![("content", content)]))])]),
        ),
        (
            "usage",
            object(vec![("total_tokens", Json::Number(JsonNumber::Unsigned(tokens)))]),
        ),
    ])
}

#[test]
fn chat_replies_are_read() {
    let req = test_client().chat_complete("s", "u");
    match req.after_first(ChatReply::Body(reply(text("hi"), 0x1_0000_0003))) {
        ChatStep::Finished(Ok(c)) => {
            assert_eq!(c.text, "hi");
            assert_eq!(c.tokens, Some(3));
            assert_eq!(c.warning, None);
        }
        other => panic!("{other:?}"),
    }
    match req.after_first(ChatReply::Body(reply(Json::Null, 1))) {
        ChatStep::Finished(Err(e)) => assert_eq!(e, "LLM returned empty response"),
        other => panic!("{other:?}"),
    }
    match req.after_first(ChatReply::Unreadable("bad body".to_string())) {
        ChatStep::Finished(Err(e)) => assert_eq!(e, "bad body"),
        other => panic!("{other:?}"),
    }
    assert!(matches!(
        req.after_first(ChatReply::Rejected("400".to_string())),
        ChatStep::SendSecond
    ));
    let second = req.after_second(ChatReply::Body(reply(text("ok"), 2))).unwrap();
    assert_eq!(
        second.warning.as_deref(),
        Some("Provider rejected optional reasoning tuning parameter; request retried without it.")
    );
    assert_eq!(req.after_second(ChatReply::Rejected("500".to_string())).unwrap_err(), "500");
    let groq = client_with(1, "https://api.groq.com/openai/v1").chat_complete("s", "u");
    match groq.after_first(ChatReply::Rejected("429".to_string())) {
        ChatStep::Finished(Err(e)) => assert_eq!(e, "429"),
        other => panic!("{other:?}"),
    }
}

fn strings(v: &[&str]) -> Vec<String> {
    v.iter().map(|s| s.to_string()).collect()
}

#[test]
fn ranking_is_stable_and_by_matches() {
    let items = strings(&["none", "Rust book", "async rust tutorial", "other", "ASYNC page"]);
    let ranked = rank_by_relevance(items.clone(), "Rust  ASYNC");
    assert_eq!(
        ranked,
        strings(&["async rust tutorial", "Rust book", "ASYNC page", "none", "other"])
    );
    let mut a = items.clone();
    let mut b = ranked;
    a.sort();
    b.sort();
    assert_eq!(a, b);
    assert_eq!(rank_by_relevance(items.clone(), ""), items);
}
