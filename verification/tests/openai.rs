use sempkg::embedding::{
    check_pull, embedder_matches, pulled_model, EmbeddingConfig, EmbeddingModel, Pooling,
};
use sempkg::json::{read_json, Json};
use sempkg::openai::{
    chat_score, chat_url, embeddings_request, embeddings_url, expand_request, judge_request,
    read_answer, read_verdict, remote_model_id, reply_text, resolve_api_key, Answer, Scoring,
};
use sempkg::providers::{
    build_embedder, build_expander, build_reranker, default_api_key_env, default_timeout_secs,
    Backend, OpenAiProviderConfig, ProviderKind,
};
use sempkg::query_expansion::QueryExpansionConfig;
use sempkg::reranker::RerankerConfig;

fn provider(dim: Option<usize>) -> OpenAiProviderConfig {
    OpenAiProviderConfig {
        api_base: "https://api.example/v1/".to_string(),
        model: "m".to_string(),
        api_key_env: default_api_key_env(),
        dim,
        timeout_secs: default_timeout_secs(),
    }
}

#[test]
fn addresses_and_keys() {
    let p = provider(None);
    assert_eq!(embeddings_url(&p), "https://api.example/v1/embeddings");
    assert_eq!(chat_url(&p), "https://api.example/v1/chat/completions");
    assert_eq!(remote_model_id(&p), "openai:m");
    assert_eq!(resolve_api_key(&p, Some("k")).unwrap(), "k");
    assert!(resolve_api_key(&p, None).unwrap_err().contains("`OPENAI_API_KEY`"));
    assert_eq!(p.timeout_secs, 120);
}

#[test]
fn requests_say_what_is_wanted() {
    let r = embeddings_request("m", &vec!["a".to_string(), "b".to_string()]);
    assert_eq!(r.text_member("model"), Some("m"));
    assert!(matches!(r.get("input"), Some(Json::List(v)) if v.len() == 2));
    let r = judge_request("m", "q", "d");
    assert_eq!(r.get("max_tokens").unwrap().as_u64(), Some(5));
    let user = match r.get("messages").unwrap() {
        Json::List(v) => v[1].word("content"),
        _ => panic!("messages"),
    };
    assert_eq!(
        user,
        "Query: q\n\nDocument:\nd\n\nDoes this document answer the query? (yes/no)"
    );
    let r = expand_request("m", "q", 4);
    assert_eq!(r.get("max_tokens").unwrap().as_u64(), Some(256));
    let system = match r.get("messages").unwrap() {
        Json::List(v) => v[0].word("content"),
        _ => panic!("messages"),
    };
    assert!(system.ends_with("Produce at most 4 lines total."), "{system}");
}

fn verdict(message: &str, logprobs: Option<&str>) -> Scoring {
    let l = logprobs.map(|t| read_json(t).unwrap());
    chat_score(read_verdict(&read_json(message).unwrap(), l.as_ref()))
}

#[test]
fn likelihoods_count_before_words() {
    let both = r#"{"content":[{"top_logprobs":[{"token":" Yes","logprob":-0.5},{"token":"no","logprob":-1.5}]}]}"#;
    match verdict(r#"{"content":"no"}"#, Some(both)) {
        Scoring::Against(y, n, a) => {
            assert_eq!((y.as_str(), n.as_str()), ("-0.5", "-1.5"));
            assert!(matches!(a, Answer::No));
        }
        _ => panic!("both likelihoods"),
    }
    let yes = r#"{"content":[{"top_logprobs":[{"token":"yes","logprob":-0.5}]}]}"#;
    assert!(matches!(verdict("{}", Some(yes)), Scoring::Alone(y) if y == "-0.5"));
    let no = r#"{"content":[{"top_logprobs":[{"token":"no","logprob":-0.5}]}]}"#;
    assert!(matches!(
        verdict(r#"{"content":" YES."}"#, Some(no)),
        Scoring::InWords(Answer::Yes)
    ));
    assert!(matches!(
        verdict(r#"{"content":"0.7"}"#, None),
        Scoring::InWords(Answer::Other(t)) if t == "0.7"
    ));
    assert!(matches!(read_answer(" No way"), Answer::No));
    assert_eq!(reply_text(&read_json(r#"{"content":"x"}"#).unwrap()), "x");
    assert_eq!(reply_text(&Json::Null), "");
}

#[test]
fn backends_follow_the_configuration() {
    let mut e = EmbeddingConfig::default();
    assert!(matches!(build_embedder(&e), Backend::Local));
    e.provider = ProviderKind::OpenAi;
    assert!(matches!(build_embedder(&e), Backend::Off));
    e.openai = Some(provider(None));
    assert!(matches!(build_embedder(&e), Backend::Off));
    e.openai = Some(provider(Some(3)));
    assert!(matches!(build_embedder(&e), Backend::Remote));
    e.enabled = false;
    assert!(matches!(build_embedder(&e), Backend::Off));

    let mut r = RerankerConfig::default();
    r.provider = ProviderKind::Copilot;
    assert!(matches!(build_reranker(&r), Backend::Off));
    r.openai = Some(provider(None));
    assert!(matches!(build_reranker(&r), Backend::Remote));
    let mut q = QueryExpansionConfig::default();
    q.openai = Some(provider(None));
    assert!(matches!(build_expander(&q), Backend::Local));
}

#[test]
fn models_are_known_by_their_ids() {
    for m in [EmbeddingModel::Gemma300M, EmbeddingModel::Qwen3Embedding0_6B] {
        assert!(EmbeddingModel::from_id(m.id()) == Some(m));
    }
    assert!(EmbeddingModel::from_id("nope").is_none());
    assert_eq!(EmbeddingModel::Gemma300M.dim(), 768);
    assert_eq!(EmbeddingModel::Qwen3Embedding0_6B.dim(), 1024);
    assert!(matches!(EmbeddingModel::Qwen3Embedding0_6B.pooling_type(), Pooling::Last));
    let mut cfg = EmbeddingConfig::default();
    cfg.model_id = "nope".to_string();
    assert!(cfg.model().unwrap_err().contains("nope"));
    let home = Some("/home/u".to_string());
    let (m, dest) =
        pulled_model(Some("qwen3-embedding-0.6b"), &cfg, &home).unwrap();
    assert!(m == EmbeddingModel::Qwen3Embedding0_6B);
    assert!(dest.starts_with("/home/u/.sempkg/models/"));
    assert!(pulled_model(None, &cfg, &home).is_err());
    assert!(embedder_matches("m", 3, "m", 3));
    assert!(!embedder_matches("m", 3, "m", 4));
    assert!(check_pull(ProviderKind::Local, "sempkg embedding pull").is_ok());
    assert_eq!(
        check_pull(ProviderKind::OpenAi, "sempkg embedding pull").unwrap_err(),
        "`sempkg embedding pull` only applies to `provider = \"local\"`. \
         Remote providers (openai, copilot) do not require model downloads."
    );
}
