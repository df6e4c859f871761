use sempkg::rank::{score_key, Score};
use sempkg::reranker::{
    after_attempt, codegraph_json_to_candidates, default_model_dir, default_model_path,
    default_model_path_in, download_source, download_timeout, expand_tilde, expand_tilde_in,
    manual_placement_notice, model_dir_in, pull_step, rerank, unauthorized_notice, Attempt,
    NextStep, PullStep, RerankCandidate, RerankOrigin, RerankerConfig, DEFAULT_GGUF_URL,
    MAX_ATTEMPTS,
};

/// The notices use one deliberate layout: a 4-space indent to offset a URL or a path onto
/// its own line. Every other line is prose and must carry no indentation and no interior
/// run of spaces.
#[test]
fn user_facing_notices_are_not_mangled_by_source_indentation() {
    let dest = "/home/u/.sempkg/models/qwen3-reranker-0.6b-q8_0.gguf";

    for notice in [
        unauthorized_notice(DEFAULT_GGUF_URL, dest),
        manual_placement_notice(DEFAULT_GGUF_URL, dest),
    ] {
        for line in notice.lines() {
            // A deliberately offset value: exactly four spaces, then the value.
            let body = match line.strip_prefix("    ") {
                Some(value) if !value.starts_with(' ') => value,
                Some(_) => panic!("over-indented line: {line:?}\n\nin:\n{notice}"),
                None => {
                    assert!(
                        !line.starts_with(' '),
                        "prose line carries leaked source indentation: {line:?}\n\nin:\n{notice}"
                    );
                    line
                }
            };

            assert!(
                !body.contains("  "),
                "line has a run of spaces mid-sentence: {line:?}\n\nin:\n{notice}"
            );
        }
    }
}

/// A 401 must not tell the user to go find a token. It should point at the two things that
/// actually work.
#[test]
fn unauthorized_notice_offers_no_token() {
    let dest = "/models/m.gguf";
    let notice = unauthorized_notice(DEFAULT_GGUF_URL, dest).to_lowercase();

    assert!(
        !notice.contains("token"),
        "401 notice must not offer a token"
    );
    assert!(!notice.contains("hf_token"));
    assert!(notice.contains("anonymously"));
    assert!(notice.contains("--gguf-url"));
    assert!(notice.contains("/models/m.gguf"));
}

/// A URL no request may ever reach.
const UNREACHABLE_URL: &str = "http://127.0.0.1:1/never-fetched.gguf";

#[test]
fn pull_model_skips_download_when_model_is_present() {
    let model_path = "/models/qwen3-reranker-0.6b-q8_0.gguf";
    let config = RerankerConfig {
        model: Some(model_path.to_string()),
        ..Default::default()
    };
    let dest = config.model_path_in(&None);
    match pull_step(
        Some(UNREACHABLE_URL),
        &config.model_url,
        DEFAULT_GGUF_URL,
        &dest,
        true,
    ) {
        PullStep::AlreadyPresent(p) => assert_eq!(p, model_path),
        PullStep::Download(..) => panic!("pull must no-op, not download"),
    }
}

#[test]
fn failed_pull_says_where_to_put_the_model_by_hand() {
    let model_path = "/models/qwen3-reranker-0.6b-q8_0.gguf";
    let step = pull_step(
        Some(UNREACHABLE_URL),
        &None,
        DEFAULT_GGUF_URL,
        model_path,
        false,
    );
    let (url, dest) = match step {
        PullStep::Download(url, dest) => (url, dest),
        PullStep::AlreadyPresent(_) => panic!("an unreachable URL must fail the pull"),
    };
    let outcome = Attempt::Broken("connection refused".to_string());
    match after_attempt(MAX_ATTEMPTS, &outcome, &url, &dest) {
        NextStep::Fail(e) => assert_eq!(e, "connection refused"),
        _ => panic!("an unreachable URL must fail the pull"),
    }
    let rendered = manual_placement_notice(&url, &dest);

    assert!(
        rendered.contains(UNREACHABLE_URL),
        "failure must name the model URL to fetch:\n{rendered}"
    );
    assert!(
        rendered.contains(model_path),
        "failure must name the exact placement path:\n{rendered}"
    );
    assert!(
        rendered.contains("next run"),
        "failure must say the file is picked up on the next run:\n{rendered}"
    );
}

#[test]
fn a_model_comes_from_what_was_asked_for_first() {
    let configured = Some("https://c.example/m.gguf".to_string());
    assert_eq!(download_source(Some("https://a.example/m"), &configured, "b"), "https://a.example/m");
    assert_eq!(download_source(None, &configured, "b"), "https://c.example/m.gguf");
    assert_eq!(download_source(None, &None, "b"), "b");
}

#[test]
fn a_broken_attempt_is_repeated_with_a_growing_pause() {
    let broken = Attempt::Broken("reset".to_string());
    assert!(matches!(after_attempt(1, &broken, "u", "d"), NextStep::RetryAfter(2)));
    assert!(matches!(after_attempt(2, &broken, "u", "d"), NextStep::RetryAfter(4)));
    assert!(matches!(after_attempt(3, &broken, "u", "d"), NextStep::Fail(_)));
}

#[test]
fn a_refused_download_is_told() {
    let refused = Attempt::Refused(401, "unauthorized".to_string());
    match after_attempt(1, &refused, "u", "d") {
        NextStep::Fail(e) => assert_eq!(e, unauthorized_notice("u", "d")),
        _ => panic!("a credential cannot be sent"),
    }
    let gone = Attempt::Refused(500, "server error".to_string());
    assert!(matches!(after_attempt(1, &gone, "u", "d"), NextStep::RetryAfter(2)));
    match after_attempt(3, &gone, "u", "d") {
        NextStep::Fail(e) => assert_eq!(e, "HTTP error for u: server error"),
        _ => panic!("the last attempt fails"),
    }
}

#[test]
fn a_body_that_was_cut_short_is_not_kept() {
    match after_attempt(1, &Attempt::Body(7, Some(9)), "u", "d") {
        NextStep::Fail(e) => {
            assert_eq!(e, "truncated download for u: expected 9 bytes, got 7");
        }
        _ => panic!("a short body is not a model"),
    }
    assert!(matches!(after_attempt(1, &Attempt::Body(9, Some(9)), "u", "d"), NextStep::Keep));
    assert!(matches!(after_attempt(1, &Attempt::Body(9, None), "u", "d"), NextStep::Keep));
}

#[test]
fn the_time_limit_of_a_download_can_be_set() {
    assert_eq!(download_timeout(None), 1800);
    assert_eq!(download_timeout(Some("60")), 60);
    assert_eq!(download_timeout(Some("0")), 1800);
    assert_eq!(download_timeout(Some("soon")), 1800);
}

#[test]
fn models_stand_below_the_home_directory() {
    let home = Some("/home/u".to_string());
    assert_eq!(expand_tilde_in("~/m.gguf", &home), "/home/u/m.gguf");
    assert_eq!(expand_tilde_in("/m.gguf", &home), "/m.gguf");
    assert_eq!(model_dir_in(&home), "/home/u/.sempkg/models");
    assert_eq!(
        RerankerConfig::default().model_path_in(&home),
        default_model_path_in(&home)
    );
    assert!(default_model_path_in(&home).starts_with("/home/u/.sempkg/models/"));
}

#[test]
fn the_home_directory_of_the_user_is_used() {
    let home = dirs::home_dir().map(|p| p.to_string_lossy().into_owned());
    assert_eq!(default_model_dir(), model_dir_in(&home));
    assert_eq!(default_model_path(), default_model_path_in(&home));
    assert_eq!(expand_tilde("~/x"), expand_tilde_in("~/x", &home));
}

fn score(s: f32) -> Score {
    Score {
        key: score_key(s.to_bits()),
        short: format!("{s:.2}"),
        long: format!("{s:.3}"),
    }
}

fn candidate(source: &str) -> RerankCandidate {
    RerankCandidate {
        source: source.to_string(),
        text: format!("text of {source}"),
        origin: RerankOrigin::Docs,
    }
}

#[test]
fn the_best_candidates_come_first() {
    let candidates = vec![candidate("a"), candidate("b"), candidate("c"), candidate("d")];
    let scores = vec![score(0.2), score(0.9), score(0.2)];
    let ranked = rerank(&candidates, &scores, 3, 2);
    let sources: Vec<&str> = ranked.iter().map(|r| r.source.as_str()).collect();
    assert_eq!(sources, vec!["b", "a"]);
    assert_eq!(ranked[0].score.long, "0.900");
}

#[test]
fn scores_order_as_numbers_do() {
    let values = [-1.0_f32, -0.5, 0.0, 0.1, 0.5, 1.0];
    for pair in values.windows(2) {
        assert!(score_key(pair[0].to_bits()) < score_key(pair[1].to_bits()));
    }
    assert_eq!(score_key(0.0_f32.to_bits()), score_key((-0.0_f32).to_bits()));
}

#[test]
fn symbols_become_candidates() {
    let answer = r#"[{"node":{"name":"f","qualifiedName":"m.f","kind":"function","signature":"()","filePath":"m.py"}}]"#;
    let found = codegraph_json_to_candidates(answer);
    assert_eq!(found.len(), 1);
    assert_eq!(found[0].source, "m.f");
    assert!(found[0].origin == RerankOrigin::Codegraph);
    assert!(codegraph_json_to_candidates("oops").is_empty());
}
