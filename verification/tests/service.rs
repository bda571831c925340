use hackathon::cli::Cli;
use hackathon::config::RuntimeConfig;
use hackathon::error::{AppError, PathStatus};
use hackathon::tmt::client::TmtClient;
use hackathon::tmt::TmtError;
use hackathon::translate::service::{
    check_request_size, finish_translation, map_client_error, CacheKey, CacheStep, PendingSet,
    SentenceLedger, TranslationCache, TranslationService,
};

fn key(s: &str) -> CacheKey {
    CacheKey { sentence: s.to_string(), src_lang: "en".to_string(), tgt_lang: "ne".to_string() }
}

fn config(concurrency: usize) -> RuntimeConfig {
    let cli = Cli {
        input: "a.csv".to_string(),
        output: "b.csv".to_string(),
        src_lang: "en".to_string(),
        tgt_lang: "ne".to_string(),
        base_url: "https://example.com".to_string(),
        api_token: Some("tok".to_string()),
        concurrency: 1,
        rate_limit_ms: None,
        max_retries: 1,
        font_path: None,
        dpi: 96,
        jpeg_quality: 85,
        verbose: false,
    };
    let mut c = RuntimeConfig::from_cli(&cli, None, PathStatus::Missing).unwrap();
    c.concurrency = concurrency;
    c
}

#[test]
fn request_size_limit() {
    assert!(check_request_size(&"a".repeat(5000)).is_ok());
    assert!(matches!(
        check_request_size(&"a".repeat(5001)),
        Err(AppError::RequestTooLarge { len: 5001, max: 5000 })
    ));
    assert!(matches!(
        check_request_size(&"न".repeat(1667)),
        Err(AppError::RequestTooLarge { len: 5001, max: 5000 })
    ));
}

#[test]
fn client_errors_are_reported() {
    assert!(matches!(
        map_client_error(TmtError::Transport("down".to_string())),
        AppError::Network { message } if message == "down"
    ));
    assert!(matches!(
        map_client_error(TmtError::Http(404, "nf".to_string())),
        AppError::TranslationFailed { message } if message == "http error 404: nf"
    ));
}

#[test]
fn sentences_are_joined_by_spaces() {
    assert_eq!(finish_translation("  ", Vec::new()).unwrap(), "  ");
    let r = finish_translation("A. B.", vec![Ok("X.".to_string()), Ok("Y.".to_string())]);
    assert_eq!(r.unwrap(), "X. Y.");
    let failed = finish_translation(
        "A. B.",
        vec![
            Ok("X.".to_string()),
            Err(AppError::Network { message: "one".to_string() }),
            Err(AppError::Network { message: "two".to_string() }),
        ],
    );
    assert!(matches!(failed, Err(AppError::Network { message }) if message == "one"));
}

#[test]
fn cache_reads_back_what_was_stored() {
    let mut c = TranslationCache::new();
    assert_eq!(c.get(&key("Hello.")), None);
    c.insert(key("Hello."), "नमस्ते।".to_string());
    assert_eq!(c.get(&key("Hello.")), Some("नमस्ते।".to_string()));
    c.insert(key("Bye."), "बिदा।".to_string());
    c.insert(key("Hello."), "नमस्कार।".to_string());
    assert_eq!(c.get(&key("Hello.")), Some("नमस्कार।".to_string()));
    assert_eq!(c.get(&key("Bye.")), Some("बिदा।".to_string()));
    let other_pair = CacheKey {
        sentence: "Hello.".to_string(),
        src_lang: "ne".to_string(),
        tgt_lang: "en".to_string(),
    };
    assert_eq!(c.get(&other_pair), None);
}

#[test]
fn service_needs_concurrency() {
    let client = TmtClient::new("https://example.com", "tok");
    match TranslationService::new(client.clone(), &config(0)) {
        Err(AppError::InvalidArgument { message }) => {
            assert_eq!(message, "concurrency must be >= 1")
        }
        _ => panic!("zero concurrency accepted"),
    }
    let svc = TranslationService::new(client, &config(3)).ok().unwrap();
    assert_eq!(svc.concurrency, 3);
    assert_eq!(svc.client.base_url, "https://example.com");
    assert_eq!(svc.ledger.cache.get(&key("x")), None);
}

#[test]
fn pending_set_tracks_keys() {
    let mut p = PendingSet::new();
    assert!(!p.contains(&key("a")));
    p.insert(key("a"));
    p.insert(key("b"));
    assert!(p.contains(&key("a")));
    assert!(p.contains(&key("b")));
    p.remove(&key("a"));
    assert!(!p.contains(&key("a")));
    assert!(p.contains(&key("b")));
}

#[test]
fn ledger_fetches_each_sentence_once() {
    let mut l = SentenceLedger::new();
    assert!(matches!(l.begin(&key("s")), CacheStep::Fetch));
    assert!(matches!(l.begin(&key("s")), CacheStep::Wait));
    assert!(matches!(l.begin(&key("t")), CacheStep::Fetch));
    l.finish(key("s"), Some("S".to_string()));
    match l.begin(&key("s")) {
        CacheStep::Hit(v) => assert_eq!(v, "S"),
        _ => panic!("expected a cached translation"),
    }
    l.finish(key("t"), None);
    assert!(matches!(l.begin(&key("t")), CacheStep::Fetch));
}
