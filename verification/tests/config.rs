use fire_ctrl::config::{
    env_opt, env_required_bool, env_required_str, env_required_u16, env_required_u32,
    env_required_u64, env_required_usize, Config, Env, LlmConfig, ResourceConfig, ServerConfig,
};

const GOOD: [(&str, &str); 33] = [
    ("HOST", "0.0.0.0"),
    ("PORT", "3002"),
    ("CORS_ALLOW_ORIGINS", " https://a.example , ,https://b.example"),
    ("POSTGRES_HOST", "db"),
    ("POSTGRES_PORT", "5432"),
    ("POSTGRES_DB", "fire"),
    ("POSTGRES_USER", "fire"),
    ("POSTGRES_PASSWORD", ""),
    ("DATABASE_MAX_CONNECTIONS", "16"),
    ("REDIS_URL", "redis://a"),
    ("REDIS_RATE_LIMIT_URL", "redis://b"),
    ("OPENAI_BASE_URL", "https://api.openai.com/v1"),
    ("OPENAI_API_KEY", "k"),
    ("MODEL_NAME", "m"),
    ("LLM_TIMEOUT_SECONDS", "60"),
    ("LLM_MAX_RETRIES", "3"),
    ("LLM_MAX_INPUT_CHARS", "24000"),
    ("CRAWLER_MAX_DEPTH", "5"),
    ("CRAWLER_MAX_PAGES", "100"),
    ("CRAWL_CONCURRENT_REQUESTS", "4"),
    ("CRAWLER_REQUEST_TIMEOUT_SECONDS", "30"),
    ("CRAWLER_USER_AGENT", "bot"),
    ("CRAWLER_RESPECT_ROBOTS_TXT", "yes"),
    ("PLAYWRIGHT_MICROSERVICE_URL", ""),
    ("BROWSER_POOL_SIZE", "2"),
    ("NUM_WORKERS_PER_QUEUE", "2"),
    ("MAX_CONCURRENT_JOBS", "8"),
    ("WORKER_JOB_TIMEOUT_SECONDS", "300"),
    ("WORKER_MAX_STALLS", "3"),
    ("USE_DB_AUTHENTICATION", "0"),
    ("BULL_AUTH_KEY", "bull"),
    ("ALLOW_LOCAL_WEBHOOKS", "false"),
    ("SEARXNG_ENDPOINT", "http://searx"),
];

fn env(change: &[(&str, Option<&str>)]) -> Env {
    let mut vars: Vec<(String, String)> = Vec::new();
    for (k, v) in GOOD {
        match change.iter().find(|(name, _)| *name == k) {
            Some((_, None)) => {}
            Some((_, Some(other))) => vars.push((k.to_string(), other.to_string())),
            None => vars.push((k.to_string(), v.to_string())),
        }
    }
    for (k, v) in change {
        if !GOOD.iter().any(|(name, _)| name == k) {
            if let Some(v) = v {
                vars.push((k.to_string(), v.to_string()));
            }
        }
    }
    Env { vars }
}

fn limits() -> Result<ResourceConfig, String> {
    Ok(ResourceConfig { max_cpu: 900, max_ram: 850 })
}

fn error(change: &[(&str, Option<&str>)]) -> String {
    Config::from_env(&env(change), limits()).unwrap_err()
}

#[test]
fn complete_environment_is_read() {
    let cfg = Config::from_env(&env(&[]), limits()).unwrap();
    assert_eq!(cfg.server.addr(), "0.0.0.0:3002");
    assert_eq!(cfg.server.cors_allow_origins, ["https://a.example", "https://b.example"]);
    assert_eq!(cfg.database.port, 5432);
    assert_eq!(cfg.database.password, "");
    assert_eq!(cfg.database.max_connections, 16);
    assert_eq!(cfg.redis.rate_limit_url, "redis://b");
    assert_eq!(cfg.llm.base_url, "https://api.openai.com/v1");
    assert!(cfg.llm.is_configured());
    assert!(cfg.crawler.respect_robots_txt);
    assert_eq!(cfg.crawler.playwright_url, None);
    assert_eq!(cfg.worker.job_timeout_seconds, 300);
    assert!(!cfg.auth.use_db_authentication);
    assert_eq!(cfg.auth.test_api_key, None);
    assert_eq!(cfg.proxy.server, None);
    assert_eq!(cfg.search.searxng_endpoint.as_deref(), Some("http://searx"));
    assert_eq!(cfg.resource.max_ram, 850);
}

#[test]
fn every_required_variable_is_required() {
    for (key, _) in GOOD {
        let optional = [
            "CORS_ALLOW_ORIGINS",
            "OPENAI_API_KEY",
            "PLAYWRIGHT_MICROSERVICE_URL",
            "SEARXNG_ENDPOINT",
        ];
        if !optional.contains(&key) {
            assert_eq!(error(&[(key, None)]), format!("Missing required env var: {key}"));
        }
    }
}

#[test]
fn first_bad_variable_is_reported() {
    assert_eq!(
        error(&[("WORKER_MAX_STALLS", None), ("PORT", Some("70000"))]),
        "Invalid u16 value for env var PORT: 70000"
    );
    assert_eq!(
        error(&[("DATABASE_MAX_CONNECTIONS", Some("many"))]),
        "Invalid usize value for env var DATABASE_MAX_CONNECTIONS: many"
    );
    assert_eq!(
        error(&[("LLM_TIMEOUT_SECONDS", Some("-1"))]),
        "Invalid u64 value for env var LLM_TIMEOUT_SECONDS: -1"
    );
    assert_eq!(
        error(&[("CRAWLER_MAX_DEPTH", Some("4294967296"))]),
        "Invalid u32 value for env var CRAWLER_MAX_DEPTH: 4294967296"
    );
    assert_eq!(
        error(&[("ALLOW_LOCAL_WEBHOOKS", Some("maybe"))]),
        "Invalid bool value for env var ALLOW_LOCAL_WEBHOOKS: maybe (expected true/false, 1/0, yes/no)"
    );
    assert_eq!(
        error(&[("LLM_MAX_INPUT_CHARS", Some("0"))]),
        "LLM_MAX_INPUT_CHARS must be > 0"
    );
    let bad = Config::from_env(&env(&[]), Err("Missing required env var: MAX_CPU".to_string()));
    assert_eq!(bad.unwrap_err(), "Missing required env var: MAX_CPU");
}

#[test]
fn ollama_goes_before_openai() {
    let e = env(&[
        ("OLLAMA_BASE_URL", Some("http://ollama")),
        ("OPENAI_BASE_URL", None),
        ("OPENAI_API_KEY", None),
    ]);
    let llm = LlmConfig::from_env(&e).unwrap();
    assert_eq!(llm.base_url, "http://ollama");
    assert!(llm.is_configured());
    let e = env(&[("OPENAI_API_KEY", Some(""))]);
    assert!(!LlmConfig::from_env(&e).unwrap().is_configured());
}

#[test]
fn single_variables() {
    let e = Env {
        vars: vec![
            ("N".to_string(), "+42".to_string()),
            ("E".to_string(), String::new()),
            ("B".to_string(), "no".to_string()),
            ("N".to_string(), "7".to_string()),
        ],
    };
    assert_eq!(env_required_str(&e, "N").unwrap(), "+42");
    assert_eq!(env_required_u16(&e, "N"), Ok(42));
    assert_eq!(env_required_u32(&e, "N"), Ok(42));
    assert_eq!(env_required_u64(&e, "N"), Ok(42));
    assert_eq!(env_required_usize(&e, "N"), Ok(42));
    assert_eq!(env_required_bool(&e, "B"), Ok(false));
    assert_eq!(env_opt(&e, "E"), None);
    assert_eq!(env_required_str(&e, "E").unwrap(), "");
    assert!(env_required_u16(&e, "E").is_err());
    let server = ServerConfig {
        host: "::1".to_string(),
        port: 0,
        cors_allow_origins: vec![],
    };
    assert_eq!(server.addr(), "::1:0");
}
