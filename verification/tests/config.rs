use rust_llm_gateway::config::{
    default_connect_timeout, default_request_timeout, default_stream_idle, AppConfig, AuthConfig,
    CacheConfig, CircuitBreakerConfig, ClientCredential, ProviderConfig, RateLimitConfig,
    ServerConfig,
};
use rust_llm_gateway::float_bits::F32Bits;

fn provider(name: &str, endpoint: &str, priority: u32) -> ProviderConfig {
    ProviderConfig {
        name: name.to_string(),
        endpoint: endpoint.to_string(),
        api_key: None,
        priority,
        connect_timeout_seconds: 5,
        request_timeout_seconds: 30,
        stream_idle_timeout_seconds: 120,
    }
}

fn config_with(providers: Vec<ProviderConfig>) -> AppConfig {
    AppConfig {
        server: ServerConfig {
            host: "0.0.0.0".to_string(),
            port: 8080,
            max_body_bytes: 4194304,
        },
        auth: AuthConfig {
            credentials: vec![ClientCredential {
                key: "k".to_string(),
                client_id: "c".to_string(),
                tier: "default".to_string(),
            }],
        },
        rate_limit: RateLimitConfig {
            default_rpm: 60,
            default_tpm: 90000,
        },
        cache: CacheConfig {
            exact_max_entries: 100,
            exact_ttl_seconds: 60,
            semantic_enabled: false,
            semantic_threshold: F32Bits::from_bits(0.96f32.to_bits()),
        },
        circuit_breaker: CircuitBreakerConfig {
            failure_threshold: 3,
            cooldown_seconds: 10,
            half_open_max_calls: 1,
        },
        providers,
    }
}

fn text(value: &toml::Value, key: &str) -> String {
    value.get(key).unwrap().as_str().unwrap().to_string()
}

fn number(value: &toml::Value, key: &str) -> i64 {
    value.get(key).unwrap().as_integer().unwrap()
}

fn from_toml(source: &str) -> AppConfig {
    let root: toml::Value = source.parse().unwrap();
    let server = root.get("server").unwrap();
    let limits = root.get("rate_limit").unwrap();
    let cache = root.get("cache").unwrap();
    let breaker = root.get("circuit_breaker").unwrap();
    let credentials = root.get("auth").unwrap().get("credentials").unwrap();
    AppConfig {
        server: ServerConfig {
            host: text(server, "host"),
            port: number(server, "port") as u16,
            max_body_bytes: number(server, "max_body_bytes") as usize,
        },
        auth: AuthConfig {
            credentials: credentials
                .as_array()
                .unwrap()
                .iter()
                .map(|c| ClientCredential {
                    key: text(c, "key"),
                    client_id: text(c, "client_id"),
                    tier: text(c, "tier"),
                })
                .collect(),
        },
        rate_limit: RateLimitConfig {
            default_rpm: number(limits, "default_rpm") as u32,
            default_tpm: number(limits, "default_tpm") as u32,
        },
        cache: CacheConfig {
            exact_max_entries: number(cache, "exact_max_entries") as u64,
            exact_ttl_seconds: number(cache, "exact_ttl_seconds") as u64,
            semantic_enabled: cache.get("semantic_enabled").unwrap().as_bool().unwrap(),
            semantic_threshold: F32Bits::from_bits(
                (cache.get("semantic_threshold").unwrap().as_float().unwrap() as f32).to_bits(),
            ),
        },
        circuit_breaker: CircuitBreakerConfig {
            failure_threshold: number(breaker, "failure_threshold") as u32,
            cooldown_seconds: number(breaker, "cooldown_seconds") as u64,
            half_open_max_calls: number(breaker, "half_open_max_calls") as u32,
        },
        providers: root
            .get("providers")
            .unwrap()
            .as_array()
            .unwrap()
            .iter()
            .map(|p| ProviderConfig {
                name: text(p, "name"),
                endpoint: text(p, "endpoint"),
                api_key: p.get("api_key").map(|k| k.as_str().unwrap().to_string()),
                priority: number(p, "priority") as u32,
                connect_timeout_seconds: number(p, "connect_timeout_seconds") as u64,
                request_timeout_seconds: number(p, "request_timeout_seconds") as u64,
                stream_idle_timeout_seconds: number(p, "stream_idle_timeout_seconds") as u64,
            })
            .collect(),
    }
}

#[test]
fn parses_default_toml() {
    let toml = r#"
[server]
host = "0.0.0.0"
port = 8080
max_body_bytes = 4194304

[auth]
credentials = [
    { key = "k1", client_id = "client1", tier = "default" },
    { key = "k2", client_id = "client2", tier = "premium" }
]

[rate_limit]
default_rpm = 60
default_tpm = 90000

[cache]
exact_max_entries = 50000
exact_ttl_seconds = 3600
semantic_enabled = false
semantic_threshold = 0.96

[circuit_breaker]
failure_threshold = 3
cooldown_seconds = 10
half_open_max_calls = 1

[[providers]]
name = "primary"
endpoint = "http://localhost:8000"
api_key = ""
priority = 1
connect_timeout_seconds = 5
request_timeout_seconds = 30
stream_idle_timeout_seconds = 120
"#;

    let parsed = from_toml(toml);
    assert_eq!(parsed.server.port, 8080);
    assert_eq!(parsed.providers.len(), 1);
    assert_eq!(parsed.auth.credentials.len(), 2);
    assert_eq!(parsed.auth.credentials[0].client_id, "client1");
    assert!(parsed.validate().is_ok());
}

#[test]
fn validates_empty_providers() {
    let config = config_with(vec![]); // empty!
    assert!(config.validate().is_err());
    assert_eq!(
        config.validate().unwrap_err(),
        "at least one provider must be configured"
    );
}

#[test]
fn validates_invalid_endpoint() {
    let config = config_with(vec![provider("bad", "ftp://not-http", 1)]); // invalid!
    let err = config.validate().unwrap_err();
    assert!(
        err.contains("http://"),
        "expected http scheme error, got: {}",
        err
    );
    assert_eq!(
        err,
        "providers[0].endpoint must start with http:// or https://, got: ftp://not-http"
    );
}

#[test]
fn validates_the_other_fields() {
    let good = provider("a", "https://api.example.com/openai", 1);
    assert!(config_with(vec![good.clone()]).validate().is_ok());

    let config = config_with(vec![good.clone(), provider("", "http://h", 1)]);
    assert_eq!(config.validate().unwrap_err(), "providers[1].name must not be empty");

    let config = config_with(vec![provider("a", "", 1)]);
    assert_eq!(config.validate().unwrap_err(), "providers[0].endpoint must not be empty");

    let mut slow = good.clone();
    slow.request_timeout_seconds = 0;
    let config = config_with(vec![slow]);
    assert_eq!(
        config.validate().unwrap_err(),
        "providers[0].request_timeout_seconds must be > 0"
    );

    let mut config = config_with(vec![good.clone()]);
    config.auth.credentials[0].key = String::new();
    assert_eq!(config.validate().unwrap_err(), "auth.credentials[0].key must not be empty");

    let mut config = config_with(vec![good.clone()]);
    config.auth.credentials[0].client_id = String::new();
    assert_eq!(
        config.validate().unwrap_err(),
        "auth.credentials[0].client_id must not be empty"
    );

    let mut config = config_with(vec![good.clone()]);
    config.auth.credentials.clear();
    assert!(config.validate().is_ok());

    let mut config = config_with(vec![good.clone()]);
    config.rate_limit.default_rpm = 0;
    config.rate_limit.default_tpm = 0;
    assert_eq!(config.validate().unwrap_err(), "rate_limit.default_rpm must be > 0");
    config.rate_limit.default_rpm = 1;
    assert_eq!(config.validate().unwrap_err(), "rate_limit.default_tpm must be > 0");
}

#[test]
fn validates_a_missing_host() {
    for endpoint in ["http://", "https://", "http:///v1", "https://:8000", "http://?q", "http://#f"] {
        let config = config_with(vec![provider("a", endpoint, 1)]);
        assert_eq!(
            config.validate().unwrap_err(),
            format!("providers[0].endpoint must name a host, got: {}", endpoint)
        );
    }
}

#[test]
fn the_index_of_a_faulty_provider_is_named() {
    let mut providers = Vec::new();
    for _ in 0..12 {
        providers.push(provider("a", "http://h", 1));
    }
    providers.push(provider("", "http://h", 1));
    assert_eq!(
        config_with(providers).validate().unwrap_err(),
        "providers[12].name must not be empty"
    );
}

#[test]
fn providers_are_sorted_by_priority_and_stable() {
    let config = config_with(vec![
        provider("c", "http://h", 2),
        provider("a", "http://h", 1),
        provider("d", "http://h", 2),
        provider("b", "http://h", 1),
        provider("z", "http://h", 0),
    ]);
    let names: Vec<String> = config.providers_sorted().into_iter().map(|p| p.name).collect();
    assert_eq!(names, ["z", "a", "b", "c", "d"]);
    assert_eq!(config.providers.len(), 5);
}

#[test]
fn defaults_of_a_provider() {
    assert_eq!(default_connect_timeout(), 5);
    assert_eq!(default_request_timeout(), 30);
    assert_eq!(default_stream_idle(), 120);
}
