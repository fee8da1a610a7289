use fywaf::config::{AppConfig, ProfileConfig, SiteConfig, UpstreamConfig};
use fywaf::ordered::TextMap;

fn site(id: &str, listen: &str) -> SiteConfig {
    SiteConfig {
        id: id.to_string(),
        listen: listen.to_string(),
        upstream: UpstreamConfig { url: "http://127.0.0.1:9000".to_string() },
        profile: "public".to_string(),
    }
}

fn profile(id: &str) -> ProfileConfig {
    ProfileConfig {
        id: id.to_string(),
        wasm_path: "wasm/public.wasm".to_string(),
        params: TextMap::new(),
    }
}

fn valid_config() -> AppConfig {
    AppConfig {
        sites: vec![SiteConfig {
            id: "site-a".to_string(),
            listen: "127.0.0.1:8080".to_string(),
            upstream: UpstreamConfig { url: "http://127.0.0.1:9000".to_string() },
            profile: "public".to_string(),
        }],
        profiles: vec![ProfileConfig {
            id: "public".to_string(),
            wasm_path: "wasm/public.wasm".to_string(),
            params: TextMap::new(),
        }],
    }
}

fn message(cfg: &AppConfig) -> String {
    cfg.validate().unwrap_err().message()
}

#[test]
fn validate_ok() {
    let cfg = valid_config();
    assert!(cfg.validate().is_ok());
}

#[test]
fn validate_fails_missing_profile_reference() {
    let mut cfg = valid_config();
    cfg.sites[0].profile = "missing".to_string();
    assert!(cfg.validate().is_err());
}

#[test]
fn validate_fails_duplicate_listen() {
    let mut cfg = valid_config();
    cfg.sites.push(SiteConfig {
        id: "site-b".to_string(),
        listen: "127.0.0.1:8080".to_string(),
        upstream: UpstreamConfig { url: "http://127.0.0.1:9001".to_string() },
        profile: "public".to_string(),
    });
    assert!(cfg.validate().is_err());
}

#[test]
fn validate_fails_empty_wasm_path() {
    let mut cfg = valid_config();
    cfg.profiles[0].wasm_path = "  ".to_string();
    assert!(cfg.validate().is_err());
}

#[test]
fn every_error_says_what_is_wrong() {
    let mut cfg = valid_config();
    cfg.sites[0].profile = "missing".to_string();
    assert_eq!(message(&cfg), "site site-a references missing profile missing");
    cfg.sites[0].upstream.url = "https://x".to_string();
    assert_eq!(message(&cfg), "site site-a upstream.url must start with http:// for MVP");
    cfg.sites[0].upstream.url = " ".to_string();
    assert_eq!(message(&cfg), "site site-a upstream.url must not be empty");
    cfg.sites[0].listen = "".to_string();
    assert_eq!(message(&cfg), "site site-a listen must not be empty");
    cfg.sites[0].id = "\t".to_string();
    assert_eq!(message(&cfg), "site.id must not be empty");
    cfg.profiles[0].wasm_path = "".to_string();
    assert_eq!(message(&cfg), "profile public wasm_path must not be empty");
    cfg.profiles[0].id = "".to_string();
    assert_eq!(message(&cfg), "profile.id must not be empty");
    cfg.profiles.clear();
    assert_eq!(message(&cfg), "profiles must not be empty");
    cfg.sites.clear();
    assert_eq!(message(&cfg), "sites must not be empty");
}

#[test]
fn duplicates_are_found() {
    let twice = AppConfig {
        sites: vec![site("a", "x:1"), site("a", "x:2")],
        profiles: vec![profile("public")],
    };
    assert_eq!(message(&twice), "duplicate site.id found: a");
    let same_listen = AppConfig {
        sites: vec![site("a", "x:1"), site("b", "x:2"), site("c", "x:1")],
        profiles: vec![profile("public")],
    };
    assert_eq!(message(&same_listen), "duplicate site.listen found: x:1");
    let profiles = AppConfig {
        sites: vec![site("a", "x:1")],
        profiles: vec![profile("public"), profile("other"), profile("public")],
    };
    assert_eq!(message(&profiles), "duplicate profile.id found: public");
}

#[test]
fn several_sites_may_share_a_profile() {
    let cfg = AppConfig {
        sites: vec![site("a", "x:1"), site("b", "x:2")],
        profiles: vec![profile("other"), profile("public")],
    };
    assert!(cfg.validate().is_ok());
}
