use sssd_oidc::config::{
    check_secret_file_permissions, config_path, default_bearer_token_file, default_cache_path,
    default_cache_ttl, default_home_template, default_range_min, default_range_size,
    default_shell, CacheConfig, Config, ConfigError, FileMeta, MappingConfig, OfflineAuthPolicy,
    OidcConfig, ScimConfig, SecurityConfig, UserDefaultsConfig,
};

fn parsed() -> Config {
    Config {
        scim: ScimConfig {
            base_url: "https://example.okta.com/scim/v2".into(),
            bearer_token_file: default_bearer_token_file(),
            bearer_token: String::new(),
        },
        oidc: OidcConfig {
            issuer_url: "https://example.okta.com".into(),
            client_id: "my-client".into(),
            client_secret: None,
            allow_insecure: false,
        },
        mapping: MappingConfig::default(),
        user_defaults: UserDefaultsConfig::default(),
        cache: CacheConfig::default(),
        security: SecurityConfig::default(),
    }
}

#[test]
fn parse_minimal_config() {
    let config = parsed().with_bearer_token("test-token");
    assert_eq!(config.scim.base_url, "https://example.okta.com/scim/v2");
    assert_eq!(config.scim.bearer_token, "test-token");
    assert_eq!(config.mapping.uid_range_min, 200_000);
    assert_eq!(config.user_defaults.shell, "/bin/bash");
}

#[test]
fn token_file_whitespace_trimmed() {
    let config = parsed().with_bearer_token("  my-token\n");
    assert_eq!(config.scim.bearer_token, "my-token");
}

#[test]
fn white_space_is_trimmed_at_the_ends_only() {
    assert_eq!(parsed().with_bearer_token("\u{a0}a b\u{2003}\t").scim.bearer_token, "a b");
    assert_eq!(parsed().with_bearer_token(" \n ").scim.bearer_token, "");
    assert_eq!(parsed().with_bearer_token("").scim.bearer_token, "");
}

#[test]
fn rejects_world_readable_token_file() {
    let meta = FileMeta { regular: true, mode: 0o100644, uid: 0 };
    let err = check_secret_file_permissions("/etc/token", Ok(meta), true).unwrap_err();
    let msg = err.message();
    assert!(msg.contains("too open"), "expected 'too open' in: {msg}");
    assert!(msg.contains("0644"), "expected '0644' in: {msg}");
    assert_eq!(
        msg,
        "insecure permissions on /etc/token: permissions 0644 are too open; must not be \
         accessible by group or others. Run: chmod 600 /etc/token"
    );
}

#[test]
fn secret_file_rules() {
    let file = |mode, uid| FileMeta { regular: true, mode, uid };
    assert!(check_secret_file_permissions("t", Ok(file(0o100600, 0)), true).is_ok());
    assert!(check_secret_file_permissions("t", Ok(file(0o100400, 0)), true).is_ok());
    assert!(check_secret_file_permissions("t", Ok(file(0o100601, 0)), true).is_err());
    assert!(check_secret_file_permissions("t", Ok(file(0o100610, 0)), true).is_err());
    let owned = check_secret_file_permissions("t", Ok(file(0o100600, 1000)), true).unwrap_err();
    assert_eq!(
        owned.message(),
        "insecure permissions on t: owned by uid 1000 but must be owned by root (uid 0)"
    );
    assert!(check_secret_file_permissions("t", Ok(file(0o100600, 1000)), false).is_ok());
    let link = FileMeta { regular: false, mode: 0o120600, uid: 0 };
    assert_eq!(
        check_secret_file_permissions("t", Ok(link), true).unwrap_err().message(),
        "insecure permissions on t: not a regular file"
    );
    let gone = check_secret_file_permissions("t", Err("gone".into()), true).unwrap_err();
    assert!(matches!(gone, ConfigError::Read { .. }));
    assert_eq!(gone.message(), "failed to read config file t: gone");
    assert_eq!(
        ConfigError::Parse("expected `=`".into()).message(),
        "failed to parse config: expected `=`"
    );
}

#[test]
fn defaults() {
    assert_eq!(default_bearer_token_file(), "/etc/sssd-oidc/scim-token");
    assert_eq!((default_range_min(), default_range_size()), (200_000, 200_000));
    assert_eq!(default_shell(), "/bin/bash");
    assert_eq!(default_home_template(), "/home/{user}");
    assert_eq!(default_cache_ttl(), 3600);
    assert_eq!(default_cache_path(), "/var/lib/sssd-oidc/cache.db");
    assert_eq!(CacheConfig::default().ttl_seconds, 3600);
    assert_eq!(CacheConfig::default().db_path, "/var/lib/sssd-oidc/cache.db");
    assert_eq!(UserDefaultsConfig::default().home_template, "/home/{user}");
    assert_eq!(SecurityConfig::default().offline_auth_policy, OfflineAuthPolicy::CachedStatus);
    assert!(MappingConfig::default().is_valid());
}

#[test]
fn ranges_have_to_fit_into_32_bits() {
    let mut mapping = MappingConfig::default();
    mapping.uid_range_size = 0;
    assert!(!mapping.is_valid());
    mapping.uid_range_min = u32::MAX;
    mapping.uid_range_size = 1;
    assert!(mapping.is_valid());
    mapping.uid_range_size = 2;
    assert!(!mapping.is_valid());
}

#[test]
fn the_environment_decides_on_the_path() {
    assert_eq!(config_path(Some("/tmp/c.toml")), "/tmp/c.toml");
    assert_eq!(config_path(Some("")), "");
    assert_eq!(config_path(None), "/etc/sssd-oidc/config.toml");
}

#[test]
fn white_space_around_a_token_is_dropped() {
    let spaces = "\t\n\u{b}\u{c}\r \u{85}\u{a0}\u{1680}\u{2000}\u{2001}\u{2002}\u{2003}\u{2004}\
                  \u{2005}\u{2006}\u{2007}\u{2008}\u{2009}\u{200a}\u{2028}\u{2029}\u{202f}\u{205f}\
                  \u{3000}";
    assert_eq!(spaces.chars().count(), 25);
    let padded = format!("{spaces}a{spaces}b{spaces}");
    let kept = format!("a{spaces}b");
    assert_eq!(parsed().with_bearer_token(&padded).scim.bearer_token, kept);
    // No other character is white space.
    assert_eq!(('\0'..=char::MAX).filter(|c| c.is_whitespace()).collect::<String>(), spaces);
}
