//! Configuration: its values and defaults, and the rules for the files that
//! hold secrets.
use crate::mapping::valid_range;
use crate::text::{
    decimal, decimal_text, join3, octal_mode, octal_mode_text, trim_space, without_leading_space,
    without_trailing_space,
};
use vstd::prelude::*;

verus! {

/// Default config file path.
pub const DEFAULT_CONFIG_PATH: &'static str = "/etc/sssd-oidc/config.toml";

/// Default bearer token file path.
pub const DEFAULT_BEARER_TOKEN_PATH: &'static str = "/etc/sssd-oidc/scim-token";

/// Environment variable to override the config file path.
pub const CONFIG_ENV_VAR: &'static str = "SSSD_OIDC_CONFIG";

/// The configuration file to load, where the environment variable holds `env`: what it
/// holds, or the default path where it is not set.
pub fn config_path(env: Option<&str>) -> (path: String)
    ensures
        path@ == match env {
            Some(value) => value@,
            None => "/etc/sssd-oidc/config.toml"@,
        },
{
    match env {
        Some(value) => value.to_owned(),
        None => DEFAULT_CONFIG_PATH.to_owned(),
    }
}

/// Why a configuration could not be loaded.
#[derive(Debug)]
pub enum ConfigError {
    /// A file could not be read; `source` is the system's message.
    Read { path: String, source: String },
    /// The file is not the TOML that a configuration is written in.
    Parse(String),
    /// A file that holds a secret is open to others.
    InsecurePermissions { path: String, detail: String },
}

impl ConfigError {
    /// The text of the message.
    pub open spec fn text(self) -> Seq<char> {
        match self {
            ConfigError::Read { path, source } => "failed to read config file "@ + path@ + ": "@
                + source@,
            ConfigError::Parse(reason) => "failed to parse config: "@ + reason@,
            ConfigError::InsecurePermissions { path, detail } => "insecure permissions on "@ + path@
                + ": "@ + detail@,
        }
    }

    /// The message for the log.
    pub fn message(&self) -> (message: String)
        ensures
            message@ == self.text(),
    {
        match self {
            ConfigError::Read { path, source } => {
                let mut m = join3("failed to read config file ", path, ": ");
                m.append(source);
                m
            },
            ConfigError::Parse(reason) => {
                let mut m = "failed to parse config: ".to_owned();
                m.append(reason);
                m
            },
            ConfigError::InsecurePermissions { path, detail } => {
                let mut m = join3("insecure permissions on ", path, ": ");
                m.append(detail);
                m
            },
        }
    }
}

/// What a configuration file says.
#[derive(Debug, Clone)]
pub struct Config {
    pub scim: ScimConfig,
    pub oidc: OidcConfig,
    pub mapping: MappingConfig,
    pub user_defaults: UserDefaultsConfig,
    pub cache: CacheConfig,
    pub security: SecurityConfig,
}

/// The `[scim]` section.
#[derive(Debug, Clone)]
pub struct ScimConfig {
    /// Base URL for the SCIM 2.0 endpoint (e.g. `https://example.okta.com/scim/v2`).
    pub base_url: String,
    /// Path to file containing the SCIM bearer token (default: `/etc/sssd-oidc/scim-token`).
    /// The file must be owned by root and have mode 0600 or 0400.
    pub bearer_token_file: String,
    /// Read from `bearer_token_file` at load time.
    pub bearer_token: String,
}

/// The bearer token file where none is configured.
pub fn default_bearer_token_file() -> (path: String)
    ensures
        path@ == "/etc/sssd-oidc/scim-token"@,
{
    DEFAULT_BEARER_TOKEN_PATH.to_owned()
}

/// The `[oidc]` section.
#[derive(Debug, Clone)]
pub struct OidcConfig {
    /// OIDC issuer URL (used for discovery via `.well-known/openid-configuration`).
    pub issuer_url: String,
    /// OAuth2 client ID.
    pub client_id: String,
    /// OAuth2 client secret (optional, depends on IdP config).
    pub client_secret: Option<String>,
    /// Accept endpoints without TLS (for local development only).
    pub allow_insecure: bool,
}

/// The `[mapping]` section: the ranges that UIDs and GIDs are taken from.
#[derive(Debug, Clone, Copy)]
pub struct MappingConfig {
    pub uid_range_min: u32,
    pub uid_range_size: u32,
    pub gid_range_min: u32,
    pub gid_range_size: u32,
}

impl MappingConfig {
    /// Whether both ranges are non-empty ranges of 32-bit identifiers.
    pub open spec fn valid(self) -> bool {
        &&& valid_range(self.uid_range_min, self.uid_range_size)
        &&& valid_range(self.gid_range_min, self.gid_range_size)
    }

    /// Tests whether both ranges are non-empty ranges of 32-bit identifiers.
    pub fn is_valid(&self) -> (valid: bool)
        ensures
            valid == self.valid(),
            valid <==> self.uid_range_size > 0 && self.gid_range_size > 0 && self.uid_range_min
                + self.uid_range_size <= 0x1_0000_0000 && self.gid_range_min + self.gid_range_size
                <= 0x1_0000_0000,
    {
        self.uid_range_size > 0 && self.gid_range_size > 0 && self.uid_range_min as u64
            + self.uid_range_size as u64 <= 0x1_0000_0000 && self.gid_range_min as u64
            + self.gid_range_size as u64 <= 0x1_0000_0000
    }
}

impl Default for MappingConfig {
    fn default() -> (config: Self)
        ensures
            config.uid_range_min == 200_000,
            config.uid_range_size == 200_000,
            config.gid_range_min == 200_000,
            config.gid_range_size == 200_000,
            config.valid(),
    {
        MappingConfig {
            uid_range_min: default_range_min(),
            uid_range_size: default_range_size(),
            gid_range_min: default_range_min(),
            gid_range_size: default_range_size(),
        }
    }
}

/// The start of a range where none is configured.
pub fn default_range_min() -> (min: u32)
    ensures
        min == 200_000,
{
    200_000
}

/// The size of a range where none is configured.
pub fn default_range_size() -> (size: u32)
    ensures
        size == 200_000,
{
    200_000
}

/// The `[user_defaults]` section.
#[derive(Debug, Clone)]
pub struct UserDefaultsConfig {
    pub shell: String,
    pub home_template: String,
}

impl Default for UserDefaultsConfig {
    fn default() -> (config: Self)
        ensures
            config.shell@ == "/bin/bash"@,
            config.home_template@ == "/home/{user}"@,
    {
        UserDefaultsConfig { shell: default_shell(), home_template: default_home_template() }
    }
}

/// The login shell where none is configured.
pub fn default_shell() -> (shell: String)
    ensures
        shell@ == "/bin/bash"@,
{
    "/bin/bash".to_owned()
}

/// The home directory template where none is configured.
pub fn default_home_template() -> (template: String)
    ensures
        template@ == "/home/{user}"@,
{
    "/home/{user}".to_owned()
}

/// The `[cache]` section.
#[derive(Debug, Clone)]
pub struct CacheConfig {
    /// Path to the SQLite cache database.
    pub db_path: String,
    /// Cache entry TTL in seconds (default: 3600 = 1 hour).
    pub ttl_seconds: u64,
}

impl Default for CacheConfig {
    fn default() -> (config: Self)
        ensures
            config.db_path@ == "/var/lib/sssd-oidc/cache.db"@,
            config.ttl_seconds == 3600,
    {
        CacheConfig { db_path: default_cache_path(), ttl_seconds: default_cache_ttl() }
    }
}

/// The time to live of cache entries where none is configured.
pub fn default_cache_ttl() -> (ttl_seconds: u64)
    ensures
        ttl_seconds == 3600,
{
    3600
}

/// The cache database where none is configured.
pub fn default_cache_path() -> (path: String)
    ensures
        path@ == "/var/lib/sssd-oidc/cache.db"@,
{
    "/var/lib/sssd-oidc/cache.db".to_owned()
}

/// Who may log in while SCIM cannot be reached.
#[derive(Debug, Clone, Copy, PartialEq, Eq, Structural)]
pub enum OfflineAuthPolicy {
    /// Users that the cache knows as active.
    CachedStatus,
    /// Nobody.
    Deny,
}

impl Default for OfflineAuthPolicy {
    fn default() -> (policy: Self)
        ensures
            policy == OfflineAuthPolicy::CachedStatus,
    {
        OfflineAuthPolicy::CachedStatus
    }
}

/// The `[security]` section.
#[derive(Debug, Clone, Copy)]
pub struct SecurityConfig {
    pub offline_auth_policy: OfflineAuthPolicy,
}

impl Default for SecurityConfig {
    fn default() -> (config: Self)
        ensures
            config.offline_auth_policy == OfflineAuthPolicy::CachedStatus,
    {
        SecurityConfig { offline_auth_policy: OfflineAuthPolicy::default() }
    }
}

impl Config {
    /// Completes a parsed configuration with the contents of the bearer token
    /// file: the token is what stands there between leading and trailing white
    /// space, and nothing else changes.
    pub fn with_bearer_token(self, contents: &str) -> (config: Config)
        ensures
            config.scim.bearer_token@ == without_trailing_space(without_leading_space(contents@)),
            config.scim.base_url == self.scim.base_url,
            config.scim.bearer_token_file == self.scim.bearer_token_file,
            config.oidc == self.oidc,
            config.mapping == self.mapping,
            config.user_defaults == self.user_defaults,
            config.cache == self.cache,
            config.security == self.security,
    {
        Config {
            scim: ScimConfig {
                base_url: self.scim.base_url,
                bearer_token_file: self.scim.bearer_token_file,
                bearer_token: trim_space(contents),
            },
            oidc: self.oidc,
            mapping: self.mapping,
            user_defaults: self.user_defaults,
            cache: self.cache,
            security: self.security,
        }
    }
}

/// What the system tells of a file, the last component of its path not followed
/// where it is a symbolic link.
#[derive(Debug, Clone, Copy)]
pub struct FileMeta {
    /// Whether it is a regular file.
    pub regular: bool,
    /// Its mode bits.
    pub mode: u32,
    /// The UID of its owner.
    pub uid: u32,
}

/// How a message names an owner that is not root.
pub open spec fn not_root_text(uid: u32) -> Seq<char> {
    "owned by uid "@ + decimal(uid as nat) + " but must be owned by root (uid 0)"@
}

/// Says that the owner is not root.
pub(crate) fn not_root_detail(uid: u32) -> (detail: String)
    ensures
        detail@ == not_root_text(uid),
{
    let owner = decimal_text(uid as u64);
    join3("owned by uid ", owner.as_str(), " but must be owned by root (uid 0)")
}

/// How a message names permissions that are too open.
pub open spec fn too_open_text(path: Seq<char>, mode: u32) -> Seq<char> {
    "permissions "@ + octal_mode(mode & 0o777)
        + " are too open; must not be accessible by group or others. Run: chmod 600 "@ + path
}

/// Verify that a secrets file has restrictive permissions.
///
/// Refuses to proceed if the file is not a regular file, or if group/other
/// bits are set (i.e. anything more permissive than `0600`). Where
/// `root_required` holds, as it does on Linux, also requires root ownership.
///
/// `stat` is what the system told of the file, or its message where it could
/// not tell.
pub fn check_secret_file_permissions(
    path: &str,
    stat: Result<FileMeta, String>,
    root_required: bool,
) -> (res: Result<(), ConfigError>)
    ensures
        match stat {
            Err(source) => res matches Err(ConfigError::Read { path: p, source: s }) && p@ == path@
                && s@ == source@,
            Ok(meta) => if !meta.regular {
                res matches Err(ConfigError::InsecurePermissions { path: p, detail }) && p@ == path@
                    && detail@ == "not a regular file"@
            } else if meta.mode & 0o077 != 0 {
                res matches Err(ConfigError::InsecurePermissions { path: p, detail }) && p@ == path@
                    && detail@ == too_open_text(path@, meta.mode)
            } else if root_required && meta.uid != 0 {
                res matches Err(ConfigError::InsecurePermissions { path: p, detail }) && p@ == path@
                    && detail@ == not_root_text(meta.uid)
            } else {
                res is Ok
            },
        },
{
    let meta: FileMeta = match stat {
        Err(source) => {
            return Err(ConfigError::Read { path: path.to_owned(), source });
        },
        Ok(meta) => meta,
    };
    if !meta.regular {
        return Err(
            ConfigError::InsecurePermissions {
                path: path.to_owned(),
                detail: "not a regular file".to_owned(),
            },
        );
    }
    if meta.mode & 0o077 != 0 {
        let mode = octal_mode_text(meta.mode & 0o777);
        let mut detail = join3(
            "permissions ",
            mode.as_str(),
            " are too open; must not be accessible by group or others. Run: chmod 600 ",
        );
        detail.append(path);
        return Err(ConfigError::InsecurePermissions { path: path.to_owned(), detail });
    }
    if root_required && meta.uid != 0 {
        return Err(
            ConfigError::InsecurePermissions {
                path: path.to_owned(),
                detail: not_root_detail(meta.uid),
            },
        );
    }
    Ok(())
}

/// A configuration is valid exactly where both ranges hold an identifier and none beyond
/// 32 bits.
pub proof fn lemma_valid_mapping(mapping: MappingConfig)
    ensures
        mapping.valid() <==> {
            &&& mapping.uid_range_size > 0
            &&& mapping.uid_range_min + mapping.uid_range_size - 1 <= u32::MAX
            &&& mapping.gid_range_size > 0
            &&& mapping.gid_range_min + mapping.gid_range_size - 1 <= u32::MAX
        },
{
}

/// How errors in the configuration are worded.
pub proof fn lemma_config_wording(e: ConfigError, path: Seq<char>, mode: u32, uid: u32)
    ensures
        e matches ConfigError::Read { path: p, source } ==> e.text() == "failed to read config file "@
            + p@ + ": "@ + source@,
        e matches ConfigError::Parse(reason) ==> e.text() == "failed to parse config: "@ + reason@,
        e matches ConfigError::InsecurePermissions { path: p, detail } ==> e.text()
            == "insecure permissions on "@ + p@ + ": "@ + detail@,
        not_root_text(uid) == "owned by uid "@ + decimal(uid as nat)
            + " but must be owned by root (uid 0)"@,
        too_open_text(path, mode) == "permissions "@ + octal_mode(mode & 0o777)
            + " are too open; must not be accessible by group or others. Run: chmod 600 "@ + path,
        CONFIG_ENV_VAR@ == "SSSD_OIDC_CONFIG"@,
{
}

} // verus!
