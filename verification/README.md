# sssd-oidc

NSS and PAM modules that resolve Linux users and groups through SCIM 2.0 and sign
users in through the OIDC device authorization grant (RFC 8628), with a local SQLite
cache for lookups by UID and GID and for when the identity provider cannot be reached.

The library in `src/` holds the logic and is verified with Verus. It sends nothing and
opens no file but the cache database: it says what to request, takes the replies as
plain values, and says what to answer.

| Module    | What it does                                                          |
|-----------|-----------------------------------------------------------------------|
| `mapping` | hashes external identifiers into UID and GID ranges, probing linearly |
| `store`   | the SQL statements of the cache and the tables they work on            |
| `cache`   | what is stored, for how long, and who holds which UID and GID          |
| `scim`    | SCIM requests, replies and pagination                                 |
| `oidc`    | discovery, the device flow and the validation of ID tokens            |
| `json`, `jwt` | the values that are read from JSON and from tokens                |
| `service` | lookups, group membership, account status and enumeration             |
| `buffer`, `nss` | packing answers for glibc, and the answers themselves           |
| `pam`     | what the PAM module concludes and tells the user                      |
| `config`, `logging`, `model`, `text` | what the others share                    |

What the contracts say of the entries of the cache they say of a cache that nothing else
writes (`Cache::exclusive`). A cache in memory is; of a database file the caller has to
know it, since another process may write a file between any two statements.

`app/` is the ordinary Rust around the library: the C interfaces of the modules, HTTP,
files, syslog, and a mock identity provider. `tests/` runs the library together with
SQLite and the token and encoding crates that it calls.
