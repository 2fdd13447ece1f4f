use vstd::prelude::*;
use vstd::string::*;

use crate::extensions::{split_char, split_exec};
use crate::project::contains_seq;
use crate::registry::find_seq_exec;
use crate::text::{chars_of, has_at, owned, push_str, seq_eq, starts_with, string_of_range};

verus! {

/// The application configuration read from `app.toml`.
#[derive(Debug, Clone)]
pub struct AppConfig {
    pub database: DatabaseConfig,
    pub server: ServerConfig,
    pub auth: AuthConfig,
}

/// Where the HTTP server listens and under which prefix the API is served.
#[derive(Debug, Clone)]
pub struct ServerConfig {
    pub host: String,
    pub port: u16,
    pub api_prefix: String,
}

/// Authentication settings.
#[derive(Debug, Clone)]
pub struct AuthConfig {
    pub session: SessionConfig,
}

/// Cookie session settings; durations are in seconds.
#[derive(Debug, Clone)]
pub struct SessionConfig {
    pub cookie_name: String,
    pub csrf_cookie_name: String,
    pub ttl_seconds: i64,
    pub renewal_window_seconds: i64,
    pub absolute_ttl_seconds: i64,
    pub secure: bool,
    pub same_site: String,
}

/// The database URL and connection pool size.
#[derive(Debug, Clone)]
pub struct DatabaseConfig {
    pub url: String,
    pub max_connections: u32,
}

impl Default for ServerConfig {
    fn default() -> (c: ServerConfig)
        ensures
            c.host@ == "127.0.0.1"@,
            c.port == 3000,
            c.api_prefix@ == "/api"@,
    {
        ServerConfig {
            host: String::from_str("127.0.0.1"),
            port: 3000,
            api_prefix: String::from_str("/api"),
        }
    }
}

impl Default for SessionConfig {
    fn default() -> (c: SessionConfig)
        ensures
            c.cookie_name@ == "che_rest_session"@,
            c.csrf_cookie_name@ == "csrf_token"@,
            c.ttl_seconds == 604_800,
            c.renewal_window_seconds == 86_400,
            c.absolute_ttl_seconds == 2_592_000,
            !c.secure,
            c.same_site@ == "Lax"@,
    {
        SessionConfig {
            cookie_name: String::from_str("che_rest_session"),
            csrf_cookie_name: String::from_str("csrf_token"),
            ttl_seconds: 604_800,
            renewal_window_seconds: 86_400,
            absolute_ttl_seconds: 2_592_000,
            secure: false,
            same_site: String::from_str("Lax"),
        }
    }
}

impl Default for AuthConfig {
    fn default() -> (c: AuthConfig)
        ensures
            c.session.cookie_name@ == "che_rest_session"@,
            c.session.csrf_cookie_name@ == "csrf_token"@,
            c.session.ttl_seconds == 604_800,
            c.session.renewal_window_seconds == 86_400,
            c.session.absolute_ttl_seconds == 2_592_000,
            !c.session.secure,
            c.session.same_site@ == "Lax"@,
    {
        AuthConfig { session: SessionConfig::default() }
    }
}

impl Default for DatabaseConfig {
    fn default() -> (c: DatabaseConfig)
        ensures
            c.url@ == "sqlite://db.sqlite?mode=rwc"@,
            c.max_connections == 10,
    {
        DatabaseConfig {
            url: String::from_str("sqlite://db.sqlite?mode=rwc"),
            max_connections: 10,
        }
    }
}

impl Default for AppConfig {
    fn default() -> (c: AppConfig)
        ensures
            c.database.url@ == "sqlite://db.sqlite?mode=rwc"@,
            c.database.max_connections == 10,
            c.server.host@ == "127.0.0.1"@,
            c.server.port == 3000,
            c.server.api_prefix@ == "/api"@,
            c.auth.session.cookie_name@ == "che_rest_session"@,
            c.auth.session.csrf_cookie_name@ == "csrf_token"@,
            c.auth.session.ttl_seconds == 604_800,
            c.auth.session.renewal_window_seconds == 86_400,
            c.auth.session.absolute_ttl_seconds == 2_592_000,
            !c.auth.session.secure,
            c.auth.session.same_site@ == "Lax"@,
    {
        AppConfig {
            database: DatabaseConfig::default(),
            server: ServerConfig::default(),
            auth: AuthConfig::default(),
        }
    }
}

pub open spec fn sqlite_scheme() -> Seq<char> {
    seq!['s', 'q', 'l', 'i', 't', 'e', ':', '/', '/']
}

/// The position of the first `?` in `s`, or its length.
pub open spec fn query_start(s: Seq<char>, from: int) -> int
    decreases s.len() - from,
{
    if from < 0 || from >= s.len() {
        s.len() as int
    } else if s[from] == '?' {
        from
    } else {
        query_start(s, from + 1)
    }
}

/// The file path of a `sqlite://` URL: the text after the scheme up to the
/// first `?`, when that is not empty; otherwise the URL itself.
pub open spec fn sqlite_file(url: Seq<char>) -> Seq<char> {
    if starts_with(url, sqlite_scheme()) {
        let rest = url.skip(9);
        let path = rest.take(query_start(rest, 0));
        if path.len() > 0 { path } else { url }
    } else {
        url
    }
}

/// The SQLite file path named by a database URL.
pub fn sqlite_path(url: &str) -> (r: String)
    ensures r@ == sqlite_file(url@),
{
    let s = chars_of(url);
    let scheme = vec!['s', 'q', 'l', 'i', 't', 'e', ':', '/', '/'];
    proof { assert(scheme@ == sqlite_scheme()); assert(s@.subrange(0, s@.len() as int) =~= s@); }
    if !has_at(&s, 0, &scheme) {
        return string_of_range(&s, 0, s.len());
    }
    let ghost rest = s@.skip(9);
    let mut i: usize = 9;
    while i < s.len() && s[i] != '?'
        invariant
            9 <= i <= s.len(),
            rest == s@.skip(9),
            query_start(rest, 0) == query_start(rest, i - 9),
        decreases s.len() - i,
    {
        assert(rest[i - 9] == s@[i as int]);
        i += 1;
    }
    proof {
        if i < s.len() { assert(rest[i - 9] == s@[i as int]); }
        assert(query_start(rest, i - 9) == i - 9);
        assert(rest.take(i - 9) =~= s@.subrange(9, i as int));
    }
    if i > 9 {
        string_of_range(&s, 9, i)
    } else {
        proof { assert(s@.subrange(0, s@.len() as int) =~= url@); }
        string_of_range(&s, 0, s.len())
    }
}


/// `url` asks for an in-memory database: one `&`-separated item of its
/// query (after the first `?`) is `mode=memory`.
pub open spec fn memory_url(url: Seq<char>) -> bool {
    let k = query_start(url, 0);
    k < url.len() && exists|i: int| 0 <= i < split_char(url.skip(k + 1), '&').len()
        && #[trigger] split_char(url.skip(k + 1), '&')[i] == "mode=memory"@
}

/// `url` names a SQLite file: its path is not empty, not `:memory:`, not a
/// `file:` URI and holds no other scheme, and the URL does not ask for an
/// in-memory database.
pub open spec fn names_sqlite_file(url: Seq<char>) -> bool {
    let path = sqlite_file(url);
    &&& path.len() > 0
    &&& path != ":memory:"@
    &&& !starts_with(path, "file:"@)
    &&& !contains_seq(path, "://"@)
    &&& !memory_url(url)
}

fn memory_url_exec(url: &Vec<char>) -> (r: bool)
    ensures r == memory_url(url@),
{
    let mut k: usize = 0;
    while k < url.len() && url[k] != '?'
        invariant
            k <= url@.len(),
            query_start(url@, 0) == query_start(url@, k as int),
        decreases url.len() - k,
    {
        k += 1;
    }
    if k == url.len() {
        return false;
    }
    let query = crate::text::string_of_range(url, k + 1, url.len());
    let q = chars_of(query.as_str());
    proof { assert(q@ == url@.skip(k + 1)); }
    let items = split_exec(&q, '&');
    let ghost sv = Seq::new(items@.len(), |j: int| items@[j]@);
    let target = chars_of("mode=memory");
    proof { reveal_strlit("mode=memory"); }
    let mut i: usize = 0;
    while i < items.len()
        invariant
            i <= items@.len(),
            sv == Seq::new(items@.len(), |j: int| items@[j]@),
            sv == split_char(url@.skip(k + 1), '&'),
            target@ == "mode=memory"@,
            k == query_start(url@, 0),
            k < url@.len(),
            forall|j: int| 0 <= j < i ==> sv[j] != "mode=memory"@,
        decreases items.len() - i,
    {
        if seq_eq(&items[i], &target) {
            proof { assert(sv[i as int] == "mode=memory"@); }
            return true;
        }
        i += 1;
    }
    false
}

/// The SQLite file that a read-only command `command` opens for `url`;
/// an in-memory or non-file database is refused.
pub fn sqlite_file_path(url: &str, command: &str) -> (r: Result<String, String>)
    ensures
        names_sqlite_file(url@) ==> (r matches Ok(p) && p@ == sqlite_file(url@)),
        !names_sqlite_file(url@) ==> (r matches Err(m) && m@ == command@ + " requires a SQLite file path (plain or sqlite://)"@),
{
    let path = sqlite_path(url);
    let p = chars_of(path.as_str());
    let u = chars_of(url);
    let memory = vec![':', 'm', 'e', 'm', 'o', 'r', 'y', ':'];
    let file = vec!['f', 'i', 'l', 'e', ':'];
    let scheme = vec![':', '/', '/'];
    proof {
        reveal_strlit(":memory:");
        reveal_strlit("file:");
        reveal_strlit("://");
        assert(memory@ == ":memory:"@);
        assert(file@ == "file:"@);
        assert(scheme@ == "://"@);
    }
    let refused = p.len() == 0 || seq_eq(&p, &memory) || has_at(&p, 0, &file)
        || find_seq_exec(&p, &scheme).is_some() || memory_url_exec(&u);
    proof {
        assert(p@.subrange(0, p@.len() as int) =~= p@);
        assert(p@ == sqlite_file(url@));
        assert(u@ == url@);
    }
    if refused {
        let mut m = owned(command);
        push_str(&mut m, " requires a SQLite file path (plain or sqlite://)");
        Err(m)
    } else {
        Ok(path)
    }
}

} // verus!
