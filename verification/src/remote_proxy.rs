//! Servers whose tools are offered under a name of their own: how they are reached, and
//! when a call is tried again.

use vstd::prelude::*;
use crate::bundle_graph::text_of;
use crate::pieces::{begins_with, str_starts_with};
use crate::regexes::{regex_replaced, replace_matches};
use crate::service_errors::{is_error, ErrorKind, ToolError};
use crate::text::{ascii_lower, is_ascii_alnum, same_text, trim_str, trimmed};

verus! {

// ---------------------------------------------------------------------------
// Configuration
// ---------------------------------------------------------------------------

/// A server that is reached over the network.
#[derive(Debug)]
pub struct RemoteServerConfig {
    pub name: String,
    pub namespace: Option<String>,
    pub url: String,
    pub headers: Vec<Header>,
    pub auth: Option<AuthConfig>,
    pub retry: Option<RetryConfig>,
}

/// How a server knows who calls.
#[derive(Debug)]
pub enum AuthConfig {
    /// By a token.
    Bearer { token: Option<String>, token_env: Option<String>, header: Option<String> },
    /// By a header.
    Header { header: String, value: Option<String>, value_env: Option<String> },
}

/// When a call is tried again, as far as it is set.
#[derive(Debug, Clone, Copy, PartialEq, Eq, Structural)]
pub struct RetryConfig {
    pub max_attempts: Option<u32>,
    pub initial_delay_ms: Option<u64>,
    pub max_delay_ms: Option<u64>,
}

/// A header of a request.
#[derive(Debug)]
pub struct Header {
    pub name: String,
    pub value: String,
}

/// Why a server cannot be used. What went wrong outside is given in words.
#[derive(Debug)]
pub enum RemoteProxyError {
    Transport(String),
    /// `transient` tells whether the connection was lost or too slow.
    Service { message: String, transient: bool },
    ClientInit(String),
    Config(String),
    Auth(String),
}

impl RemoteProxyError {
    /// How a tool reports the error.
    pub fn into_mcp(self) -> (r: ToolError)
        ensures
            match self {
                RemoteProxyError::Transport(message) => is_error(
                    r,
                    ErrorKind::InternalError,
                    "Remote transport error: "@ + message@,
                ),
                RemoteProxyError::Service { message, transient } => is_error(
                    r,
                    ErrorKind::InternalError,
                    "Remote service error: "@ + message@,
                ),
                RemoteProxyError::ClientInit(message) => is_error(
                    r,
                    ErrorKind::InternalError,
                    "Remote init failed: "@ + message@,
                ),
                RemoteProxyError::Config(message) => is_error(
                    r,
                    ErrorKind::InvalidParams,
                    "Invalid remote configuration: "@ + message@,
                ),
                RemoteProxyError::Auth(message) => is_error(
                    r,
                    ErrorKind::InvalidParams,
                    "Remote authentication error: "@ + message@,
                ),
            },
    {
        let (kind, lead, detail) = match self {
            RemoteProxyError::Transport(message) => (
                ErrorKind::InternalError,
                "Remote transport error: ",
                message,
            ),
            RemoteProxyError::Service { message, transient } => (
                ErrorKind::InternalError,
                "Remote service error: ",
                message,
            ),
            RemoteProxyError::ClientInit(message) => (
                ErrorKind::InternalError,
                "Remote init failed: ",
                message,
            ),
            RemoteProxyError::Config(message) => (
                ErrorKind::InvalidParams,
                "Invalid remote configuration: ",
                message,
            ),
            RemoteProxyError::Auth(message) => (
                ErrorKind::InvalidParams,
                "Remote authentication error: ",
                message,
            ),
        };
        let mut message = lead.to_owned();
        message.append(detail.as_str());
        ToolError { kind, message }
    }

    /// Whether the same call may succeed later.
    pub fn is_retryable(&self) -> (r: bool)
        ensures
            r == match *self {
                RemoteProxyError::Transport(_) => true,
                RemoteProxyError::Service { message, transient } => transient,
                RemoteProxyError::ClientInit(_) => true,
                RemoteProxyError::Config(_) => false,
                RemoteProxyError::Auth(_) => false,
            },
    {
        match self {
            RemoteProxyError::Transport(_) => true,
            RemoteProxyError::Service { message, transient } => *transient,
            RemoteProxyError::ClientInit(_) => true,
            RemoteProxyError::Config(_) => false,
            RemoteProxyError::Auth(_) => false,
        }
    }
}

/// Whether servers are configured at all: the text is there, and not blank.
pub fn has_remote_servers(raw: &Option<String>) -> (r: bool)
    ensures
        r == match text_of(*raw) {
            Some(text) => trimmed(text).len() > 0,
            None => false,
        },
{
    match raw {
        Some(text) => !trim_str(text.as_str()).as_str().is_empty(),
        None => false,
    }
}

impl RemoteServerConfig {
    /// The name under which the server's tools are offered.
    pub open spec fn space(&self) -> Seq<char> {
        match self.namespace {
            Some(name) => name@,
            None => self.name@,
        }
    }

    /// The name under which the server's tools are offered.
    pub fn namespace(&self) -> (r: &str)
        ensures
            r@ == self.space(),
    {
        match &self.namespace {
            Some(name) => name.as_str(),
            None => self.name.as_str(),
        }
    }

    /// The name under which one of the server's tools is offered.
    pub fn tool_name(&self, remote_name: &str) -> (r: String)
        ensures
            r@ == self.space() + "."@ + remote_name@,
    {
        let mut out = self.namespace().to_owned();
        out.append(".");
        out.append(remote_name);
        out
    }
}

/// A run of white space.
pub const WHITE_SPACE_RUN: &'static str = r"\s+";

/// The description of a tool with a single blank for every run of white space.
pub fn clean_description(description: &str) -> (r: String)
    ensures
        r@ == regex_replaced(WHITE_SPACE_RUN@, description@, " "@),
{
    replace_matches(WHITE_SPACE_RUN, description, " ")
}

// ---------------------------------------------------------------------------
// Headers
// ---------------------------------------------------------------------------

/// The longest name of a header.
pub const MAX_HEADER_NAME: usize = 65_535;

/// The character may stand in the name of a header.
pub open spec fn header_name_char(c: char) -> bool {
    is_ascii_alnum(c) || c == '!' || c == '#' || c == '$' || c == '%' || c == '&' || c == '\''
        || c == '*' || c == '+' || c == '-' || c == '.' || c == '^' || c == '_' || c == '`' || c
        == '|' || c == '~'
}

/// The text is the name of a header.
pub open spec fn is_header_name(s: Seq<char>) -> bool {
    0 < s.len() <= MAX_HEADER_NAME && forall|i: int|
        0 <= i < s.len() ==> header_name_char(#[trigger] s[i])
}

/// The text is the value of a header: it has no control characters but tabs.
pub open spec fn is_header_value(s: Seq<char>) -> bool {
    forall|i: int|
        0 <= i < s.len() ==> (#[trigger] s[i] as u32 >= 32 && s[i] as u32 != 127 || s[i] == '\t')
}

/// Calls `HeaderName::from_bytes` and `HeaderName::as_str` of the `http` crate, which
/// `reqwest` hands on: a name is kept in small letters. What it says of another text is
/// always the same.
#[verifier::external_body]
fn header_name(text: &str) -> (r: Result<String, String>)
    ensures
        match r {
            Ok(name) => is_header_name(text@) && name@ == ascii_lower(text@),
            Err(message) => !is_header_name(text@) && message@ == "invalid HTTP header name"@,
        },
{
    match reqwest::header::HeaderName::from_bytes(text.as_bytes()) {
        Ok(name) => Ok(name.as_str().to_string()),
        Err(error) => Err(error.to_string()),
    }
}

/// Calls `HeaderValue::from_str` and `HeaderValue::as_bytes` of the `http` crate, which
/// `reqwest` hands on: a value is kept as it is. What it says of another text is always
/// the same.
#[verifier::external_body]
fn header_value(text: &str) -> (r: Result<String, String>)
    ensures
        match r {
            Ok(value) => is_header_value(text@) && value@ == text@,
            Err(message) => !is_header_value(text@) && message@ == "failed to parse header value"@,
        },
{
    match reqwest::header::HeaderValue::from_str(text) {
        Ok(value) => Ok(String::from_utf8_lossy(value.as_bytes()).into_owned()),
        Err(error) => Err(error.to_string()),
    }
}

/// The variable of the environment that holds what the caller is known by, where it is
/// not given itself.
pub fn auth_variable(auth: &AuthConfig) -> (r: Option<String>)
    ensures
        text_of(r) == match *auth {
            AuthConfig::Bearer { token, token_env, header } => if token is Some {
                None
            } else {
                text_of(token_env)
            },
            AuthConfig::Header { header, value, value_env } => if value is Some {
                None
            } else {
                text_of(value_env)
            },
        },
{
    match auth {
        AuthConfig::Bearer { token, token_env, header } => if token.is_some() {
            None
        } else {
            token_env.clone()
        },
        AuthConfig::Header { header, value, value_env } => if value.is_some() {
            None
        } else {
            value_env.clone()
        },
    }
}

/// What the caller is known by: what is given, else what the environment holds.
pub open spec fn credential(given: Option<Seq<char>>, held: Option<Seq<char>>) -> Option<Seq<char>> {
    match given {
        Some(v) => Some(v),
        None => held,
    }
}

/// A token as the value of a header.
pub open spec fn bearer_value(token: Seq<char>) -> Seq<char> {
    if begins_with(token, "Bearer "@) {
        token
    } else {
        "Bearer "@ + token
    }
}

/// The name of the header that carries a token.
pub open spec fn bearer_header(header: Option<Seq<char>>) -> Seq<char> {
    match header {
        Some(h) => h,
        None => "authorization"@,
    }
}

/// A header, or the reason why there is none.
pub open spec fn header_or_problem(name: Seq<char>, value: Seq<char>) -> Result<
    (Seq<char>, Seq<char>),
    Seq<char>,
> {
    if !is_header_name(name) {
        Err("invalid HTTP header name"@)
    } else if !is_header_value(value) {
        Err("failed to parse header value"@)
    } else {
        Ok((ascii_lower(name), value))
    }
}

/// The header by which a server knows who calls, or the reason why there is none.
pub open spec fn auth_header(
    server: Seq<char>,
    auth: AuthConfig,
    held: Option<Seq<char>>,
) -> Result<(Seq<char>, Seq<char>), Seq<char>> {
    match auth {
        AuthConfig::Bearer { token, token_env, header } => match credential(text_of(token), held) {
            Some(t) => header_or_problem(bearer_header(text_of(header)), bearer_value(t)),
            None => Err("Bearer auth for "@ + server + " requires token or tokenEnv"@),
        },
        AuthConfig::Header { header, value, value_env } => if !is_header_name(header@) {
            Err("invalid HTTP header name"@)
        } else {
            match credential(text_of(value), held) {
                Some(v) => header_or_problem(header@, v),
                None => Err("Header auth for "@ + server + " requires value or valueEnv"@),
            }
        },
    }
}

fn make_header(name: &str, value: &str) -> (r: Result<Header, String>)
    ensures
        match r {
            Ok(h) => header_or_problem(name@, value@) == Ok::<(Seq<char>, Seq<char>), Seq<char>>(
                (h.name@, h.value@),
            ),
            Err(m) => header_or_problem(name@, value@) == Err::<(Seq<char>, Seq<char>), Seq<char>>(
                m@,
            ),
        },
{
    let name = match header_name(name) {
        Ok(name) => name,
        Err(message) => return Err(message),
    };
    match header_value(value) {
        Ok(value) => Ok(Header { name, value }),
        Err(message) => Err(message),
    }
}

/// The header by which a server knows who calls. `held` is what the environment holds
/// under the name that `auth_variable` gives.
pub fn resolve_auth_headers(config: &RemoteServerConfig, held: Option<String>) -> (r: Result<
    Option<Header>,
    RemoteProxyError,
>)
    ensures
        match r {
            Ok(None) => config.auth is None,
            Ok(Some(h)) => config.auth is Some && auth_header(
                config.name@,
                config.auth->0,
                text_of(held),
            ) == Ok::<(Seq<char>, Seq<char>), Seq<char>>((h.name@, h.value@)),
            Err(e) => {
                &&& config.auth is Some
                &&& e matches RemoteProxyError::Auth(m)
                &&& auth_header(config.name@, config.auth->0, text_of(held)) == Err::<
                    (Seq<char>, Seq<char>),
                    Seq<char>,
                >(m@)
            },
        },
{
    let auth = match &config.auth {
        Some(auth) => auth,
        None => return Ok(None),
    };
    match auth {
        AuthConfig::Bearer { token, token_env, header } => {
            let credential = match token {
                Some(token) => Some(token.clone()),
                None => held,
            };
            let token = match credential {
                Some(token) => token,
                None => {
                    let mut message = "Bearer auth for ".to_owned();
                    message.append(config.name.as_str());
                    message.append(" requires token or tokenEnv");
                    return Err(RemoteProxyError::Auth(message));
                },
            };
            let name = match header {
                Some(header) => header.as_str(),
                None => "authorization",
            };
            let value = if str_starts_with(token.as_str(), "Bearer ") {
                token
            } else {
                let mut value = "Bearer ".to_owned();
                value.append(token.as_str());
                value
            };
            match make_header(name, value.as_str()) {
                Ok(made) => Ok(Some(made)),
                Err(message) => Err(RemoteProxyError::Auth(message)),
            }
        },
        AuthConfig::Header { header, value, value_env } => {
            if let Err(message) = header_name(header.as_str()) {
                return Err(RemoteProxyError::Auth(message));
            }
            let credential = match value {
                Some(value) => Some(value.clone()),
                None => held,
            };
            let value = match credential {
                Some(value) => value,
                None => {
                    let mut message = "Header auth for ".to_owned();
                    message.append(config.name.as_str());
                    message.append(" requires value or valueEnv");
                    return Err(RemoteProxyError::Auth(message));
                },
            };
            match make_header(header.as_str(), value.as_str()) {
                Ok(made) => Ok(Some(made)),
                Err(message) => Err(RemoteProxyError::Auth(message)),
            }
        },
    }
}

/// The headers by their names.
pub open spec fn header_map(list: Seq<Header>) -> Map<Seq<char>, Seq<char>>
    decreases list.len(),
{
    if list.len() == 0 {
        Map::empty()
    } else {
        header_map(list.drop_last()).insert(list.last().name@, list.last().value@)
    }
}

/// No two headers have the same name.
pub open spec fn names_differ(list: Seq<Header>) -> bool {
    forall|i: int, j: int|
        0 <= i < j < list.len() ==> (#[trigger] list[i]).name@ != (#[trigger] list[j]).name@
}

/// The headers that are set: those of the list that are headers, the last of each name.
pub open spec fn usable_headers(list: Seq<Header>) -> Map<Seq<char>, Seq<char>>
    decreases list.len(),
{
    if list.len() == 0 {
        Map::empty()
    } else {
        let before = usable_headers(list.drop_last());
        match header_or_problem(list.last().name@, list.last().value@) {
            Ok((name, value)) => before.insert(name, value),
            Err(_) => before,
        }
    }
}

/// Every name of the list is one of the map, and the map has no other.
proof fn lemma_header_map(list: Seq<Header>)
    requires
        names_differ(list),
    ensures
        forall|i: int|
            0 <= i < list.len() ==> #[trigger] header_map(list).dom().contains(list[i].name@)
                && header_map(list)[list[i].name@] == list[i].value@,
        forall|n: Seq<char>| #[trigger]
            header_map(list).dom().contains(n) ==> exists|i: int|
                0 <= i < list.len() && (#[trigger] list[i]).name@ == n,
    decreases list.len(),
{
    if list.len() > 0 {
        let rest = list.drop_last();
        lemma_header_map(rest);
        assert forall|i: int| 0 <= i < list.len() implies #[trigger] header_map(
            list,
        ).dom().contains(list[i].name@) && header_map(list)[list[i].name@] == list[i].value@ by {
            if i < list.len() - 1 {
                assert(rest[i] == list[i]);
                assert(list[i].name@ != list[list.len() - 1].name@);
                assert(header_map(rest).dom().contains(rest[i].name@));
            }
        }
        assert forall|n: Seq<char>| #[trigger] header_map(list).dom().contains(n) implies exists|
            i: int,
        |
            0 <= i < list.len() && (#[trigger] list[i]).name@ == n by {
            if n == list.last().name@ {
                assert(list[list.len() - 1].name@ == n);
            } else {
                assert(header_map(rest).dom().contains(n));
                let i = choose|i: int| 0 <= i < rest.len() && (#[trigger] rest[i]).name@ == n;
                assert(list[i].name@ == n);
            }
        }
    }
}

/// Two lists with the same headers have the same map.
proof fn lemma_same_headers(list: Seq<Header>, map: Map<Seq<char>, Seq<char>>)
    requires
        names_differ(list),
        forall|i: int|
            0 <= i < list.len() ==> #[trigger] map.dom().contains(list[i].name@)
                && map[list[i].name@] == list[i].value@,
        forall|n: Seq<char>| #[trigger]
            map.dom().contains(n) ==> exists|i: int|
                0 <= i < list.len() && (#[trigger] list[i]).name@ == n,
    ensures
        header_map(list) == map,
{
    lemma_header_map(list);
    let made = header_map(list);
    assert forall|n: Seq<char>| made.dom().contains(n) == map.dom().contains(n) by {
        if made.dom().contains(n) {
            let i = choose|i: int| 0 <= i < list.len() && (#[trigger] list[i]).name@ == n;
            assert(map.dom().contains(list[i].name@));
        }
        if map.dom().contains(n) {
            let i = choose|i: int| 0 <= i < list.len() && (#[trigger] list[i]).name@ == n;
            assert(made.dom().contains(list[i].name@));
        }
    }
    assert forall|n: Seq<char>| made.dom().contains(n) implies made[n] == map[n] by {
        let i = choose|i: int| 0 <= i < list.len() && (#[trigger] list[i]).name@ == n;
        assert(made.dom().contains(list[i].name@));
        assert(map.dom().contains(list[i].name@));
    }
    assert(made =~= map);
}

/// Sets a header: one of the same name is replaced.
fn set_header(list: &mut Vec<Header>, header: Header)
    requires
        names_differ(old(list)@),
    ensures
        names_differ(final(list)@),
        header_map(final(list)@) == header_map(old(list)@).insert(header.name@, header.value@),
{
    let ghost before = list@;
    let ghost goal = header_map(before).insert(header.name@, header.value@);
    let mut i: usize = 0;
    while i < list.len()
        invariant
            i <= list@.len(),
            list@ == before,
            before == old(list)@,
            names_differ(before),
            goal == header_map(before).insert(header.name@, header.value@),
            forall|k: int| 0 <= k < i ==> (#[trigger] before[k]).name@ != header.name@,
        decreases list.len() - i,
    {
        if same_text(list[i].name.as_str(), header.name.as_str()) {
            let ghost h = header;
            list.set(i, header);
            proof {
                assert(before[i as int].name@ == h.name@);
                assert(list@ =~= before.update(i as int, h));
                assert forall|a: int, b: int| 0 <= a < b < list@.len() implies (
                #[trigger] list@[a]).name@ != (#[trigger] list@[b]).name@ by {
                    assert(before[a].name@ != before[b].name@);
                }
                lemma_header_map(before);
                assert forall|k: int| 0 <= k < list@.len() implies #[trigger] goal.dom().contains(
                    list@[k].name@,
                ) && goal[list@[k].name@] == list@[k].value@ by {
                    if k != i {
                        assert(before[k] == list@[k]);
                        assert(header_map(before).dom().contains(before[k].name@));
                        assert(before[k].name@ != before[i as int].name@);
                    }
                }
                assert forall|n: Seq<char>| #[trigger] goal.dom().contains(n) implies exists|
                    k: int,
                |
                    0 <= k < list@.len() && (#[trigger] list@[k]).name@ == n by {
                    if n == h.name@ {
                        assert(list@[i as int].name@ == n);
                    } else {
                        assert(header_map(before).dom().contains(n));
                        let k = choose|k: int|
                            0 <= k < before.len() && (#[trigger] before[k]).name@ == n;
                        assert(list@[k].name@ == n);
                    }
                }
                lemma_same_headers(list@, goal);
            }
            return;
        }
        i += 1;
    }
    list.push(header);
    proof {
        assert forall|a: int, b: int| 0 <= a < b < list@.len() implies (
        #[trigger] list@[a]).name@ != (#[trigger] list@[b]).name@ by {
            if b < before.len() {
                assert(before[a].name@ != before[b].name@);
            } else {
                assert(before[a].name@ != header.name@);
            }
        }
        assert(list@.drop_last() =~= before);
    }
}

/// The headers of a request to a server: those that are configured, as far as they are
/// headers, and the one by which the server knows who calls.
pub fn client_headers(config: &RemoteServerConfig, held: Option<String>) -> (r: Result<
    Vec<Header>,
    RemoteProxyError,
>)
    ensures
        match r {
            Ok(list) => {
                &&& names_differ(list@)
                &&& match config.auth {
                    None => header_map(list@) == usable_headers(config.headers@),
                    Some(auth) => match auth_header(config.name@, auth, text_of(held)) {
                        Ok(header) => header_map(list@) == usable_headers(config.headers@).insert(
                            header.0,
                            header.1,
                        ),
                        Err(_) => false,
                    },
                }
            },
            Err(e) => {
                &&& config.auth is Some
                &&& e matches RemoteProxyError::Auth(m)
                &&& auth_header(config.name@, config.auth->0, text_of(held)) == Err::<
                    (Seq<char>, Seq<char>),
                    Seq<char>,
                >(m@)
            },
        },
{
    let mut list: Vec<Header> = Vec::new();
    let given = &config.headers;
    let mut i: usize = 0;
    assert(given@.take(0) =~= Seq::<Header>::empty());
    while i < given.len()
        invariant
            i <= given@.len(),
            names_differ(list@),
            header_map(list@) == usable_headers(given@.take(i as int)),
        decreases given.len() - i,
    {
        proof {
            let next = given@.take(i + 1);
            assert(next.drop_last() =~= given@.take(i as int));
            assert(next.last() == given@[i as int]);
        }
        if let Ok(header) = make_header(given[i].name.as_str(), given[i].value.as_str()) {
            set_header(&mut list, header);
        }
        i += 1;
    }
    assert(given@.take(i as int) =~= given@);
    match resolve_auth_headers(config, held) {
        Ok(Some(header)) => {
            set_header(&mut list, header);
            Ok(list)
        },
        Ok(None) => Ok(list),
        Err(error) => Err(error),
    }
}

// ---------------------------------------------------------------------------
// Trying again
// ---------------------------------------------------------------------------

/// How often a call is tried where nothing is set.
pub const DEFAULT_ATTEMPTS: u32 = 3;

/// The first pause in milliseconds where nothing is set.
pub const DEFAULT_INITIAL_DELAY_MS: u64 = 500;

/// The longest pause in milliseconds where nothing is set.
pub const DEFAULT_MAX_DELAY_MS: u64 = 10_000;

/// Nanoseconds in a millisecond.
pub const NANOS_PER_MS: u128 = 1_000_000;

/// When a call is tried again.
#[derive(Debug, Clone, Copy, PartialEq, Eq, Structural)]
pub struct RetryPolicy {
    pub max_attempts: u32,
    pub initial_delay_ms: u64,
    pub max_delay_ms: u64,
}

/// How far a call has come: how often it has failed, and the next pause in nanoseconds.
#[derive(Debug, Clone, Copy, PartialEq, Eq, Structural)]
pub struct RetryState {
    pub attempt: u32,
    pub delay_nanos: u128,
}

/// What follows a failure.
#[derive(Debug, Clone, Copy, PartialEq, Eq, Structural)]
pub enum RetryStep {
    /// The failure is reported.
    GiveUp,
    /// The call is tried again after a pause of so many nanoseconds.
    RetryAfter(u128),
}

/// A number, or another where it is not set.
pub open spec fn number_or<T>(value: Option<T>, otherwise: T) -> T {
    match value {
        Some(v) => v,
        None => otherwise,
    }
}

/// The policy that a configuration stands for.
pub open spec fn policy_of(c: RetryConfig) -> RetryPolicy {
    let attempts = number_or(c.max_attempts, DEFAULT_ATTEMPTS);
    let first = number_or(c.initial_delay_ms, DEFAULT_INITIAL_DELAY_MS);
    let longest = number_or(c.max_delay_ms, DEFAULT_MAX_DELAY_MS);
    RetryPolicy {
        max_attempts: if attempts < 1 {
            1
        } else {
            attempts
        },
        initial_delay_ms: first,
        max_delay_ms: if longest < first {
            first
        } else {
            longest
        },
    }
}

/// How often the call has failed after one more failure; `None` where it is given up.
pub open spec fn after_one_more(policy: RetryPolicy, attempt: int, retryable: bool) -> Option<int> {
    if !retryable || attempt + 1 >= policy.max_attempts {
        None
    } else {
        Some(attempt + 1)
    }
}

/// How often the call has failed after so many failures that are worth trying again;
/// `None` where it was given up.
pub open spec fn after_failures(policy: RetryPolicy, failures: nat) -> Option<int>
    decreases failures,
{
    if failures == 0 {
        Some(0)
    } else {
        match after_failures(policy, (failures - 1) as nat) {
            Some(attempt) => after_one_more(policy, attempt, true),
            None => None,
        }
    }
}

/// A call that keeps failing is given up at the last attempt that the policy allows, and
/// not before.
pub proof fn law_attempts_bounded(policy: RetryPolicy, failures: nat)
    requires
        policy.max_attempts >= 1,
    ensures
        after_failures(policy, failures) is Some <==> failures < policy.max_attempts,
        after_failures(policy, failures) is Some ==> after_failures(policy, failures)
            == Some(failures as int),
    decreases failures,
{
    if failures > 0 {
        law_attempts_bounded(policy, (failures - 1) as nat);
    }
}

impl RetryPolicy {
    /// The policy allows an attempt, and its first pause is not longer than its longest.
    pub open spec fn valid(&self) -> bool {
        self.max_attempts >= 1 && self.initial_delay_ms <= self.max_delay_ms
    }

    /// The policy that a configuration stands for, or the usual one.
    pub fn from_config(config: Option<&RetryConfig>) -> (r: Self)
        ensures
            r.valid(),
            r == match config {
                Some(c) => policy_of(*c),
                None => RetryPolicy {
                    max_attempts: DEFAULT_ATTEMPTS,
                    initial_delay_ms: DEFAULT_INITIAL_DELAY_MS,
                    max_delay_ms: DEFAULT_MAX_DELAY_MS,
                },
            },
    {
        let (attempts, first, longest): (u32, u64, u64) = match config {
            Some(c) => (
                match c.max_attempts {
                    Some(n) => n,
                    None => DEFAULT_ATTEMPTS,
                },
                match c.initial_delay_ms {
                    Some(n) => n,
                    None => DEFAULT_INITIAL_DELAY_MS,
                },
                match c.max_delay_ms {
                    Some(n) => n,
                    None => DEFAULT_MAX_DELAY_MS,
                },
            ),
            None => (DEFAULT_ATTEMPTS, DEFAULT_INITIAL_DELAY_MS, DEFAULT_MAX_DELAY_MS),
        };
        RetryPolicy {
            max_attempts: if attempts < 1 {
                1
            } else {
                attempts
            },
            initial_delay_ms: first,
            max_delay_ms: if longest < first {
                first
            } else {
                longest
            },
        }
    }

    /// The longest pause in nanoseconds.
    pub open spec fn longest_pause(&self) -> nat {
        (self.max_delay_ms * NANOS_PER_MS) as nat
    }

    /// Where every call starts.
    pub fn start(&self) -> (r: RetryState)
        ensures
            r.attempt == 0,
            r.delay_nanos == self.initial_delay_ms * NANOS_PER_MS,
    {
        RetryState { attempt: 0, delay_nanos: self.initial_delay_ms as u128 * NANOS_PER_MS }
    }

    /// What follows a failure.
    pub fn after_failure(&self, state: &mut RetryState, retryable: bool) -> (r: RetryStep)
        requires
            old(state).attempt < self.max_attempts,
        ensures
            final(state).delay_nanos == old(state).delay_nanos,
            match after_one_more(*self, old(state).attempt as int, retryable) {
                Some(attempt) => {
                    &&& final(state).attempt == attempt
                    &&& final(state).attempt < self.max_attempts
                    &&& r == RetryStep::RetryAfter(
                        if old(state).delay_nanos <= self.longest_pause() {
                            old(state).delay_nanos
                        } else {
                            self.longest_pause() as u128
                        },
                    )
                },
                None => r == RetryStep::GiveUp,
            },
    {
        if !retryable || state.attempt + 1 >= self.max_attempts {
            return RetryStep::GiveUp;
        }
        state.attempt = state.attempt + 1;
        let longest: u128 = self.max_delay_ms as u128 * NANOS_PER_MS;
        if state.delay_nanos <= longest {
            RetryStep::RetryAfter(state.delay_nanos)
        } else {
            RetryStep::RetryAfter(longest)
        }
    }

    /// Sets the next pause, which has grown to so many nanoseconds: it is never longer
    /// than the longest.
    pub fn grow(&self, state: &mut RetryState, grown_nanos: u128)
        ensures
            final(state).attempt == old(state).attempt,
            final(state).delay_nanos == (if grown_nanos <= self.longest_pause() {
                grown_nanos as int
            } else {
                self.longest_pause() as int
            }),
    {
        let longest: u128 = self.max_delay_ms as u128 * NANOS_PER_MS;
        if grown_nanos <= longest {
            state.delay_nanos = grown_nanos;
        } else {
            state.delay_nanos = longest;
        }
    }
}

// ---------------------------------------------------------------------------
// What holds of calls to other servers
// ---------------------------------------------------------------------------

/// A text is the name of a header exactly where it is not empty, not too long, and holds
/// only letters, digits and the marks that names may have: no white space, colon or
/// control character.
pub proof fn law_header_name(s: Seq<char>, i: int)
    ensures
        s.len() == 0 ==> !is_header_name(s),
        0 <= i < s.len() && (s[i] == ' ' || s[i] == ':' || s[i] == '\n' || s[i] == '\r' || s[i]
            == '\t' || s[i] == '/' || s[i] == '(' || s[i] == ',' || s[i] as u32 > 127)
            ==> !is_header_name(s),
        0 < s.len() <= MAX_HEADER_NAME && (forall|k: int|
            0 <= k < s.len() ==> ('a' <= #[trigger] s[k] <= 'z' || 'A' <= s[k] <= 'Z' || '0' <= s[k]
                <= '9' || s[k] == '-' || s[k] == '_')) ==> is_header_name(s),
{
    if 0 <= i < s.len() && is_header_name(s) {
        assert(header_name_char(s[i]));
    }
}

/// A line break or another control character makes a text no value of a header; a tab does
/// not.
pub proof fn law_header_value(s: Seq<char>, i: int)
    ensures
        0 <= i < s.len() && (s[i] == '\n' || s[i] == '\r' || s[i] as u32 == 0 || s[i] as u32 == 127)
            ==> !is_header_value(s),
        (forall|k: int| 0 <= k < s.len() ==> (' ' <= #[trigger] s[k] <= '~' || s[k] == '\t'))
            ==> is_header_value(s),
{
}

/// What is given counts before what the environment holds.
pub proof fn law_credential(given: Seq<char>, held: Option<Seq<char>>)
    ensures
        credential(Some(given), held) == Some(given),
        credential(None, held) == held,
{
}

/// The value of a header that carries a token names its scheme once, and ends with the
/// token.
pub proof fn law_bearer(token: Seq<char>)
    ensures
        "Bearer "@.is_prefix_of(bearer_value(token)),
        token.is_suffix_of(bearer_value(token)),
        bearer_value(bearer_value(token)) == bearer_value(token),
        bearer_header(None) == "authorization"@,
        bearer_header(Some(token)) == token,
{
    crate::pieces::law_occurrence(token, "Bearer "@);
    let v = bearer_value(token);
    if !begins_with(token, "Bearer "@) {
        assert(v.subrange(0, "Bearer "@.len() as int) =~= "Bearer "@);
        assert(v.subrange(v.len() - token.len(), v.len() as int) =~= token);
    } else {
        assert(v.subrange(0, v.len() as int) =~= token);
    }
    crate::pieces::law_occurrence(v, "Bearer "@);
}

/// A header is set in small letters, with its value as it is. What is not the name or not
/// the value of a header is refused for that reason, the name first.
pub proof fn law_header(name: Seq<char>, value: Seq<char>)
    ensures
        is_header_name(name) && is_header_value(value) <==> header_or_problem(name, value) is Ok,
        header_or_problem(name, value) matches Ok((n, v)) ==> n == ascii_lower(name) && v == value,
        !is_header_name(name) ==> header_or_problem(name, value) == Err::<
            (Seq<char>, Seq<char>),
            Seq<char>,
        >("invalid HTTP header name"@),
        is_header_name(name) && !is_header_value(value) ==> header_or_problem(name, value) == Err::<
            (Seq<char>, Seq<char>),
            Seq<char>,
        >("failed to parse header value"@),
{
}

/// A token is carried by the header that is configured for it, or by the usual one, and a
/// value by the header that is configured for it; without either there is a reason that
/// names the server.
pub proof fn law_auth_header(server: Seq<char>, auth: AuthConfig, held: Option<Seq<char>>)
    ensures
        auth_header(server, auth, held) matches Ok((name, value)) ==> (auth matches AuthConfig::Bearer {
            token,
            token_env,
            header,
        } ==> name == ascii_lower(bearer_header(text_of(header))) && (credential(
            text_of(token),
            held,
        ) matches Some(t) && value == bearer_value(t))),
        auth_header(server, auth, held) matches Ok((name, value)) ==> (auth matches AuthConfig::Header {
            header,
            value: given,
            value_env,
        } ==> name == ascii_lower(header@) && credential(text_of(given), held) == Some(value)),
        auth matches AuthConfig::Bearer { token, token_env, header } ==> token is None && held is None
            ==> auth_header(server, auth, held) == Err::<(Seq<char>, Seq<char>), Seq<char>>(
            "Bearer auth for "@ + server + " requires token or tokenEnv"@,
        ),
{
}

/// A header of the list is set, unless one of the same name stands behind it; what is no
/// header sets nothing.
pub proof fn law_usable_headers(list: Seq<Header>, h: Header)
    ensures
        header_or_problem(h.name@, h.value@) matches Ok((name, value)) ==> usable_headers(
            list.push(h),
        ) == usable_headers(list).insert(name, value),
        header_or_problem(h.name@, h.value@) is Err ==> usable_headers(list.push(h))
            == usable_headers(list),
        usable_headers(Seq::empty()) == Map::<Seq<char>, Seq<char>>::empty(),
{
    assert(list.push(h).drop_last() =~= list);
}

/// A policy is the configured one: at least one attempt is made, and no pause is longer
/// than the longest, unless the first one is.
pub proof fn law_policy(c: RetryConfig)
    ensures
        policy_of(c).max_attempts >= 1,
        policy_of(c).initial_delay_ms <= policy_of(c).max_delay_ms,
        c.max_attempts matches Some(n) ==> n >= 1 ==> policy_of(c).max_attempts == n,
        c.initial_delay_ms matches Some(n) ==> policy_of(c).initial_delay_ms == n,
        c.max_delay_ms matches Some(n) ==> n >= policy_of(c).initial_delay_ms ==> policy_of(
            c,
        ).max_delay_ms == n,
{
}

/// A call is given up exactly after as many failures as attempts are allowed, or at once
/// where trying again is of no use.
pub proof fn law_given_up(policy: RetryPolicy, attempt: int, failures: nat)
    requires
        policy.max_attempts >= 1,
    ensures
        after_one_more(policy, attempt, false) is None,
        after_one_more(policy, attempt, true) is Some <==> attempt + 1 < policy.max_attempts,
        after_one_more(policy, attempt, true) matches Some(n) ==> n == attempt + 1,
        after_failures(policy, failures) is Some <==> failures < policy.max_attempts,
        after_failures(policy, failures) matches Some(n) ==> n == failures,
    decreases failures,
{
    if failures > 0 {
        law_given_up(policy, attempt, (failures - 1) as nat);
    }
}

/// The tools of a server are offered under its namespace, or its name where it has none.
pub proof fn law_space(config: RemoteServerConfig)
    ensures
        config.namespace matches Some(n) ==> config.space() == n@,
        config.namespace is None ==> config.space() == config.name@,
{
}

/// A call is tried again where what carries it failed, or where the service says so; never
/// where the proxy is set up wrongly.
pub proof fn law_retryable(error: &RemoteProxyError, answer: bool)
    requires
        call_ensures(RemoteProxyError::is_retryable, (error,), answer),
    ensures
        *error is Transport || *error is ClientInit ==> answer,
        *error is Config || *error is Auth ==> !answer,
        *error matches RemoteProxyError::Service { message, transient } ==> answer == transient,
{
}

/// A variable of the environment is read only where the value itself is not given.
pub proof fn law_auth_variable(auth: &AuthConfig, variable: Option<String>)
    requires
        call_ensures(auth_variable, (auth,), variable),
    ensures
        *auth matches AuthConfig::Bearer { token, token_env, header } ==> (token is Some
            ==> variable is None) && (token is None ==> text_of(variable) == text_of(token_env)),
        *auth matches AuthConfig::Header { header, value, value_env } ==> (value is Some
            ==> variable is None) && (value is None ==> text_of(variable) == text_of(value_env)),
{
}

} // verus!
