//! Where a session connects to: the server behind a target URL, the peer
//! behind a WebSocket request, and the role behind a request path.

use vstd::prelude::*;
use vstd::string::*;

verus! {

/// The port of a target URL that names none.
pub const DEFAULT_TLS_PORT: u16 = 443;

/// The error of the `http` crate for a text that is no URI.
#[verifier::external_type_specification]
#[verifier::external_body]
pub struct ExInvalidUri(http::uri::InvalidUri);

/// The error of the `url` crate for a text that is no URL.
#[verifier::external_type_specification]
#[verifier::external_body]
pub struct ExUrlParseError(url::ParseError);

/// What the `http` crate reads in a text: nothing where the text is no URI,
/// and else the scheme, the host and the port of the URI, each as far as the
/// URI has one.
pub uninterp spec fn uri_parts(text: Seq<char>) -> Option<
    (Option<Seq<char>>, Option<Seq<char>>, Option<u16>),
>;

/// What the `url` crate reads in a text: nothing where the text is no URL,
/// and else the scheme, the authority, the path and the host of the URL, the
/// host as far as the URL has one.
pub uninterp spec fn url_parts(text: Seq<char>) -> Option<
    (Seq<char>, Seq<char>, Seq<char>, Option<Seq<char>>),
>;

/// The text of a string that may be missing.
pub open spec fn text_of(s: Option<String>) -> Option<Seq<char>> {
    match s {
        Some(s) => Some(s@),
        None => None,
    }
}

/// The decimal digit for `d`.
pub open spec fn digit(d: nat) -> char {
    if d == 0 {
        '0'
    } else if d == 1 {
        '1'
    } else if d == 2 {
        '2'
    } else if d == 3 {
        '3'
    } else if d == 4 {
        '4'
    } else if d == 5 {
        '5'
    } else if d == 6 {
        '6'
    } else if d == 7 {
        '7'
    } else if d == 8 {
        '8'
    } else {
        '9'
    }
}

/// `n` in decimal digits, without leading zeros.
pub open spec fn decimal(n: nat) -> Seq<char>
    decreases n,
{
    if n < 10 {
        seq![digit(n)]
    } else {
        decimal(n / 10).push(digit(n % 10))
    }
}

/// The scheme, the host and the port of a URI, each as far as it has one.
#[derive(Clone, Debug)]
pub struct UriParts {
    pub scheme: Option<String>,
    pub host: Option<String>,
    pub port: Option<u16>,
}

/// The scheme, the authority and the path of a URL, and its host if it has
/// one.
#[derive(Clone, Debug)]
pub struct UrlParts {
    pub scheme: String,
    pub authority: String,
    pub path: String,
    pub host: Option<String>,
}

impl View for UriParts {
    type V = (Option<Seq<char>>, Option<Seq<char>>, Option<u16>);

    open spec fn view(&self) -> Self::V {
        (text_of(self.scheme), text_of(self.host), self.port)
    }
}

impl View for UrlParts {
    type V = (Seq<char>, Seq<char>, Seq<char>, Option<Seq<char>>);

    open spec fn view(&self) -> Self::V {
        (self.scheme@, self.authority@, self.path@, text_of(self.host))
    }
}

/// The host and the port of the server that a session is about.
#[derive(Clone, Debug)]
pub struct ServerTarget {
    pub host: String,
    pub port: u16,
}

/// Why a text names no server for a session.
#[derive(Clone, Copy, Debug, PartialEq, Eq, Structural)]
pub enum TargetError {
    /// The text is no URI.
    InvalidUri,
    /// The scheme is missing or is not `https`.
    NotHttps,
    /// There is no host.
    MissingHost,
}

/// Which side of a session a peer asks this process to take.
#[derive(Clone, Copy, Debug, PartialEq, Eq, Structural)]
pub enum Role {
    Prover,
    Verifier,
}

/// A request for a WebSocket connection: where to, and with which headers.
#[derive(Clone, Debug)]
pub struct WebSocketRequest {
    pub uri: String,
    pub headers: Vec<(String, String)>,
}

/// The text of the `str::parse` of a `http::Uri`, and of its `scheme`, of the
/// `host` of its `authority` and of its `port_u16`.
#[verifier::external_body]
fn parse_uri(text: &str) -> (parts: Result<UriParts, http::uri::InvalidUri>)
    ensures
        parts is Ok <==> uri_parts(text@) is Some,
        parts matches Ok(found) ==> uri_parts(text@) == Some(found@),
{
    let uri = text.parse::<http::Uri>()?;
    Ok(
        UriParts {
            scheme: uri.scheme().map(|s| s.as_str().to_string()),
            host: uri.authority().map(|a| a.host().to_string()),
            port: uri.port_u16(),
        },
    )
}

/// `Url::parse`, and the `scheme`, the `authority`, the `path` and the
/// `host` of the URL as text.
#[verifier::external_body]
fn parse_url(text: &str) -> (parts: Result<UrlParts, url::ParseError>)
    ensures
        parts is Ok <==> url_parts(text@) is Some,
        parts matches Ok(found) ==> url_parts(text@) == Some(found@),
{
    let url = url::Url::parse(text)?;
    Ok(
        UrlParts {
            scheme: url.scheme().to_string(),
            authority: url.authority().to_string(),
            path: url.path().to_string(),
            host: url.host().map(|h| h.to_string()),
        },
    )
}

/// Whether `key` has the shape of an identifier in its hyphenated form: 36
/// characters, with a hyphen behind the eighth and then behind every fourth
/// up to the twentieth digit.
pub open spec fn is_hyphenated(key: Seq<char>) -> bool {
    key.len() == 36 && key[8] == '-' && key[13] == '-' && key[18] == '-' && key[23] == '-'
}

/// `Uuid::new_v4` as text. The identifier is random: only the shape of its
/// hyphenated form is known.
#[verifier::external_body]
fn fresh_key() -> (key: String)
    ensures
        is_hyphenated(key@),
{
    uuid::Uuid::new_v4().to_string()
}

/// The decimal digit for `d` as text.
fn digit_text(d: u16) -> (text: &'static str)
    requires
        d < 10,
    ensures
        text@ == seq![digit(d as nat)],
{
    proof {
        reveal_strlit("0");
        reveal_strlit("1");
        reveal_strlit("2");
        reveal_strlit("3");
        reveal_strlit("4");
        reveal_strlit("5");
        reveal_strlit("6");
        reveal_strlit("7");
        reveal_strlit("8");
        reveal_strlit("9");
        assert("0"@ =~= seq!['0']);
        assert("1"@ =~= seq!['1']);
        assert("2"@ =~= seq!['2']);
        assert("3"@ =~= seq!['3']);
        assert("4"@ =~= seq!['4']);
        assert("5"@ =~= seq!['5']);
        assert("6"@ =~= seq!['6']);
        assert("7"@ =~= seq!['7']);
        assert("8"@ =~= seq!['8']);
        assert("9"@ =~= seq!['9']);
    }
    if d == 0 {
        "0"
    } else if d == 1 {
        "1"
    } else if d == 2 {
        "2"
    } else if d == 3 {
        "3"
    } else if d == 4 {
        "4"
    } else if d == 5 {
        "5"
    } else if d == 6 {
        "6"
    } else if d == 7 {
        "7"
    } else if d == 8 {
        "8"
    } else {
        "9"
    }
}

/// `n` in decimal digits, without leading zeros.
pub fn decimal_text(n: u16) -> (text: String)
    ensures
        text@ == decimal(n as nat),
    decreases n,
{
    if n < 10 {
        String::from_str(digit_text(n))
    } else {
        let mut text = decimal_text(n / 10);
        text.append(digit_text(n % 10));
        assert(text@ =~= decimal((n / 10) as nat).push(digit((n % 10) as nat)));
        text
    }
}

/// The server that the parts of a URI name: the scheme must be `https`, there
/// must be a host, and a missing port is the default one.
pub open spec fn target_of(parts: (Option<Seq<char>>, Option<Seq<char>>, Option<u16>)) -> Result<
    (Seq<char>, u16),
    TargetError,
> {
    if parts.0 != Some("https"@) {
        Err(TargetError::NotHttps)
    } else {
        match parts.1 {
            None => Err(TargetError::MissingHost),
            Some(host) => Ok(
                (
                    host,
                    match parts.2 {
                        Some(port) => port,
                        None => DEFAULT_TLS_PORT,
                    },
                ),
            ),
        }
    }
}

/// The server that a text names, read as a URI.
pub open spec fn target_of_text(text: Seq<char>) -> Result<(Seq<char>, u16), TargetError> {
    match uri_parts(text) {
        None => Err(TargetError::InvalidUri),
        Some(parts) => target_of(parts),
    }
}

/// The server that a URI names, from what was read of the URI.
pub fn target_from_parts(parts: Result<UriParts, http::uri::InvalidUri>) -> (result: Result<
    ServerTarget,
    TargetError,
>)
    ensures
        match parts {
            Err(_) => result == Err::<ServerTarget, TargetError>(TargetError::InvalidUri),
            Ok(found) => match target_of(found@) {
                Err(e) => result == Err::<ServerTarget, TargetError>(e),
                Ok(target) => result is Ok && result->Ok_0.host@ == target.0 && result->Ok_0.port
                    == target.1,
            },
        },
{
    let found = match parts {
        Ok(found) => found,
        Err(_) => {
            return Err(TargetError::InvalidUri);
        },
    };
    let is_https = match &found.scheme {
        Some(scheme) => *scheme == String::from_str("https"),
        None => false,
    };
    if !is_https {
        return Err(TargetError::NotHttps);
    }
    let port = match found.port {
        Some(port) => port,
        None => DEFAULT_TLS_PORT,
    };
    match found.host {
        Some(host) => Ok(ServerTarget { host, port }),
        None => Err(TargetError::MissingHost),
    }
}

/// The server that a target URL names.
pub fn resolve_target(uri: &str) -> (result: Result<ServerTarget, TargetError>)
    ensures
        match target_of_text(uri@) {
            Err(e) => result == Err::<ServerTarget, TargetError>(e),
            Ok(target) => result is Ok && result->Ok_0.host@ == target.0 && result->Ok_0.port
                == target.1,
        },
{
    target_from_parts(parse_uri(uri))
}

/// The host of the URI that a text holds, or nothing where the text is no
/// URI or the URI has no host.
pub open spec fn host_of_text(text: Seq<char>) -> Option<Seq<char>> {
    match uri_parts(text) {
        None => None,
        Some(parts) => parts.1,
    }
}

/// The host that was read of a URI.
pub fn host_from_parts(parts: Result<UriParts, http::uri::InvalidUri>) -> (host: Option<String>)
    ensures
        text_of(host) == (match parts {
            Err(_) => None::<Seq<char>>,
            Ok(found) => found@.1,
        }),
{
    match parts {
        Ok(found) => found.host,
        Err(_) => None,
    }
}

/// The host of a URI.
pub fn uri_host(uri: &str) -> (host: Option<String>)
    ensures
        text_of(host) == host_of_text(uri@),
{
    host_from_parts(parse_uri(uri))
}

/// The role that a request path asks for: `/prove` a prover, `/verify` a
/// verifier, any other path none.
pub open spec fn role_of(path: Seq<char>) -> Option<Role> {
    if path == "/prove"@ {
        Some(Role::Prover)
    } else if path == "/verify"@ {
        Some(Role::Verifier)
    } else {
        None
    }
}

/// The role that a request path asks this process to take.
pub fn role_for_path(path: &str) -> (role: Option<Role>)
    ensures
        role == role_of(path@),
{
    let asked = String::from_str(path);
    if asked == String::from_str("/prove") {
        Some(Role::Prover)
    } else if asked == String::from_str("/verify") {
        Some(Role::Verifier)
    } else {
        None
    }
}

/// The path at which a peer is asked to take `role`.
pub fn path_for_role(role: Role) -> (path: &'static str)
    ensures
        role_of(path@) == Some(role),
{
    proof {
        reveal_strlit("/prove");
        reveal_strlit("/verify");
        assert("/prove"@.len() != "/verify"@.len());
    }
    match role {
        Role::Prover => "/prove",
        Role::Verifier => "/verify",
    }
}

/// The address of a WebSocket peer: `ws://`, the host, a colon, the port in
/// decimal, and the path.
pub open spec fn websocket_uri(host: Seq<char>, port: u16, path: Seq<char>) -> Seq<char> {
    "ws://"@ + host + ":"@ + decimal(port as nat) + path
}

/// The headers of a WebSocket request to `host` with `key`, in their order.
pub open spec fn websocket_headers(host: Seq<char>, key: Seq<char>) -> Seq<
    (Seq<char>, Seq<char>),
> {
    seq![
        ("Host"@, host),
        ("Sec-WebSocket-Key"@, key),
        ("Sec-WebSocket-Version"@, "13"@),
        ("Connection"@, "Upgrade"@),
        ("Upgrade"@, "Websocket"@),
    ]
}

/// Names and values as text.
pub open spec fn header_texts(headers: Seq<(String, String)>) -> Seq<(Seq<char>, Seq<char>)> {
    Seq::new(headers.len(), |i: int| (headers[i].0@, headers[i].1@))
}

/// The request for a WebSocket connection to `path` at `host` and `port`,
/// with `key` as the key of the handshake.
pub fn websocket_request(host: &str, port: u16, path: &str, key: String) -> (request:
    WebSocketRequest)
    ensures
        request.uri@ == websocket_uri(host@, port, path@),
        header_texts(request.headers@) == websocket_headers(host@, key@),
{
    let mut uri = String::from_str("ws://");
    uri.append(host);
    uri.append(":");
    uri.append(decimal_text(port).as_str());
    uri.append(path);
    let mut headers: Vec<(String, String)> = Vec::new();
    headers.push((String::from_str("Host"), String::from_str(host)));
    headers.push((String::from_str("Sec-WebSocket-Key"), key));
    headers.push((String::from_str("Sec-WebSocket-Version"), String::from_str("13")));
    headers.push((String::from_str("Connection"), String::from_str("Upgrade")));
    headers.push((String::from_str("Upgrade"), String::from_str("Websocket")));
    assert(header_texts(headers@) =~= websocket_headers(host@, key@));
    WebSocketRequest { uri, headers }
}

/// The request for a WebSocket connection to `path` at `host` and `port`,
/// with a fresh random key.
pub fn create_websocket_request(host: &str, port: u16, path: &str) -> (request: WebSocketRequest)
    ensures
        request.uri@ == websocket_uri(host@, port, path@),
        exists|key: Seq<char>|
            is_hyphenated(key) && header_texts(request.headers@) == #[trigger] websocket_headers(
                host@,
                key,
            ),
{
    let key = fresh_key();
    let ghost key_text = key@;
    let request = websocket_request(host, port, path, key);
    assert(header_texts(request.headers@) == websocket_headers(host@, key_text));
    request
}

/// The one request of a session: its method, its target and its headers.
#[derive(Clone, Debug)]
pub struct ExchangeRequest {
    pub method: String,
    pub uri: String,
    pub headers: Vec<(String, String)>,
}

/// The headers of the request to `host` that carries `secret`, in their
/// order, with the caller's own behind them.
pub open spec fn exchange_headers(
    host: Seq<char>,
    secret: Seq<char>,
    extra: Seq<(Seq<char>, Seq<char>)>,
) -> Seq<(Seq<char>, Seq<char>)> {
    seq![("Host"@, host), ("Connection"@, "close"@), ("Secret"@, secret)] + extra
}

/// The `GET` request for `uri` at `host`. It asks the server to close the
/// connection behind the response and carries `secret` in a header of its
/// own, which a policy can then hide; `extra` headers follow in their order.
pub fn exchange_request(uri: &str, host: &str, secret: &str, extra: &Vec<(String, String)>) -> (request:
    ExchangeRequest)
    ensures
        request.method@ == "GET"@,
        request.uri@ == uri@,
        header_texts(request.headers@) == exchange_headers(host@, secret@, header_texts(extra@)),
{
    let mut headers: Vec<(String, String)> = Vec::new();
    headers.push((String::from_str("Host"), String::from_str(host)));
    headers.push((String::from_str("Connection"), String::from_str("close")));
    headers.push((String::from_str("Secret"), String::from_str(secret)));
    let ghost fixed = header_texts(headers@);
    assert(fixed =~= seq![("Host"@, host@), ("Connection"@, "close"@), ("Secret"@, secret@)]);
    let mut i: usize = 0;
    while i < extra.len()
        invariant
            0 <= i <= extra@.len(),
            fixed.len() == 3,
            header_texts(headers@) == fixed + header_texts(extra@).take(i as int),
        decreases extra.len() - i,
    {
        let name = extra[i].0.clone();
        let value = extra[i].1.clone();
        let ghost before = headers@;
        headers.push((name, value));
        proof {
            let texts = header_texts(headers@);
            let wanted = fixed + header_texts(extra@).take(i + 1);
            assert(header_texts(before).len() == 3 + i);
            assert(texts.len() == wanted.len());
            assert forall|k: int| 0 <= k < texts.len() implies texts[k] == wanted[k] by {
                if k < before.len() {
                    assert(texts[k] == header_texts(before)[k]);
                    assert(header_texts(before)[k] == (fixed + header_texts(extra@).take(
                        i as int,
                    ))[k]);
                } else {
                    assert(texts[k] == header_texts(extra@)[i as int]);
                }
            }
            assert(texts =~= wanted);
        }
        i += 1;
    }
    assert(header_texts(extra@).take(i as int) =~= header_texts(extra@));
    ExchangeRequest { method: String::from_str("GET"), uri: String::from_str(uri), headers }
}

/// The address at which a notary serves a session: `wss` where the notary's
/// own address is `https` or `wss` and else `ws`, the notary's authority,
/// its path unless that is a lone slash, and the session's identifier as the
/// query of `/notarize`.
pub open spec fn notary_session_address(
    parts: (Seq<char>, Seq<char>, Seq<char>, Option<Seq<char>>),
    session_id: Seq<char>,
) -> Seq<char> {
    (if parts.0 == "https"@ || parts.0 == "wss"@ {
        "wss"@
    } else {
        "ws"@
    }) + "://"@ + parts.1 + (if parts.2 == "/"@ {
        Seq::<char>::empty()
    } else {
        parts.2
    }) + "/notarize?sessionId="@ + session_id
}

/// The address at which the notary with the address `parts` serves the
/// session `session_id`.
pub fn notary_session_from_parts(parts: &UrlParts, session_id: &str) -> (address: String)
    ensures
        address@ == notary_session_address(parts@, session_id@),
{
    let secure = parts.scheme == String::from_str("https") || parts.scheme == String::from_str(
        "wss",
    );
    let mut address = if secure {
        String::from_str("wss")
    } else {
        String::from_str("ws")
    };
    address.append("://");
    address.append(parts.authority.as_str());
    if parts.path != String::from_str("/") {
        address.append(parts.path.as_str());
    } else {
        assert(address@ + Seq::<char>::empty() =~= address@);
    }
    address.append("/notarize?sessionId=");
    address.append(session_id);
    address
}

/// The address at which a notary serves the session `session_id`, by what
/// was read of the notary's own address: nothing where that was no URL.
pub fn notary_session_from_parsed(parts: Result<UrlParts, url::ParseError>, session_id: &str) -> (address:
    Option<String>)
    ensures
        address is Some <==> parts is Ok,
        address matches Some(a) ==> a@ == notary_session_address(parts->Ok_0@, session_id@),
{
    match parts {
        Ok(found) => Some(notary_session_from_parts(&found, session_id)),
        Err(_) => None,
    }
}

/// The address at which the notary at `notary_url` serves the session
/// `session_id`, or nothing where `notary_url` is no URL.
pub fn notary_session_url(notary_url: &str, session_id: &str) -> (address: Option<String>)
    ensures
        address is Some <==> url_parts(notary_url@) is Some,
        address matches Some(a) ==> a@ == notary_session_address(
            url_parts(notary_url@)->0,
            session_id@,
        ),
{
    notary_session_from_parsed(parse_url(notary_url), session_id)
}

/// The host of a URL, or why there is none, by what was read of the URL.
pub open spec fn host_of_url(parts: Option<(Seq<char>, Seq<char>, Seq<char>, Option<Seq<char>>)>) -> Result<
    Seq<char>,
    TargetError,
> {
    match parts {
        None => Err(TargetError::InvalidUri),
        Some(found) => match found.3 {
            None => Err(TargetError::MissingHost),
            Some(host) => Ok(host),
        },
    }
}

/// The host that was read of a URL, or why there is none.
pub fn target_host_from_parts(parts: Result<UrlParts, url::ParseError>) -> (result: Result<
    String,
    TargetError,
>)
    ensures
        match parts {
            Err(_) => result == Err::<String, TargetError>(TargetError::InvalidUri),
            Ok(found) => match found.host {
                None => result == Err::<String, TargetError>(TargetError::MissingHost),
                Some(host) => result is Ok && result->Ok_0@ == host@,
            },
        },
{
    match parts {
        Err(_) => Err(TargetError::InvalidUri),
        Ok(found) => match found.host {
            Some(host) => Ok(host),
            None => Err(TargetError::MissingHost),
        },
    }
}

/// The host of a target URL, or why there is none.
pub fn target_host(target_url: &str) -> (result: Result<String, TargetError>)
    ensures
        match host_of_url(url_parts(target_url@)) {
            Err(e) => result == Err::<String, TargetError>(e),
            Ok(host) => result is Ok && result->Ok_0@ == host,
        },
{
    target_host_from_parts(parse_url(target_url))
}

} // verus!
