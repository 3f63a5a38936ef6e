use vstd::prelude::*;
use vstd::string::StrSliceExecFns;

use crate::client::Client;
use crate::error::Error;
use crate::packet::{same_handshake, HandshakePacket};
use crate::socket::V4Socket;

verus! {

/// The most characters the texts given to one change of a url (the url, a
/// query key and value, or a new path) may hold together. A character
/// takes at most 4 bytes and at most 12 once percent-encoded, so within
/// this limit a changed url stays below the 4 GB (32-bit offsets) beyond
/// which the url parser panics; more is refused as `InvalidUrl`.
pub const MAX_URL_INPUT_CHARS: usize = 330_382_099;

/// Whether the texts of one change of a url, `chars` characters together,
/// are within the limit.
pub open spec fn within_limit(chars: nat) -> bool {
    chars <= MAX_URL_INPUT_CHARS
}

/// The serialization of `url` once the query pair `key=value` is appended
/// to it (form-urlencoded), if `url` parses as a url.
pub uninterp spec fn url_with_query_pair(url: Seq<char>, key: Seq<char>, value: Seq<char>) -> Option<Seq<char>>;

/// The path of `url`, if it parses as a url.
pub uninterp spec fn url_path(url: Seq<char>) -> Option<Seq<char>>;

/// The serialization of `url` with its path replaced by `path`, if `url`
/// parses as a url.
pub uninterp spec fn url_with_path(url: Seq<char>, path: Seq<char>) -> Option<Seq<char>>;

/// The scheme of `url`, lower-cased, if it parses as a url.
pub uninterp spec fn url_scheme(url: Seq<char>) -> Option<Seq<char>>;

/// The lowercase form of a text, as Unicode defines it.
pub uninterp spec fn lowercase(s: Seq<char>) -> Seq<char>;

/// Whether a text parses as a url.
pub open spec fn parses(url: Seq<char>) -> bool {
    url_path(url) is Some
}

/// Appends a query pair to a url.
/// Parses `url` with `url::Url::parse`, calls
/// `query_pairs_mut().append_pair(key, value)` and serializes the result.
/// The contract claims that the result is a function of the three texts,
/// that it is there exactly where `url` parses, and that the serialization
/// it gives parses again (the parser's own invariant).
#[verifier::external_body]
fn append_query_pair(url: &str, key: &str, value: &str) -> (res: Option<String>)
    requires
        within_limit(url@.len() + key@.len() + value@.len()),
    ensures
        match res {
            Some(s) => url_with_query_pair(url@, key@, value@) == Some(s@),
            None => url_with_query_pair(url@, key@, value@) is None,
        },
        res is Some <==> parses(url@),
        res matches Some(s) ==> parses(s@),
{
    let mut parsed = url::Url::parse(url).ok()?;
    parsed.query_pairs_mut().append_pair(key, value);
    Some(String::from(parsed))
}

/// The path of a url.
/// Parses `url` with `url::Url::parse` and calls `path`; the contract claims
/// that the result is a function of `url`, `None` standing for a parse error.
#[verifier::external_body]
fn path_of(url: &str) -> (res: Option<String>)
    ensures
        match res {
            Some(s) => url_path(url@) == Some(s@),
            None => url_path(url@) is None,
        },
{
    let parsed = url::Url::parse(url).ok()?;
    Some(parsed.path().to_string())
}

/// Replaces the path of a url.
/// Parses `url` with `url::Url::parse`, calls `set_path(path)` and
/// serializes the result. The contract claims that the result is a function
/// of the two texts and that it is there exactly where `url` parses; it
/// says nothing of whether the new serialization parses again.
#[verifier::external_body]
fn replace_path(url: &str, path: &str) -> (res: Option<String>)
    requires
        within_limit(url@.len() + path@.len()),
    ensures
        match res {
            Some(s) => url_with_path(url@, path@) == Some(s@),
            None => url_with_path(url@, path@) is None,
        },
        res is Some <==> parses(url@),
{
    let mut parsed = url::Url::parse(url).ok()?;
    parsed.set_path(path);
    Some(String::from(parsed))
}

/// The scheme of a url.
/// Parses `url` with `url::Url::parse` and calls `scheme`; the contract
/// claims that the result is a function of `url`, there exactly where `url`
/// parses.
#[verifier::external_body]
fn scheme_of(url: &str) -> (res: Option<String>)
    ensures
        match res {
            Some(s) => url_scheme(url@) == Some(s@),
            None => url_scheme(url@) is None,
        },
        res is Some <==> parses(url@),
{
    let parsed = url::Url::parse(url).ok()?;
    Some(parsed.scheme().to_string())
}

/// The lowercase form of a text.
/// Calls `str::to_lowercase`; the contract claims that the result is a
/// function of `s`.
#[verifier::external_body]
fn to_lowercase(s: &str) -> (res: String)
    ensures
        res@ == lowercase(s@),
{
    s.to_lowercase()
}

/// The number of characters of a text.
fn char_count(s: &str) -> (n: usize)
    ensures
        n == s@.len(),
{
    s.unicode_len()
}

/// The url that a client starts from: the protocol version `EIO=4` is
/// appended to the query, and an empty path (`/`) becomes `/engine.io/`.
/// `None` where the url does not parse, a change of it is beyond the limit,
/// or the url with the new path does not parse again.
pub open spec fn engine_url(url: Seq<char>) -> Option<Seq<char>> {
    if !parses(url) || !within_limit(url.len() + 4) {
        None
    } else {
        match url_with_query_pair(url, "EIO"@, "4"@) {
            None => None,
            Some(u) => if url_path(u) == Some("/"@) {
                if within_limit(u.len() + 11) {
                    match url_with_path(u, "/engine.io/"@) {
                        Some(v) => if parses(v) {
                            Some(v)
                        } else {
                            None
                        },
                        None => None,
                    }
                } else {
                    None
                }
            } else {
                Some(u)
            },
        }
    }
}

/// The url of a session: `sid=<session id>` is appended to the query.
/// `None` where the url does not parse or the change is beyond the limit.
pub open spec fn session_url(url: Seq<char>, sid: Seq<char>) -> Option<Seq<char>> {
    if within_limit(url.len() + 3 + sid.len()) {
        url_with_query_pair(url, "sid"@, sid)
    } else {
        None
    }
}

/// Whether a path is the empty one, which a client replaces by
/// `/engine.io/`.
pub fn needs_engine_path(path: &str) -> (b: bool)
    ensures
        b == (path@ == "/"@),
{
    let root = "/".to_string();
    path.to_string() == root
}

/// Whether a lower-cased upgrade names websocket.
pub fn names_websocket(lowered: &str) -> (b: bool)
    ensures
        b == (lowered@ == "websocket"@),
{
    let target = "websocket".to_string();
    lowered.to_string() == target
}

/// The websocket transport for a url of the given scheme: plain for `http`
/// and `ws`, secure for `https` and `wss`, refused for any other scheme.
pub fn websocket_plan(scheme: String, url: String, upgrade: bool) -> (res: Result<TransportPlan, Error>)
    ensures
        match websocket_security(scheme@) {
            None => res matches Err(Error::InvalidUrlScheme(s)) && s@ == scheme@,
            Some(secure) => res matches Ok(TransportPlan::Websocket { secure: sec, url: u, upgrade: up })
                && sec == secure && u@ == url@ && up == upgrade,
        },
{
    let secure = if scheme == "http".to_string() || scheme == "ws".to_string() {
        false
    } else if scheme == "https".to_string() || scheme == "wss".to_string() {
        true
    } else {
        return Err(Error::InvalidUrlScheme(scheme));
    };
    Ok(TransportPlan::Websocket { secure, url, upgrade })
}

/// Whether the server offers an upgrade to websocket: one of the offered
/// upgrades is `websocket` in any letter case.
pub open spec fn offers_websocket(upgrades: Seq<String>) -> bool {
    exists|i: int| 0 <= i < upgrades.len() && lowercase(#[trigger] upgrades[i]@) == "websocket"@
}

/// Whether a websocket over the url's scheme is secure (`https`, `wss`) or
/// not (`http`, `ws`); `None` for any other scheme.
pub open spec fn websocket_security(scheme: Seq<char>) -> Option<bool> {
    if scheme == "http"@ || scheme == "ws"@ {
        Some(false)
    } else if scheme == "https"@ || scheme == "wss"@ {
        Some(true)
    } else {
        None
    }
}

/// Recording a handshake: nothing changes where one was recorded already;
/// otherwise the session id joins the url's query and the handshake is
/// kept, or `InvalidUrl` leaves the builder as it was.
pub open spec fn handshake_transition(b: BuilderView, h: HandshakePacket) -> (Result<(), Error>, BuilderView) {
    if b.handshake is Some {
        (Ok(()), b)
    } else {
        match session_url(b.url, h.sid@) {
            Some(u) => (Ok(()), BuilderView { url: u, handshake: Some(h) }),
            None => (Err(Error::InvalidUrl()), b),
        }
    }
}

/// A handshake is made once: after one was recorded, recording another
/// changes nothing and succeeds.
pub proof fn law_handshake_once(b: BuilderView, first: HandshakePacket, second: HandshakePacket)
    requires
        handshake_transition(b, first).0 is Ok,
    ensures
        handshake_transition(handshake_transition(b, first).1, second) == (
            Ok::<(), Error>(()),
            handshake_transition(b, first).1,
        ),
        handshake_transition(b, first).1.handshake is Some,
{
}

/// The first handshake recorded is the server's, kept as it came: its
/// session id joins the url's query, and every field of it is kept.
pub proof fn law_first_handshake_kept(b: BuilderView, h: HandshakePacket)
    requires
        b.handshake is None,
        handshake_transition(b, h).0 is Ok,
    ensures
        handshake_transition(b, h).1.handshake == Some(h),
        handshake_transition(b, h).1.handshake->0.ping_interval == h.ping_interval,
        handshake_transition(b, h).1.handshake->0.ping_timeout == h.ping_timeout,
        Some(handshake_transition(b, h).1.url) == url_with_query_pair(b.url, "sid"@, h.sid@),
{
}

/// The url a client starts from depends on the path alone, not on the
/// scheme or anything else: where the url with `EIO=4` appended has the
/// empty path `/`, it is that url with the path `/engine.io/` (if that
/// parses); with any other path it is that url itself.
pub proof fn law_engine_url_by_path(url: Seq<char>, u: Seq<char>)
    requires
        parses(url),
        within_limit(url.len() + 4),
        url_with_query_pair(url, "EIO"@, "4"@) == Some(u),
    ensures
        url_path(u) == Some("/"@) && within_limit(u.len() + 11) && (url_with_path(u, "/engine.io/"@) matches Some(v) && parses(v))
            ==> engine_url(url) == url_with_path(u, "/engine.io/"@),
        url_path(u) != Some("/"@) ==> engine_url(url) == Some(u),
{
}

/// The transport a client is to be built on.
#[derive(Debug, PartialEq, Eq)]
pub enum TransportPlan {
    /// Long polling over http(s) at `url`.
    Polling { url: String },
    /// A websocket at `url`, secure or not. With `upgrade`, the session
    /// already opened is upgraded to it; otherwise the handshake is made
    /// over the websocket itself.
    Websocket { secure: bool, url: String, upgrade: bool },
}

/// What building a websocket transport gives for a builder:
/// `InvalidUrlScheme` for a scheme other than `http`, `https`, `ws`, `wss`,
/// and otherwise a websocket at the url that upgrades the session where one
/// was opened already. (A builder's url always parses, so its scheme is
/// there.)
pub open spec fn websocket_result(b: BuilderView, res: Result<TransportPlan, Error>) -> bool {
    match url_scheme(b.url) {
        None => false,
        Some(scheme) => match websocket_security(scheme) {
            None => res matches Err(Error::InvalidUrlScheme(s)) && s@ == scheme,
            Some(secure) => res matches Ok(TransportPlan::Websocket { secure: sec, url, upgrade })
                && sec == secure && url@ == b.url && upgrade == b.handshake is Some,
        },
    }
}

/// Which way building with fallback goes once the first attempt is known.
#[derive(Debug, PartialEq, Eq)]
pub enum Fallback {
    /// Keep what the first attempt gave.
    KeepFirst,
    /// Build over long polling instead.
    Polling,
}

/// The state of a client under construction: its url, which always
/// parses, and, once made, the handshake that opened its session.
#[derive(Debug)]
pub struct ClientBuilder {
    url: String,
    handshake: Option<HandshakePacket>,
}

/// The mathematical value of a builder.
pub struct BuilderView {
    pub url: Seq<char>,
    pub handshake: Option<HandshakePacket>,
}

impl View for ClientBuilder {
    type V = BuilderView;

    closed spec fn view(&self) -> BuilderView {
        BuilderView { url: self.url@, handshake: self.handshake }
    }
}

impl ClientBuilder {
    /// A builder's url parses.
    #[verifier::type_invariant]
    spec fn url_parses(self) -> bool {
        parses(self.url@)
    }

    /// A builder for the server at `url` (a url's serialization).
    pub fn new(url: String) -> (res: Result<ClientBuilder, Error>)
        ensures
            match engine_url(url@) {
                Some(u) => res matches Ok(b) && b@ == (BuilderView { url: u, handshake: None }),
                None => res == Err::<ClientBuilder, Error>(Error::InvalidUrl()),
            },
            res matches Ok(b) ==> parses(b@.url),
    {
        proof {
            reveal_strlit("EIO");
            reveal_strlit("4");
            reveal_strlit("/engine.io/");
        }
        if char_count(url.as_str()) > MAX_URL_INPUT_CHARS - 4 {
            return Err(Error::InvalidUrl());
        }
        let with_version = match append_query_pair(url.as_str(), "EIO", "4") {
            Some(u) => u,
            None => return Err(Error::InvalidUrl()),
        };
        let path = match path_of(with_version.as_str()) {
            Some(p) => p,
            None => return Err(Error::InvalidUrl()),
        };
        if !needs_engine_path(path.as_str()) {
            return Ok(ClientBuilder { url: with_version, handshake: None });
        }
        if char_count(with_version.as_str()) > MAX_URL_INPUT_CHARS - 11 {
            return Err(Error::InvalidUrl());
        }
        let replaced = match replace_path(with_version.as_str(), "/engine.io/") {
            Some(u) => u,
            None => return Err(Error::InvalidUrl()),
        };
        match path_of(replaced.as_str()) {
            Some(_) => Ok(ClientBuilder { url: replaced, handshake: None }),
            None => Err(Error::InvalidUrl()),
        }
    }

    /// A copy of the builder.
    pub fn duplicate(&self) -> (b: ClientBuilder)
        ensures
            b@.url == self@.url,
            b@.handshake is Some == self@.handshake is Some,
            self@.handshake is Some ==> same_handshake(b@.handshake->0, self@.handshake->0),
    {
        proof {
            use_type_invariant(self);
        }
        let handshake = match &self.handshake {
            Some(h) => Some(h.duplicate()),
            None => None,
        };
        ClientBuilder { url: self.url.clone(), handshake }
    }

    /// The builder's url.
    pub fn url(&self) -> (u: &String)
        ensures
            u@ == self@.url,
            parses(u@),
    {
        proof {
            use_type_invariant(self);
        }
        &self.url
    }

    /// The handshake that opened the session, once made.
    pub fn handshake(&self) -> (h: &Option<HandshakePacket>)
        ensures
            *h == self@.handshake,
    {
        &self.handshake
    }

    /// Whether the session was opened already (a handshake is made once).
    pub fn has_handshake(&self) -> (b: bool)
        ensures
            b == self@.handshake is Some,
    {
        self.handshake.is_some()
    }

    /// Records the handshake the server answered with: the session id joins
    /// the url's query. A builder that made its handshake already is left
    /// as it is. The only failure is a session id beyond the limit.
    pub fn handshake_with_transport(&mut self, handshake: HandshakePacket) -> (res: Result<(), Error>)
        ensures
            (res, final(self)@) == handshake_transition(old(self)@, handshake),
            parses(old(self)@.url),
            parses(final(self)@.url),
            old(self)@.handshake is None && within_limit(old(self)@.url.len() + 3 + handshake.sid@.len())
                ==> res is Ok,
    {
        proof {
            use_type_invariant(&*self);
            reveal_strlit("sid");
        }
        if self.handshake.is_some() {
            return Ok(());
        }
        let url_len = char_count(self.url.as_str());
        let sid_len = char_count(handshake.sid.as_str());
        if url_len > MAX_URL_INPUT_CHARS - 3 || sid_len > MAX_URL_INPUT_CHARS - 3 - url_len {
            return Err(Error::InvalidUrl());
        }
        match append_query_pair(self.url.as_str(), "sid", handshake.sid.as_str()) {
            Some(u) => {
                *self = ClientBuilder { url: u, handshake: Some(handshake) };
                Ok(())
            },
            None => Err(Error::InvalidUrl()),
        }
    }

    /// Whether the server offers an upgrade to websocket.
    pub fn websocket_upgrade(&self) -> (b: bool)
        requires
            self@.handshake is Some,
        ensures
            b == offers_websocket(self@.handshake->0.upgrades@),
    {
        let upgrades = &self.handshake.as_ref().unwrap().upgrades;
        let mut i: usize = 0;
        while i < upgrades.len()
            invariant
                i <= upgrades@.len(),
                self@.handshake is Some,
                upgrades@ == self@.handshake->0.upgrades@,
                forall|j: int| 0 <= j < i ==> lowercase(#[trigger] upgrades@[j]@) != "websocket"@,
            decreases upgrades@.len() - i,
        {
            let lower = to_lowercase(upgrades[i].as_str());
            if names_websocket(lower.as_str()) {
                assert(lowercase(upgrades@[i as int]@) == "websocket"@);
                return true;
            }
            i = i + 1;
        }
        false
    }

    /// The websocket transport for the builder's url: plain for `http` and
    /// `ws`, secure for `https` and `wss`, refused for any other scheme. It
    /// upgrades the session where one was opened already.
    pub fn build_websocket(&self) -> (res: Result<TransportPlan, Error>)
        ensures
            url_scheme(self@.url) is Some,
            websocket_result(self@, res),
    {
        proof {
            use_type_invariant(self);
        }
        match scheme_of(self.url.as_str()) {
            Some(scheme) => websocket_plan(scheme, self.url.clone(), self.handshake.is_some()),
            None => Err(Error::InvalidUrl()),
        }
    }

    /// The websocket transport, where the server offers the upgrade;
    /// `IllegalWebsocketUpgrade` where it does not.
    pub fn build_websocket_with_upgrade(&self) -> (res: Result<TransportPlan, Error>)
        requires
            self@.handshake is Some,
        ensures
            !offers_websocket(self@.handshake->0.upgrades@) ==> res == Err::<TransportPlan, Error>(
                Error::IllegalWebsocketUpgrade(),
            ),
            offers_websocket(self@.handshake->0.upgrades@) ==> websocket_result(self@, res),
    {
        if self.websocket_upgrade() {
            self.build_websocket()
        } else {
            Err(Error::IllegalWebsocketUpgrade())
        }
    }

    /// The polling transport at the session's url.
    pub fn build_polling(&self) -> (plan: TransportPlan)
        requires
            self@.handshake is Some,
        ensures
            plan matches TransportPlan::Polling { url } && url@ == self@.url,
    {
        TransportPlan::Polling { url: self.url.clone() }
    }

    /// The transport of an opened session: a websocket where the server
    /// offers the upgrade, long polling otherwise.
    pub fn build(&self) -> (res: Result<TransportPlan, Error>)
        requires
            self@.handshake is Some,
        ensures
            offers_websocket(self@.handshake->0.upgrades@) ==> websocket_result(self@, res),
            !offers_websocket(self@.handshake->0.upgrades@) ==> (res matches Ok(
                TransportPlan::Polling { url },
            ) && url@ == self@.url),
    {
        if self.websocket_upgrade() {
            self.build_websocket_with_upgrade()
        } else {
            Ok(self.build_polling())
        }
    }

    /// Building with fallback: where the first attempt (`build`) failed,
    /// build over long polling instead; otherwise keep what it gave.
    pub fn build_with_fallback(&self, first_failed: bool) -> (f: Fallback)
        ensures
            f == (if first_failed { Fallback::Polling } else { Fallback::KeepFirst }),
    {
        if first_failed {
            Fallback::Polling
        } else {
            Fallback::KeepFirst
        }
    }

    /// The client of the opened session, not connected yet.
    pub fn into_client(self) -> (c: Client)
        requires
            self@.handshake is Some,
        ensures
            !c@.connected,
            c@.pending.len() == 0,
            c.handshake_data() == self@.handshake->0,
    {
        let handshake = self.handshake.unwrap();
        Client::new(V4Socket::new(handshake))
    }
}

} // verus!
