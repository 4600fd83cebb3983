//! Who gets what from the HTTP router.

use crate::text::same_text;
use crate::misc::{address_of, forbidden, is_forbidden, networks_of};
use vstd::prelude::*;
use vstd::string::StringExecFns;

verus! {

/// A change of what a router hands out.
pub enum HttpRouterCmd {
    AddAlias(String, String),
    RemoveAlias(String),
    AddAllowedNet(String),
    RemoveAllowedNet(String),
    AddKey(String),
    RemoveKey(String),
}

/// The answer to a request.
#[derive(Debug, Clone, Copy, PartialEq, Eq, Structural)]
pub enum RouteAnswer {
    /// The address or the key is not let in.
    Forbidden,
    /// The key could not be looked up.
    Failure,
    /// The alias has no stream.
    Unavailable,
    /// The stream of the alias.
    Stream,
}

impl RouteAnswer {
    /// The status of the answer.
    pub fn status(&self) -> (r: u16)
        ensures
            r == match *self {
                RouteAnswer::Forbidden => 403,
                RouteAnswer::Failure => 500,
                RouteAnswer::Unavailable => 503,
                RouteAnswer::Stream => 200u16,
            },
    {
        match self {
            RouteAnswer::Forbidden => 403,
            RouteAnswer::Failure => 500,
            RouteAnswer::Unavailable => 503,
            RouteAnswer::Stream => 200,
        }
    }

    /// The text of the answer, where it is one.
    pub fn text(&self, alias: &str) -> (r: Option<String>)
        ensures
            (match r {
                Some(t) => Some(t@),
                None => None,
            }) == match *self {
                RouteAnswer::Forbidden => Some("Access denied"@),
                RouteAnswer::Failure => None,
                RouteAnswer::Unavailable => Some("Service unavailable "@ + alias@),
                RouteAnswer::Stream => None,
            },
    {
        match self {
            RouteAnswer::Forbidden => Some(String::from_str("Access denied")),
            RouteAnswer::Failure => None,
            RouteAnswer::Unavailable => {
                let mut t = String::from_str("Service unavailable ");
                t.append(alias);
                Some(t)
            },
            RouteAnswer::Stream => None,
        }
    }
}

/// Whether a peer is let in: only one with an address of version 4 is, and only if
/// the networks that are let in do not keep it out. No answer where a text that has
/// to be looked at is no address or no network.
pub open spec fn peer_admitted(is_ipv4: bool, kept_out: Option<bool>) -> Option<bool> {
    if !is_ipv4 {
        Some(false)
    } else {
        match kept_out {
            Some(k) => Some(!k),
            None => None,
        }
    }
}

/// Whether a peer is let in by the networks that a router lists.
pub fn is_peer_admitted(ip: &str, is_ipv4: bool, allowed: &Vec<String>) -> (r: Option<bool>)
    ensures
        r == peer_admitted(is_ipv4, forbidden(address_of(ip@), networks_of(allowed@))),
{
    if !is_ipv4 {
        return Some(false);
    }
    match is_forbidden(ip, allowed) {
        Some(k) => Some(!k),
        None => None,
    }
}

/// Whether a list holds an alias.
pub open spec fn lists_alias(aliases: Seq<String>, alias: Seq<char>) -> bool {
    exists|i: int| 0 <= i < aliases.len() && (#[trigger] aliases[i])@ == alias
}

fn has_alias(aliases: &Vec<String>, alias: &str) -> (r: bool)
    ensures
        r == lists_alias(aliases@, alias@),
{
    let mut i: usize = 0;
    while i < aliases.len()
        invariant
            i <= aliases@.len(),
            forall|k: int| 0 <= k < i ==> (#[trigger] aliases@[k])@ != alias@,
        decreases aliases@.len() - i,
    {
        if same_text(aliases[i].as_str(), alias) {
            assert(aliases@[i as int]@ == alias@);
            return true;
        }
        i = i + 1;
    }
    false
}

/// The answer to a request for an alias, by what was found of its key: none where
/// looking it up failed.
pub open spec fn route_answer(known_key: Option<bool>, has_alias: bool) -> RouteAnswer {
    match known_key {
        None => RouteAnswer::Failure,
        Some(false) => RouteAnswer::Forbidden,
        Some(true) => if has_alias {
            RouteAnswer::Stream
        } else {
            RouteAnswer::Unavailable
        },
    }
}

/// The answer to a request of a peer: first the peer is held against the networks
/// that are let in, then the key is, then the alias.
pub open spec fn request_answer(
    admitted: Option<bool>,
    known_key: Option<bool>,
    has_alias: bool,
) -> Option<RouteAnswer> {
    match admitted {
        None => None,
        Some(false) => Some(RouteAnswer::Forbidden),
        Some(true) => Some(route_answer(known_key, has_alias)),
    }
}

/// The whole answer to a request for an alias. `known_key` is what looking up its key
/// gave, none where that failed, and `aliases` lists those that have a stream. No
/// answer where a text that has to be looked at is no address or no network.
pub fn answer_request(
    ip: &str,
    is_ipv4: bool,
    allowed: &Vec<String>,
    known_key: Option<bool>,
    alias: &str,
    aliases: &Vec<String>,
) -> (r: Option<RouteAnswer>)
    ensures
        r == request_answer(
            peer_admitted(is_ipv4, forbidden(address_of(ip@), networks_of(allowed@))),
            known_key,
            lists_alias(aliases@, alias@),
        ),
{
    match is_peer_admitted(ip, is_ipv4, allowed) {
        None => None,
        Some(false) => Some(RouteAnswer::Forbidden),
        Some(true) => Some(
            match known_key {
                None => RouteAnswer::Failure,
                Some(false) => RouteAnswer::Forbidden,
                Some(true) => if has_alias(aliases, alias) {
                    RouteAnswer::Stream
                } else {
                    RouteAnswer::Unavailable
                },
            },
        ),
    }
}

/// A stream is handed out only to a peer that is let in and has a known key, and only
/// for an alias that is listed.
pub proof fn law_stream_is_guarded(
    is_ipv4: bool,
    kept_out: Option<bool>,
    known_key: Option<bool>,
    has_alias: bool,
)
    ensures
        request_answer(peer_admitted(is_ipv4, kept_out), known_key, has_alias) == Some(
            RouteAnswer::Stream,
        ) <==> is_ipv4 && kept_out == Some(false) && known_key == Some(true) && has_alias,
{
}

/// The answer to a request for something else: a status and a text.
pub fn answer_elsewhere(uri: &str) -> (r: (u16, String))
    ensures
        r.0 == 404,
        r.1@ == "Not fount "@ + uri@,
{
    let mut t = String::from_str("Not fount ");
    t.append(uri);
    (404, t)
}

/// Whether a stream that is handed out goes on: as long as the key is known.
pub fn keeps_streaming(known_key: Option<bool>) -> (r: bool)
    ensures
        r == (known_key == Some(true)),
{
    match known_key {
        Some(known) => known,
        None => false,
    }
}

/// What is done with a new alias.
#[derive(Debug, Clone, Copy, PartialEq, Eq, Structural)]
pub enum AliasUpdate {
    /// There is no such router.
    NoRouter,
    /// The alias is as it was.
    Unchanged,
    /// The alias is stored and the router told.
    Store,
}

/// What is done with a new alias, by whether the router runs and which socket
/// the alias had.
pub fn alias_update(running: bool, stored: &Option<String>, socket: &str) -> (r: AliasUpdate)
    ensures
        r == if !running {
            AliasUpdate::NoRouter
        } else if stored matches Some(s) && s@ == socket@ {
            AliasUpdate::Unchanged
        } else {
            AliasUpdate::Store
        },
{
    if !running {
        return AliasUpdate::NoRouter;
    }
    if let Some(s) = stored {
        if same_text(s.as_str(), socket) {
            return AliasUpdate::Unchanged;
        }
    }
    AliasUpdate::Store
}

/// Whether a failure to connect is worth a word: every sixtieth is.
pub fn is_failure_reported(error_count: u64) -> (r: bool)
    ensures
        r == (error_count % 60 == 0),
{
    error_count % 60 == 0
}

/// Each refusal has its own answer: a peer that is not let in and a key that is not known
/// are forbidden, a key that could not be looked up is a failure, and an alias that is not
/// listed is not available.
pub proof fn law_refusals(
    is_ipv4: bool,
    kept_out: Option<bool>,
    known_key: Option<bool>,
    has_alias: bool,
)
    ensures
        ({
            let r = request_answer(peer_admitted(is_ipv4, kept_out), known_key, has_alias);
            let inside = is_ipv4 && kept_out == Some(false);
            &&& r == Some(RouteAnswer::Forbidden) <==> !is_ipv4 || kept_out == Some(true) || inside
                && known_key == Some(false)
            &&& r == Some(RouteAnswer::Failure) <==> inside && known_key is None
            &&& r == Some(RouteAnswer::Unavailable) <==> inside && known_key == Some(true)
                && !has_alias
            &&& r is None <==> is_ipv4 && kept_out is None
        }),
{
}

} // verus!
