//! The decisions of the service's streaming handlers: which headers go on to
//! the driver API, and what each event of a client's acknowledgement stream
//! asks of the reader.

use vstd::prelude::*;
use crate::errors::AppError;
use crate::types::{ClientId, NotificationId, TokenOrigin};

verus! {

/// The optional headers of a request that are passed on to the driver API,
/// in this order.
pub struct OptionalHeaders {
    pub x_package: Option<String>,
    pub x_bundle_version: Option<String>,
    pub x_client_version: Option<String>,
    pub x_config_version: Option<String>,
    pub x_react_bundle_version: Option<String>,
    pub x_device: Option<String>,
}

/// The header `name` with value `v`, when the value is there.
pub open spec fn header_if(name: Seq<char>, v: Option<String>) -> Seq<(Seq<char>, Seq<char>)> {
    match v {
        Some(s) => seq![(name, s@)],
        None => Seq::empty(),
    }
}

/// The headers passed on: each one present, in the fixed order.
pub open spec fn api_headers_spec(h: OptionalHeaders) -> Seq<(Seq<char>, Seq<char>)> {
    header_if("x-package"@, h.x_package) + header_if("x-bundle-version"@, h.x_bundle_version) + header_if(
        "x-client-version"@,
        h.x_client_version,
    ) + header_if("x-config-version"@, h.x_config_version) + header_if(
        "x-react-bundle-version"@,
        h.x_react_bundle_version,
    ) + header_if("x-device"@, h.x_device)
}

pub open spec fn pairs_view(v: Seq<(String, String)>) -> Seq<(Seq<char>, Seq<char>)> {
    Seq::new(v.len(), |i: int| (v[i].0@, v[i].1@))
}

fn push_header(headers: &mut Vec<(String, String)>, name: &str, value: &Option<String>)
    ensures
        pairs_view(final(headers)@) == pairs_view(old(headers)@) + header_if(name@, *value),
{
    let ghost before = headers@;
    match value {
        Some(v) => {
            headers.push((String::from_str(name), v.clone()));
            proof {
                let lhs = pairs_view(headers@);
                let rhs = pairs_view(before) + header_if(name@, *value);
                assert(pairs_view(before).len() == before.len());
                assert forall|j: int| 0 <= j < lhs.len() implies lhs[j] == rhs[j] by {
                    if j < before.len() {
                        assert(lhs[j] == pairs_view(before)[j]);
                    }
                }
                assert(lhs =~= rhs);
            }
        },
        None => {
            assert(pairs_view(headers@) =~= pairs_view(before) + header_if(name@, *value));
        },
    }
}

/// The headers to pass on to the driver API: each optional header that the
/// client sent, in a fixed order.
pub fn build_api_headers(headers: &OptionalHeaders) -> (r: Vec<(String, String)>)
    ensures
        pairs_view(r@) == api_headers_spec(*headers),
{
    let mut r: Vec<(String, String)> = Vec::new();
    assert(pairs_view(r@) =~= Seq::<(Seq<char>, Seq<char>)>::empty());
    push_header(&mut r, "x-package", &headers.x_package);
    push_header(&mut r, "x-bundle-version", &headers.x_bundle_version);
    push_header(&mut r, "x-client-version", &headers.x_client_version);
    push_header(&mut r, "x-config-version", &headers.x_config_version);
    push_header(&mut r, "x-react-bundle-version", &headers.x_react_bundle_version);
    push_header(&mut r, "x-device", &headers.x_device);
    assert(api_headers_spec(*headers) =~= Seq::<(Seq<char>, Seq<char>)>::empty() + header_if(
        "x-package"@,
        headers.x_package,
    ) + header_if("x-bundle-version"@, headers.x_bundle_version) + header_if(
        "x-client-version"@,
        headers.x_client_version,
    ) + header_if("x-config-version"@, headers.x_config_version) + header_if(
        "x-react-bundle-version"@,
        headers.x_react_bundle_version,
    ) + header_if("x-device"@, headers.x_device));
    r
}

/// The app a token was issued by: the one its `token-origin` header names,
/// else the driver app.
pub fn token_origin_or_default(raw: Option<&str>) -> (o: TokenOrigin)
    ensures
        match raw {
            Some(s) => (exists|v: TokenOrigin| crate::types::token_origin_name(v) == s@) ==> crate::types::token_origin_name(o) == s@,
            None => true,
        },
        (raw is None || forall|v: TokenOrigin| crate::types::token_origin_name(v) != raw->0@) ==> o
            == TokenOrigin::DriverApp,
{
    match raw {
        Some(s) => match TokenOrigin::from_name(s) {
            Some(o) => o,
            None => TokenOrigin::DriverApp,
        },
        None => TokenOrigin::DriverApp,
    }
}

/// Who a connecting client is, as far as its headers tell: a request without
/// a token is refused; in development the token is the client id; else the
/// token is to be authenticated.
pub enum Identity {
    Known(ClientId),
    Authenticate(String),
}

pub fn identify(token: Option<String>, dev: bool) -> (r: Result<Identity, AppError>)
    ensures
        token is None ==> (r matches Err(AppError::InvalidRequest(m)) && m@ == "token (token - Header) not found"@),
        token matches Some(t) ==> dev ==> (r matches Ok(Identity::Known(c)) && c@ == t@),
        token matches Some(t) ==> !dev ==> (r matches Ok(Identity::Authenticate(s)) && s@ == t@),
{
    match token {
        None => Err(AppError::InvalidRequest(String::from_str("token (token - Header) not found"))),
        Some(t) => if dev {
            Ok(Identity::Known(ClientId(t)))
        } else {
            Ok(Identity::Authenticate(t))
        },
    }
}

/// What happened on a client's acknowledgement stream.
pub enum AckStreamEvent {
    /// A message with this notification id; empty when the client only
    /// opens the stream.
    Message(String),
    /// The client closed the stream.
    End,
    /// The stream failed.
    Error,
    /// The connection outlived its time limit.
    TimedOut,
}

/// What the handler does about an event.
#[derive(Debug, PartialEq, Eq)]
pub enum AckStreamAction {
    /// Nothing: the opening message carries no id.
    Ignore,
    /// Pass the acknowledgement on to the reader.
    Ack(NotificationId),
    /// Tell the reader the client is gone and stop, recording how the
    /// connection ended.
    Disconnect(&'static str),
}

pub fn on_ack_stream_event(event: AckStreamEvent) -> (a: AckStreamAction)
    ensures
        match event {
            AckStreamEvent::Message(id) => if id@.len() == 0 {
                a == AckStreamAction::Ignore
            } else {
                a matches AckStreamAction::Ack(n) && n@ == id@
            },
            AckStreamEvent::End | AckStreamEvent::Error => a matches AckStreamAction::Disconnect(r) && r@ == "DISCONNECTED"@,
            AckStreamEvent::TimedOut => a matches AckStreamAction::Disconnect(r) && r@ == "TIMED_OUT"@,
        },
{
    match event {
        AckStreamEvent::Message(id) => {
            if id.as_str().is_empty() {
                AckStreamAction::Ignore
            } else {
                AckStreamAction::Ack(NotificationId(id))
            }
        },
        AckStreamEvent::End => AckStreamAction::Disconnect("DISCONNECTED"),
        AckStreamEvent::Error => AckStreamAction::Disconnect("DISCONNECTED"),
        AckStreamEvent::TimedOut => AckStreamAction::Disconnect("TIMED_OUT"),
    }
}

} // verus!
