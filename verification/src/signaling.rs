//! The client's side of the signaling exchange.
//!
//! The client makes an offer, waits until its candidates are gathered,
//! posts the complete offer to the signaling endpoint once, and takes the
//! answer as the description of the remote side. Here are the decisions of
//! that exchange; the connection itself and the HTTP round trip are their
//! caller's.

use vstd::prelude::*;
use crate::codec::{decode, decode_spec, encode, encode_spec, frame, frame_spec, unframe, unframe_spec};
use crate::description::{DescriptionView, SessionDescription};
use crate::error::SignalingError;
use crate::gate::ConnectivityGate;
use crate::identity::{identity_of, issued_with, IdentityIssuer, SessionIdentity};
use crate::json::text_of;
use crate::registry::{ChannelState, DataChannel};
use crate::session::{ConnectionState, PeerSession};

verus! {

/// The STUN server that is used where none is given.
pub open spec fn default_ice_server() -> Seq<char> {
    "stun:stun.l.google.com:19302"@
}

/// The signaling endpoint that is used where none is given.
pub open spec fn default_connect_url() -> Seq<char> {
    "http://localhost:3000/connect"@
}

/// What the client knows of its connection: the session, the ICE server
/// it was configured with, and the descriptions set so far.
#[derive(Clone, Debug, PartialEq, Eq)]
pub struct PeerConnection {
    pub session: PeerSession,
    pub ice_server: String,
    pub local_description: Option<SessionDescription>,
    pub remote_description: Option<SessionDescription>,
}

/// A [`PeerConnection`] as plain values.
pub ghost struct PeerConnectionView {
    pub session: PeerSession,
    pub ice_server: Seq<char>,
    pub local_description: Option<DescriptionView>,
    pub remote_description: Option<DescriptionView>,
}

/// An optional description as plain values.
pub open spec fn described(d: Option<SessionDescription>) -> Option<DescriptionView> {
    match d {
        Some(d) => Some(d@),
        None => None,
    }
}

impl View for PeerConnection {
    type V = PeerConnectionView;

    open spec fn view(&self) -> PeerConnectionView {
        PeerConnectionView {
            session: self.session,
            ice_server: self.ice_server@,
            local_description: described(self.local_description),
            remote_description: described(self.remote_description),
        }
    }
}

/// The connection that [`create_peer_connection`] makes of an identity and
/// an ICE server, or of the default one if none is given.
pub open spec fn new_connection(
    ice_server: Option<Seq<char>>,
    identity: SessionIdentity,
) -> PeerConnectionView {
    PeerConnectionView {
        session: PeerSession { identity, connection_state: ConnectionState::New },
        ice_server: match ice_server {
            Some(url) => url,
            None => default_ice_server(),
        },
        local_description: None,
        remote_description: None,
    }
}

/// A new connection with a session of its own, configured with the given
/// ICE server, or with the default one if none is given.
///
/// The session's identity is made of the given bits, which were drawn at
/// random, and is issued by the given issuer: no other connection made with
/// that issuer has it. Bits that were issued before are refused with
/// `SignalingHandshakeFailed`, and then nothing changes.
pub fn create_peer_connection(
    ice_server: Option<String>,
    issuer: &mut IdentityIssuer,
    bits: u128,
) -> (r: Result<PeerConnection, SignalingError>)
    ensures
        match r {
            Ok(pc) => {
                &&& pc@ == new_connection(text_of(ice_server), identity_of(bits))
                &&& issued_with(old(issuer)@, identity_of(bits)) == Some(final(issuer)@)
            },
            Err(e) => {
                &&& e == SignalingError::SignalingHandshakeFailed
                &&& issued_with(old(issuer)@, identity_of(bits)) is None
                &&& final(issuer)@ == old(issuer)@
            },
        },
{
    match issuer.issue(bits) {
        None => Err(SignalingError::SignalingHandshakeFailed),
        Some(identity) => {
            let ice_server = match ice_server {
                Some(url) => url,
                None => "stun:stun.l.google.com:19302".to_owned(),
            };
            Ok(
                PeerConnection {
                    session: PeerSession::new(identity),
                    ice_server,
                    local_description: None,
                    remote_description: None,
                },
            )
        },
    }
}

/// The payload text of the connection's local description. Fails with
/// `SignalingHandshakeFailed` exactly when no local description is set.
pub fn get_local_description(pc: &PeerConnection) -> (r: Result<String, SignalingError>)
    ensures
        match r {
            Ok(text) => pc@.local_description is Some && text@ == encode_spec(
                pc@.local_description->0,
            ),
            Err(e) => pc@.local_description is None && e
                == SignalingError::SignalingHandshakeFailed,
        },
{
    match &pc.local_description {
        Some(d) => Ok(encode(d)),
        None => Err(SignalingError::SignalingHandshakeFailed),
    }
}

/// A data channel of the connection with the given label. It is not open
/// yet.
pub fn create_data_channel(pc: &PeerConnection, label: &str) -> (channel: DataChannel)
    ensures
        channel.label@ == label@,
        channel.ready_state == ChannelState::Connecting,
        channel.owning_session == pc.session.identity,
{
    DataChannel {
        label: label.to_owned(),
        ready_state: ChannelState::Connecting,
        owning_session: pc.session.identity,
    }
}

/// How the client comes to the remote description.
#[derive(Clone, Debug, PartialEq, Eq)]
pub enum SignalingMode {
    /// By posting its offer to the endpoint with this address.
    Exchange(String),
    /// From this payload, which is known beforehand.
    KnownOffer(String),
}

/// A [`SignalingMode`] as plain values.
pub ghost enum ModeView {
    Exchange(Seq<char>),
    KnownOffer(Seq<char>),
}

impl View for SignalingMode {
    type V = ModeView;

    open spec fn view(&self) -> ModeView {
        match self {
            SignalingMode::Exchange(url) => ModeView::Exchange(url@),
            SignalingMode::KnownOffer(offer) => ModeView::KnownOffer(offer@),
        }
    }
}

/// The state of a client's signaling.
#[derive(Clone, Debug, PartialEq, Eq)]
pub struct Signaling {
    pub mode: SignalingMode,
    pub gate: ConnectivityGate,
}

/// A [`Signaling`] as plain values.
pub ghost struct SignalingView {
    pub mode: ModeView,
    pub gate: ConnectivityGate,
}

impl View for Signaling {
    type V = SignalingView;

    open spec fn view(&self) -> SignalingView {
        SignalingView { mode: self.mode@, gate: self.gate }
    }
}

/// What the connection or the endpoint reports to the client.
#[derive(Clone, Debug, PartialEq, Eq)]
pub enum SignalingEvent {
    /// The connection needs to negotiate.
    NegotiationNeeded,
    /// The connection has made this offer.
    OfferCreated(SessionDescription),
    /// The connection has found a candidate.
    IceCandidate,
    /// The connection has found the end of its candidates, and this is its
    /// local description now, if it has one.
    EndOfCandidates(Option<SessionDescription>),
    /// The endpoint has answered with this body.
    AnswerReceived(String),
}

/// A [`SignalingEvent`] as plain values.
pub ghost enum SignalingEventView {
    NegotiationNeeded,
    OfferCreated(DescriptionView),
    IceCandidate,
    EndOfCandidates(Option<DescriptionView>),
    AnswerReceived(Seq<char>),
}

impl View for SignalingEvent {
    type V = SignalingEventView;

    open spec fn view(&self) -> SignalingEventView {
        match self {
            SignalingEvent::NegotiationNeeded => SignalingEventView::NegotiationNeeded,
            SignalingEvent::OfferCreated(d) => SignalingEventView::OfferCreated(d@),
            SignalingEvent::IceCandidate => SignalingEventView::IceCandidate,
            SignalingEvent::EndOfCandidates(local) => SignalingEventView::EndOfCandidates(
                described(*local),
            ),
            SignalingEvent::AnswerReceived(body) => SignalingEventView::AnswerReceived(body@),
        }
    }
}

/// A request to the signaling endpoint.
#[derive(Clone, Debug, PartialEq, Eq)]
pub struct OfferRequest {
    pub method: String,
    pub url: String,
    pub content_type: String,
    pub body: String,
}

/// An [`OfferRequest`] as plain values.
pub ghost struct OfferRequestView {
    pub method: Seq<char>,
    pub url: Seq<char>,
    pub content_type: Seq<char>,
    pub body: Seq<char>,
}

impl View for OfferRequest {
    type V = OfferRequestView;

    open spec fn view(&self) -> OfferRequestView {
        OfferRequestView {
            method: self.method@,
            url: self.url@,
            content_type: self.content_type@,
            body: self.body@,
        }
    }
}

/// What the client is to do next.
#[derive(Clone, Debug, PartialEq, Eq)]
pub enum SignalingAction {
    /// Nothing.
    Wait,
    /// Ask the connection for an offer.
    CreateOffer,
    /// Set this description as the connection's local one.
    SetLocalDescription(SessionDescription),
    /// Send this request; its answer comes back as an event.
    PostOffer(OfferRequest),
    /// Set this description as the connection's remote one.
    SetRemoteDescription(SessionDescription),
    /// Give up with this error.
    Fail(SignalingError),
}

/// A [`SignalingAction`] as plain values.
pub ghost enum SignalingActionView {
    Wait,
    CreateOffer,
    SetLocalDescription(DescriptionView),
    PostOffer(OfferRequestView),
    SetRemoteDescription(DescriptionView),
    Fail(SignalingError),
}

impl View for SignalingAction {
    type V = SignalingActionView;

    open spec fn view(&self) -> SignalingActionView {
        match self {
            SignalingAction::Wait => SignalingActionView::Wait,
            SignalingAction::CreateOffer => SignalingActionView::CreateOffer,
            SignalingAction::SetLocalDescription(d) => SignalingActionView::SetLocalDescription(
                d@,
            ),
            SignalingAction::PostOffer(r) => SignalingActionView::PostOffer(r@),
            SignalingAction::SetRemoteDescription(d) => SignalingActionView::SetRemoteDescription(
                d@,
            ),
            SignalingAction::Fail(e) => SignalingActionView::Fail(*e),
        }
    }
}

/// The request that posts a local description to an endpoint: the payload
/// between double quotes, as JSON.
pub open spec fn offer_request(url: Seq<char>, local: DescriptionView) -> OfferRequestView {
    OfferRequestView {
        method: "POST"@,
        url,
        content_type: "application/json"@,
        body: frame_spec(encode_spec(local)),
    }
}

/// The state, the connection and the action after an event.
pub ghost struct Transition {
    pub signaling: SignalingView,
    pub connection: PeerConnectionView,
    pub action: SignalingActionView,
}

/// Taking a payload, quoted or not, as the remote description.
pub open spec fn accept_remote(
    s: SignalingView,
    pc: PeerConnectionView,
    body: Seq<char>,
) -> Transition {
    match decode_spec(unframe_spec(body)) {
        Some(d) => Transition {
            signaling: s,
            connection: PeerConnectionView { remote_description: Some(d), ..pc },
            action: SignalingActionView::SetRemoteDescription(d),
        },
        None => Transition {
            signaling: s,
            connection: pc,
            action: SignalingActionView::Fail(SignalingError::MalformedSignalingPayload),
        },
    }
}

/// What an event does.
///
/// A need to negotiate asks for an offer, and the offer becomes the local
/// description. Candidates are waited for until their end. The end brings
/// the local description as it is then, complete with the candidates, and
/// counts once: then that description is posted to the endpoint, or, where
/// the offer is known beforehand, that offer becomes the remote
/// description. The endpoint's answer becomes the remote description. A
/// payload that does not decode fails as `MalformedSignalingPayload`, and
/// an end of candidates without a local description as
/// `SignalingHandshakeFailed`.
pub open spec fn transition(
    s: SignalingView,
    pc: PeerConnectionView,
    event: SignalingEventView,
) -> Transition {
    match event {
        SignalingEventView::NegotiationNeeded => Transition {
            signaling: s,
            connection: pc,
            action: SignalingActionView::CreateOffer,
        },
        SignalingEventView::OfferCreated(d) => Transition {
            signaling: s,
            connection: PeerConnectionView { local_description: Some(d), ..pc },
            action: SignalingActionView::SetLocalDescription(d),
        },
        SignalingEventView::IceCandidate => Transition {
            signaling: s,
            connection: pc,
            action: SignalingActionView::Wait,
        },
        SignalingEventView::EndOfCandidates(local) => {
            let after = SignalingView { mode: s.mode, gate: ConnectivityGate { fired: true } };
            let seen = PeerConnectionView { local_description: local, ..pc };
            if !s.gate.fired {
                match s.mode {
                    ModeView::Exchange(url) => match local {
                        Some(local) => Transition {
                            signaling: after,
                            connection: seen,
                            action: SignalingActionView::PostOffer(offer_request(url, local)),
                        },
                        None => Transition {
                            signaling: after,
                            connection: seen,
                            action: SignalingActionView::Fail(
                                SignalingError::SignalingHandshakeFailed,
                            ),
                        },
                    },
                    ModeView::KnownOffer(offer) => accept_remote(after, seen, offer),
                }
            } else {
                Transition { signaling: after, connection: seen, action: SignalingActionView::Wait }
            }
        },
        SignalingEventView::AnswerReceived(body) => match s.mode {
            ModeView::Exchange(_) => accept_remote(s, pc, body),
            ModeView::KnownOffer(_) => Transition {
                signaling: s,
                connection: pc,
                action: SignalingActionView::Wait,
            },
        },
    }
}

/// The signaling of a client that posts its offer to the endpoint with the
/// given address, or to the default one if none is given.
pub fn init_peer_connection(connect_url: Option<String>) -> (s: Signaling)
    ensures
        s@ == (SignalingView {
            mode: ModeView::Exchange(
                match connect_url {
                    Some(url) => url@,
                    None => default_connect_url(),
                },
            ),
            gate: ConnectivityGate { fired: false },
        }),
{
    let url = match connect_url {
        Some(url) => url,
        None => "http://localhost:3000/connect".to_owned(),
    };
    Signaling { mode: SignalingMode::Exchange(url), gate: ConnectivityGate::new() }
}

/// The signaling of a client that knows the remote side's payload
/// beforehand.
pub fn init_peer_connection_from_offer(offer: String) -> (s: Signaling)
    ensures
        s@ == (SignalingView {
            mode: ModeView::KnownOffer(offer@),
            gate: ConnectivityGate { fired: false },
        }),
{
    Signaling { mode: SignalingMode::KnownOffer(offer), gate: ConnectivityGate::new() }
}

fn take_remote(pc: &mut PeerConnection, body: &str) -> (action: SignalingAction)
    ensures
        ({
            let none = SignalingView {
                mode: ModeView::Exchange(seq![]),
                gate: ConnectivityGate { fired: false },
            };
            let t = accept_remote(none, old(pc)@, body@);
            final(pc)@ == t.connection && action@ == t.action
        }),
{
    let payload = unframe(body);
    match decode(payload.as_str()) {
        Ok(d) => {
            pc.remote_description = Some(d.duplicate());
            SignalingAction::SetRemoteDescription(d)
        },
        Err(e) => SignalingAction::Fail(e),
    }
}

impl Signaling {
    /// Takes in an event, updates what is known of the connection, and says
    /// what to do next.
    pub fn step(&mut self, pc: &mut PeerConnection, event: SignalingEvent) -> (action:
        SignalingAction)
        ensures
            ({
                let t = transition(old(self)@, old(pc)@, event@);
                final(self)@ == t.signaling && final(pc)@ == t.connection && action@ == t.action
            }),
    {
        match event {
            SignalingEvent::NegotiationNeeded => SignalingAction::CreateOffer,
            SignalingEvent::OfferCreated(d) => {
                pc.local_description = Some(d.duplicate());
                SignalingAction::SetLocalDescription(d)
            },
            SignalingEvent::IceCandidate => SignalingAction::Wait,
            SignalingEvent::EndOfCandidates(local) => {
                pc.local_description = local;
                if !self.gate.on_candidate(true) {
                    return SignalingAction::Wait;
                }
                match &self.mode {
                    SignalingMode::Exchange(url) => match &pc.local_description {
                        Some(local) => {
                            let payload = encode(local);
                            SignalingAction::PostOffer(
                                OfferRequest {
                                    method: "POST".to_owned(),
                                    url: url.clone(),
                                    content_type: "application/json".to_owned(),
                                    body: frame(payload.as_str()),
                                },
                            )
                        },
                        None => SignalingAction::Fail(SignalingError::SignalingHandshakeFailed),
                    },
                    SignalingMode::KnownOffer(offer) => take_remote(pc, offer.as_str()),
                }
            },
            SignalingEvent::AnswerReceived(body) => match &self.mode {
                SignalingMode::Exchange(_) => take_remote(pc, body.as_str()),
                SignalingMode::KnownOffer(_) => SignalingAction::Wait,
            },
        }
    }
}

/// An offer that is posted and comes back unchanged decodes to the local
/// description it was made from.
pub proof fn lemma_posted_offer_decodes(url: Seq<char>, local: DescriptionView)
    ensures
        decode_spec(unframe_spec(offer_request(url, local).body)) == Some(local),
{
    crate::codec::lemma_framed_round_trip(local);
}

} // verus!
