//! The server's side of the signaling exchange: from an offer to the
//! answer.
//!
//! An offer that decodes gets a session with a fresh identity, and its
//! description is to be applied as the remote one. The answer is the
//! server's local description, and it is complete only at the end of the
//! candidates. Whatever fails after the session exists, the session is
//! taken out of the shared state again.

use vstd::prelude::*;
use crate::codec::{decode, decode_spec, encode, encode_spec, frame, frame_spec};
use crate::description::{DescriptionView, SdpKind, SessionDescription};
use crate::error::SignalingError;
use crate::gate::ConnectivityGate;
use crate::hub::{admitted, step, EventView, Hub, HubView, SessionEvent};
use crate::identity::SessionIdentity;
use crate::session::{ConnectionState, PeerSession};

verus! {

/// An exchange that has begun: the session made for it, the description
/// that the offer held, and what waits for the end of the candidates.
#[derive(Clone, Debug, PartialEq, Eq)]
pub struct Handshake {
    pub session: PeerSession,
    pub remote: SessionDescription,
    pub gate: ConnectivityGate,
}

/// A [`Handshake`] as plain values.
pub ghost struct HandshakeView {
    pub session: PeerSession,
    pub remote: DescriptionView,
    pub gate: ConnectivityGate,
}

impl View for Handshake {
    type V = HandshakeView;

    open spec fn view(&self) -> HandshakeView {
        HandshakeView { session: self.session, remote: self.remote@, gate: self.gate }
    }
}

/// How far an exchange has come.
#[derive(Clone, Debug, PartialEq, Eq)]
pub enum Progress {
    /// The candidates are still being gathered.
    Gathering,
    /// The exchange is complete, and this is the answer's payload text.
    Answer(String),
    /// The exchange has failed.
    Failed(SignalingError),
}

/// A [`Progress`] as plain values.
pub ghost enum ProgressView {
    Gathering,
    Answer(Seq<char>),
    Failed(SignalingError),
}

impl View for Progress {
    type V = ProgressView;

    open spec fn view(&self) -> ProgressView {
        match self {
            Progress::Gathering => ProgressView::Gathering,
            Progress::Answer(text) => ProgressView::Answer(text@),
            Progress::Failed(e) => ProgressView::Failed(*e),
        }
    }
}

/// What a candidate event brings: nothing before the end of the
/// candidates and after it; at the end, the answer made of the local
/// description, or a failure if there is none or if it is no answer.
pub open spec fn progress_of(
    gate: ConnectivityGate,
    end_of_candidates: bool,
    local: Option<DescriptionView>,
) -> ProgressView {
    if end_of_candidates && !gate.fired {
        match local {
            Some(d) => if d.kind == SdpKind::Answer {
                ProgressView::Answer(encode_spec(d))
            } else {
                ProgressView::Failed(SignalingError::SignalingHandshakeFailed)
            },
            None => ProgressView::Failed(SignalingError::SignalingHandshakeFailed),
        }
    } else {
        ProgressView::Gathering
    }
}

/// Begins the exchange for an offer, with identity bits drawn at random.
///
/// A text that does not decode is refused as `MalformedSignalingPayload`.
/// A description that is no offer, and an identity that was issued before,
/// are refused as `SignalingHandshakeFailed`. Where any is refused, the
/// shared state is unchanged. Otherwise the session is admitted, and the
/// description of the offer is the one to apply to its connection.
pub fn handle_offer(hub: &mut Hub, offer_text: &str, bits: u128) -> (r: Result<
    Handshake,
    SignalingError,
>)
    requires
        old(hub).wf(),
    ensures
        final(hub).wf(),
        match r {
            Ok(h) => {
                &&& decode_spec(offer_text@) == Some(h@.remote)
                &&& h.remote.kind == SdpKind::Offer
                &&& h.session == (PeerSession {
                    identity: SessionIdentity { bits },
                    connection_state: ConnectionState::New,
                })
                &&& !h.gate.fired
                &&& admitted(old(hub)@, h.session.identity) == Some(final(hub)@)
            },
            Err(e) => {
                &&& final(hub)@ == old(hub)@
                &&& e == SignalingError::MalformedSignalingPayload <==> decode_spec(offer_text@)
                    is None
                &&& e == SignalingError::SignalingHandshakeFailed <==> (decode_spec(offer_text@)
                    is Some && (decode_spec(offer_text@)->0.kind != SdpKind::Offer || admitted(
                    old(hub)@,
                    SessionIdentity { bits },
                ) is None))
            },
        },
{
    match decode(offer_text) {
        Err(e) => Err(e),
        Ok(remote) => match remote.kind {
            SdpKind::Answer => Err(SignalingError::SignalingHandshakeFailed),
            SdpKind::Offer => match hub.open_session(bits) {
                Err(e) => Err(e),
                Ok(identity) => Ok(
                    Handshake {
                        session: PeerSession::new(identity),
                        remote,
                        gate: ConnectivityGate::new(),
                    },
                ),
            },
        },
    }
}

impl Handshake {
    /// Takes in a candidate event, together with the local description as
    /// the connection has it at that moment. The answer comes at the first
    /// event that is the end of the candidates, and only there, and only
    /// of a local description that is an answer.
    pub fn on_candidate(
        &mut self,
        end_of_candidates: bool,
        local: Option<&SessionDescription>,
    ) -> (progress: Progress)
        ensures
            final(self).session == old(self).session,
            final(self).remote == old(self).remote,
            final(self).gate.fired == (old(self).gate.fired || end_of_candidates),
            progress@ == progress_of(
                old(self).gate,
                end_of_candidates,
                match local {
                    Some(d) => Some(d@),
                    None => None,
                },
            ),
    {
        if self.gate.on_candidate(end_of_candidates) {
            match local {
                Some(d) => match d.kind {
                    SdpKind::Answer => Progress::Answer(encode(d)),
                    SdpKind::Offer => Progress::Failed(SignalingError::SignalingHandshakeFailed),
                },
                None => Progress::Failed(SignalingError::SignalingHandshakeFailed),
            }
        } else {
            Progress::Gathering
        }
    }

    /// Gives the exchange up: its session is torn down as if its connection
    /// had closed, and the failure to report is `SignalingHandshakeFailed`.
    pub fn abort(self, hub: &mut Hub) -> (e: SignalingError)
        requires
            old(hub).wf(),
        ensures
            final(hub).wf(),
            e == SignalingError::SignalingHandshakeFailed,
            final(hub)@ == step(
                old(hub)@,
                self.session.identity,
                EventView::ConnectionStateChanged(ConnectionState::Closed),
            ),
    {
        let event = SessionEvent::ConnectionStateChanged(ConnectionState::Closed);
        let _ = hub.dispatch(self.session.identity, &event);
        SignalingError::SignalingHandshakeFailed
    }
}

/// What the signaling endpoint sends back.
#[derive(Clone, Debug, PartialEq, Eq)]
pub struct Reply {
    pub status: u16,
    pub body: String,
}

/// A [`Reply`] as plain values.
pub ghost struct ReplyView {
    pub status: u16,
    pub body: Seq<char>,
}

impl View for Reply {
    type V = ReplyView;

    open spec fn view(&self) -> ReplyView {
        ReplyView { status: self.status, body: self.body@ }
    }
}

/// What is sent back for the outcome of an exchange: `200` with the
/// answer's payload between double quotes, or `400` with a text that says
/// no more than that the connection failed.
pub open spec fn reply_of(outcome: Result<Seq<char>, SignalingError>) -> ReplyView {
    match outcome {
        Ok(answer) => ReplyView { status: 200, body: frame_spec(answer) },
        Err(_) => ReplyView { status: 400, body: "failed to connect"@ },
    }
}

/// The reply to the request that brought the offer.
pub fn reply(outcome: Result<String, SignalingError>) -> (r: Reply)
    ensures
        r@ == reply_of(
            match outcome {
                Ok(answer) => Ok(answer@),
                Err(e) => Err(e),
            },
        ),
{
    match outcome {
        Ok(answer) => Reply { status: 200, body: frame(answer.as_str()) },
        Err(_) => Reply { status: 400, body: "failed to connect".to_owned() },
    }
}

/// From an offer to its answer: where the offer decodes to an offer, the
/// identity drawn for it is free, and the candidates end with a local
/// description that is an answer, the exchange hands out a text that
/// decodes to that answer, and the session is admitted under the identity.
pub proof fn lemma_offer_is_answered(
    h: HubView,
    offer_text: Seq<char>,
    identity: SessionIdentity,
    local: DescriptionView,
)
    requires
        decode_spec(offer_text) matches Some(d) && d.kind == SdpKind::Offer,
        !h.issued.contains(identity),
        local.kind == SdpKind::Answer,
    ensures
        admitted(h, identity) matches Some(after) && after.sessions.contains_key(identity),
        progress_of(ConnectivityGate { fired: false }, true, Some(local)) == ProgressView::Answer(
            encode_spec(local),
        ),
        decode_spec(encode_spec(local)) == Some(local),
{
    crate::codec::lemma_round_trip(local);
}

} // verus!
