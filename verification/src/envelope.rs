//! The signaling envelopes exchanged between peers and the hub.
//!
//! Client-to-server envelopes arrive as JSON text frames and are decoded by
//! the codec into [`ClientEnvelope`]; server-to-client envelopes are produced
//! by the hub as [`ServerEnvelope`] values and encoded back to JSON. All
//! strings are carried as UTF-8 byte vectors; the `offer` / `answer` /
//! `ice_candidate` payloads are opaque and carried as the raw bytes of the
//! JSON value that appeared on the wire.

use vstd::prelude::*;

use crate::bytes::copy_bytes;

verus! {

/// One entry of a `user_list` envelope.
pub struct UserInfo {
    pub user_id: Vec<u8>,
    pub display_name: Vec<u8>,
}

/// Mathematical model of a [`UserInfo`].
pub struct UserInfoModel {
    pub user_id: Seq<u8>,
    pub display_name: Seq<u8>,
}

impl View for UserInfo {
    type V = UserInfoModel;

    open spec fn view(&self) -> UserInfoModel {
        UserInfoModel { user_id: self.user_id@, display_name: self.display_name@ }
    }
}

impl UserInfo {
    /// Exact copy.
    pub fn duplicate(&self) -> (r: UserInfo)
        ensures
            r@ == self@,
    {
        UserInfo {
            user_id: copy_bytes(&self.user_id),
            display_name: copy_bytes(&self.display_name),
        }
    }
}

/// The three directed signaling kinds a peer can route to another peer.
#[derive(Clone, Copy, PartialEq, Eq, Structural, Debug)]
pub enum RouteKind {
    Offer,
    Answer,
    IceCandidate,
}

/// An envelope received from a peer, already decoded from its JSON frame.
pub enum ClientEnvelope {
    Register { display_name: Vec<u8> },
    Discover,
    Route { kind: RouteKind, target_user_id: Vec<u8>, payload: Vec<u8> },
}

/// Mathematical model of a [`ClientEnvelope`].
pub enum ClientEnvelopeModel {
    Register { display_name: Seq<u8> },
    Discover,
    Route { kind: RouteKind, target_user_id: Seq<u8>, payload: Seq<u8> },
}

impl View for ClientEnvelope {
    type V = ClientEnvelopeModel;

    open spec fn view(&self) -> ClientEnvelopeModel {
        match self {
            ClientEnvelope::Register { display_name } => ClientEnvelopeModel::Register {
                display_name: display_name@,
            },
            ClientEnvelope::Discover => ClientEnvelopeModel::Discover,
            ClientEnvelope::Route { kind, target_user_id, payload } => ClientEnvelopeModel::Route {
                kind: *kind,
                target_user_id: target_user_id@,
                payload: payload@,
            },
        }
    }
}

/// An envelope emitted by the hub towards one peer.
pub enum ServerEnvelope {
    Registered { user_id: Vec<u8> },
    UserList { users: Vec<UserInfo> },
    UserJoined { user_id: Vec<u8>, display_name: Vec<u8> },
    UserLeft { user_id: Vec<u8> },
    Routed { kind: RouteKind, from_user_id: Vec<u8>, payload: Vec<u8> },
    Error { message: Vec<u8> },
}

/// Mathematical model of a [`ServerEnvelope`].
pub enum ServerEnvelopeModel {
    Registered { user_id: Seq<u8> },
    UserList { users: Seq<UserInfoModel> },
    UserJoined { user_id: Seq<u8>, display_name: Seq<u8> },
    UserLeft { user_id: Seq<u8> },
    Routed { kind: RouteKind, from_user_id: Seq<u8>, payload: Seq<u8> },
    Error { message: Seq<u8> },
}

impl View for ServerEnvelope {
    type V = ServerEnvelopeModel;

    open spec fn view(&self) -> ServerEnvelopeModel {
        match self {
            ServerEnvelope::Registered { user_id } => ServerEnvelopeModel::Registered {
                user_id: user_id@,
            },
            ServerEnvelope::UserList { users } => ServerEnvelopeModel::UserList {
                users: users@.map_values(|u: UserInfo| u@),
            },
            ServerEnvelope::UserJoined { user_id, display_name } => ServerEnvelopeModel::UserJoined {
                user_id: user_id@,
                display_name: display_name@,
            },
            ServerEnvelope::UserLeft { user_id } => ServerEnvelopeModel::UserLeft {
                user_id: user_id@,
            },
            ServerEnvelope::Routed { kind, from_user_id, payload } => ServerEnvelopeModel::Routed {
                kind: *kind,
                from_user_id: from_user_id@,
                payload: payload@,
            },
            ServerEnvelope::Error { message } => ServerEnvelopeModel::Error { message: message@ },
        }
    }
}

impl ServerEnvelope {
    /// Exact copy, used when the same envelope is fanned out to several
    /// outboxes.
    pub fn duplicate(&self) -> (r: ServerEnvelope)
        ensures
            r@ == self@,
    {
        match self {
            ServerEnvelope::Registered { user_id } => ServerEnvelope::Registered {
                user_id: copy_bytes(user_id),
            },
            ServerEnvelope::UserList { users } => {
                let mut us: Vec<UserInfo> = Vec::new();
                let mut i: usize = 0;
                while i < users.len()
                    invariant
                        i <= users.len(),
                        us@.len() == i as int,
                        forall|k: int| 0 <= k < i ==> us@[k]@ == users@[k]@,
                    decreases users.len() - i,
                {
                    us.push(users[i].duplicate());
                    i = i + 1;
                }
                proof {
                    assert(us@.map_values(|u: UserInfo| u@) =~= users@.map_values(
                        |u: UserInfo| u@,
                    ));
                }
                ServerEnvelope::UserList { users: us }
            },
            ServerEnvelope::UserJoined { user_id, display_name } => ServerEnvelope::UserJoined {
                user_id: copy_bytes(user_id),
                display_name: copy_bytes(display_name),
            },
            ServerEnvelope::UserLeft { user_id } => ServerEnvelope::UserLeft {
                user_id: copy_bytes(user_id),
            },
            ServerEnvelope::Routed { kind, from_user_id, payload } => ServerEnvelope::Routed {
                kind: *kind,
                from_user_id: copy_bytes(from_user_id),
                payload: copy_bytes(payload),
            },
            ServerEnvelope::Error { message } => ServerEnvelope::Error {
                message: copy_bytes(message),
            },
        }
    }
}

} // verus!
