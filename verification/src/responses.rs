//! Outbound response envelope: everything the service can say to a client.
//!
//! A [`Response`] couples a tag with a kind-specific payload; its
//! well-formedness invariant says the two agree. Contracts speak of a
//! response through its [`RespModel`], the mathematical image of the payload.

use vstd::prelude::*;

verus! {

/// Payload of the identity-assignment response.
#[derive(Debug)]
pub struct GetId {
    pub id: u64,
}

/// Payload of the nickname-changed broadcast.
#[derive(Debug)]
pub struct SetNickname {
    pub id: u64,
    pub name: String,
}

/// Payload of a delivered chat message.
#[derive(Debug)]
pub struct Message {
    pub id: u64,
    pub name: String,
    pub message: String,
    pub created_at: i64,
}

/// Payload of the presence-offline broadcast.
#[derive(Debug)]
pub struct Offline {
    pub id: u64,
}

/// Payload of the presence-online broadcast.
#[derive(Debug)]
pub struct Online {
    pub id: u64,
    pub name: String,
}

/// One named connection inside a presence snapshot.
#[derive(Debug)]
pub struct UserInfo {
    pub id: u64,
    pub name: String,
}

/// Payload of the global presence snapshot.
#[derive(Debug)]
pub struct GlobalOnline {
    pub users: Vec<UserInfo>,
}

/// Payload of the room-created confirmation.
#[derive(Debug)]
pub struct RoomCreated {
    pub id: u64,
    pub name: String,
}

/// Payload of the room-joined confirmation.
#[derive(Debug)]
pub struct RoomJoined {
    pub id: u64,
    pub name: String,
}

/// Payload of the private error response.
#[derive(Debug)]
pub struct ResponseError {
    pub message: String,
}

/// The tag carried by the outbound wire envelope.
#[derive(Debug, Clone, Copy, PartialEq, Eq, Structural)]
pub enum ResponseType {
    GetId,
    Online,
    Offline,
    SetNickname,
    Message,
    GlobalOnline,
    RoomCreated,
    RoomJoined,
    Error,
}

/// The kind-specific payload of a response.
#[derive(Debug)]
pub enum ResponseData {
    GetId(GetId),
    SetNickname(SetNickname),
    Message(Message),
    Offline(Offline),
    Online(Online),
    GlobalOnline(GlobalOnline),
    RoomCreated(RoomCreated),
    RoomJoined(RoomJoined),
    Error(ResponseError),
}

/// One outbound response: a tag plus its payload.
#[derive(Debug)]
pub struct Response {
    pub response_type: ResponseType,
    pub data: ResponseData,
}

/// One planned delivery: which connection to write to, and what. The
/// transport attempts each delivery independently and reports failures back.
#[derive(Debug)]
pub struct Outbound {
    pub to: u64,
    pub response: Response,
}

/// The recipients of a batch of planned deliveries, in order.
pub open spec fn targets_of(sends: Seq<Outbound>) -> Seq<u64> {
    sends.map(|i: int, o: Outbound| o.to)
}

/// Every delivery in `sends` carries a payload with model `m` and an agreeing tag.
pub open spec fn all_carry(sends: Seq<Outbound>, m: RespModel) -> bool {
    forall|i: int| 0 <= i < sends.len() ==> (#[trigger] sends[i]).response.wf()
        && sends[i].response.model() == m
}

/// The mathematical image of a response payload, used by every contract that
/// pins down what a handler sends.
pub ghost enum RespModel {
    GetId { id: u64 },
    SetNickname { id: u64, name: Seq<char> },
    Message { id: u64, name: Seq<char>, message: Seq<char>, created_at: i64 },
    Offline { id: u64 },
    Online { id: u64, name: Seq<char> },
    GlobalOnline { users: Seq<(u64, Seq<char>)> },
    RoomCreated { id: u64, name: Seq<char> },
    RoomJoined { id: u64, name: Seq<char> },
    Error { message: Seq<char> },
}

/// The models of a presence snapshot's entries, in order.
pub open spec fn user_models(s: Seq<UserInfo>) -> Seq<(u64, Seq<char>)> {
    s.map(|i: int, u: UserInfo| (u.id, u.name@))
}

impl Response {
    /// The tag agrees with the payload variant.
    pub open spec fn wf(self) -> bool {
        match self.data {
            ResponseData::GetId(_) => self.response_type is GetId,
            ResponseData::SetNickname(_) => self.response_type is SetNickname,
            ResponseData::Message(_) => self.response_type is Message,
            ResponseData::Offline(_) => self.response_type is Offline,
            ResponseData::Online(_) => self.response_type is Online,
            ResponseData::GlobalOnline(_) => self.response_type is GlobalOnline,
            ResponseData::RoomCreated(_) => self.response_type is RoomCreated,
            ResponseData::RoomJoined(_) => self.response_type is RoomJoined,
            ResponseData::Error(_) => self.response_type is Error,
        }
    }

    /// The payload as a mathematical value.
    pub open spec fn model(self) -> RespModel {
        match self.data {
            ResponseData::GetId(p) => RespModel::GetId { id: p.id },
            ResponseData::SetNickname(p) => RespModel::SetNickname { id: p.id, name: p.name@ },
            ResponseData::Message(p) => RespModel::Message {
                id: p.id,
                name: p.name@,
                message: p.message@,
                created_at: p.created_at,
            },
            ResponseData::Offline(p) => RespModel::Offline { id: p.id },
            ResponseData::Online(p) => RespModel::Online { id: p.id, name: p.name@ },
            ResponseData::GlobalOnline(p) => RespModel::GlobalOnline { users: user_models(p.users@) },
            ResponseData::RoomCreated(p) => RespModel::RoomCreated { id: p.id, name: p.name@ },
            ResponseData::RoomJoined(p) => RespModel::RoomJoined { id: p.id, name: p.name@ },
            ResponseData::Error(p) => RespModel::Error { message: p.message@ },
        }
    }

    /// A fresh response with the same tag and an equal payload, so one
    /// rendered message can be handed to many recipients independently.
    pub fn duplicate(&self) -> (r: Response)
        ensures
            r.response_type == self.response_type,
            r.model() == self.model(),
    {
        let response_type = self.response_type;
        let data = match &self.data {
            ResponseData::GetId(p) => ResponseData::GetId(GetId { id: p.id }),
            ResponseData::SetNickname(p) => ResponseData::SetNickname(SetNickname {
                id: p.id,
                name: p.name.clone(),
            }),
            ResponseData::Message(p) => ResponseData::Message(Message {
                id: p.id,
                name: p.name.clone(),
                message: p.message.clone(),
                created_at: p.created_at,
            }),
            ResponseData::Offline(p) => ResponseData::Offline(Offline { id: p.id }),
            ResponseData::Online(p) => ResponseData::Online(Online {
                id: p.id,
                name: p.name.clone(),
            }),
            ResponseData::GlobalOnline(p) => ResponseData::GlobalOnline(GlobalOnline {
                users: clone_users(&p.users),
            }),
            ResponseData::RoomCreated(p) => ResponseData::RoomCreated(RoomCreated {
                id: p.id,
                name: p.name.clone(),
            }),
            ResponseData::RoomJoined(p) => ResponseData::RoomJoined(RoomJoined {
                id: p.id,
                name: p.name.clone(),
            }),
            ResponseData::Error(p) => ResponseData::Error(ResponseError {
                message: p.message.clone(),
            }),
        };
        Response { response_type, data }
    }
}

/// Copies a presence snapshot entry by entry.
fn clone_users(v: &Vec<UserInfo>) -> (r: Vec<UserInfo>)
    ensures
        user_models(r@) == user_models(v@),
{
    let mut r: Vec<UserInfo> = Vec::new();
    let n = v.len();
    let mut i: usize = 0;
    while i < n
        invariant
            n == v@.len(),
            i <= n,
            r@.len() == i,
            forall|j: int| 0 <= j < i ==> r@[j].id == v@[j].id && r@[j].name@ == v@[j].name@,
        decreases n - i,
    {
        let u = &v[i];
        r.push(UserInfo { id: u.id, name: u.name.clone() });
        i = i + 1;
    }
    proof {
        assert(user_models(r@) =~= user_models(v@));
    }
    r
}

} // verus!
