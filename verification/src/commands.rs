//! The commands of the kernel, their responses, and the messages between the parts
//! of the server.

use crate::json::Value;
use crate::loading::StoredRoom;
use crate::rooms::FragmentFlags;
use crate::text::{decimal, push_decimal};
use vstd::prelude::*;
use vstd::string::*;

verus! {

pub type RoomName = String;

pub type RoomId = u64;

pub type BucketId = u64;

pub type FragmentId = u64;

pub type FragmentData = Vec<u8>;

/// What the kernel can be asked to do.
#[derive(Debug)]
pub enum Commands {
    NewRoom(RoomName),
    CloseRoom(RoomId),
    NewBucket(RoomId, BucketId, String),
    DeleteBucket(RoomId, BucketId),
    NewMember(RoomId, String),
    DeleteMember(RoomId, String),
    WriteFragment(RoomId, BucketId, String, FragmentData),
    SetFragmentFlags(RoomId, FragmentId, FragmentFlags),
    ReadFragment(RoomId, BucketId, String),
    /// Load a room into memory, given what is kept of it on disk.
    LoadRoom(RoomId, StoredRoom),
    UnloadRoom(RoomId),
    /// A message of a websocket client of a room.
    WsMessage(RoomId, Value),
}

/// What the kernel answers.
#[derive(Debug)]
pub enum CommandResponse {
    NewRoomResponse(RoomId),
    CloseRoomResponse,
    NewBucketResponse,
    DeleteBucketResponse,
    NewMemberResponse,
    DeleteMemberResponse,
    FragmentWriteResponse,
    SetFragmentFlagsResponse,
    FragmentReadResponse(Option<FragmentData>),
    LoadRoomResponse(Result<(), String>),
    UnloadRoomResponse(Result<(), String>),
    WsMessageAck,
}

/// A change of a key in a bucket, for the subscribers of the bucket. Without a value
/// the key was deleted.
#[derive(Debug)]
pub struct DataUpdate {
    pub bucket_id: u64,
    pub key: String,
    pub value: Option<Value>,
    pub bucket_counter: u64,
}

pub ghost struct UpdateView {
    pub bucket_id: u64,
    pub key: Seq<char>,
    pub value: Option<Seq<char>>,
    pub bucket_counter: u64,
}

impl View for DataUpdate {
    type V = UpdateView;

    open spec fn view(&self) -> UpdateView {
        UpdateView {
            bucket_id: self.bucket_id,
            key: self.key@,
            value: match self.value {
                Some(v) => Some(v@),
                None => None,
            },
            bucket_counter: self.bucket_counter,
        }
    }
}

/// A message on the way to the clients.
pub enum UpdateChannelMessage {
    Broadcast(DataUpdate),
    Targeted { conn_id: u64, msg: DataUpdate },
}

/// What the websocket server tells the kernel.
#[derive(Debug)]
pub enum ConnectionEvent {
    ClientConnected { conn_id: u64, requested_buckets: Vec<u64> },
    ClientDisconnected { conn_id: u64 },
}

/// A message of the websocket side for the kernel.
#[derive(Debug)]
pub enum DownstreamMessage {
    ClientConnected { conn_id: u64, requested_buckets: Vec<u64> },
    ClientDisconnected { conn_id: u64 },
    WsMessage(RoomId, Vec<u8>),
}

/// A signal for the kernel.
#[derive(Debug)]
pub enum KernelSignal {
    Shutdown,
    Custom(String),
    ClientConnected { conn_id: u64 },
    ClientDisconnected { conn_id: u64 },
}

impl KernelSignal {
    /// The signal that a client of a room has connected.
    pub fn ws_connected(room_id: u64, client_id: u64) -> (r: KernelSignal)
        ensures
            r matches KernelSignal::Custom(text) && text@ == "ws_connected:"@ + decimal(
                room_id as nat,
            ) + ":"@ + decimal(client_id as nat),
    {
        let mut text: String = "ws_connected:".to_string();
        push_decimal(&mut text, room_id);
        text.append(":");
        push_decimal(&mut text, client_id);
        KernelSignal::Custom(text)
    }
}

} // verus!
