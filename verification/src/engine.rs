//! Orchestration: connections, pairing state machine and transfers.
//!
//! The engine is the only place that changes the trust store. It holds no
//! socket, file or thread: each method takes what happened and returns the
//! [`Action`]s that follow, in the order in which they are to be carried out.
//! Times are nanoseconds of a clock that never runs backwards; a `wall` time is
//! in milliseconds since the Unix epoch.
//!
//! Authorisation rule, enforced in exactly one place ([`Engine::on_message`]):
//! a peer whose static key is not in the trust store may send only the handful
//! of messages listed in [`Message::allowed_before_pairing`]. Text and files
//! from an unpaired peer are dropped and the connection closed.

pub mod commands;
pub mod connection;
pub mod files;
pub mod guard;
pub mod laws;
pub mod message;
pub mod outgoing;
pub mod pairing;
pub mod peers;
pub mod queries;
pub mod sender;
pub mod table;
pub mod transfer;
pub mod uri;

pub use crate::engine::uri::{parse_pairing_uri, PairingTarget};
pub use crate::net::discovery::local_ipv4;

use std::collections::BTreeMap;
use vstd::prelude::*;
use crate::bytes;
use crate::config::{Config, Paths};
use crate::engine::guard::ConnGuard;
use crate::engine::transfer::IncomingTransfer;
use crate::net::discovery::{Discovery, MAX_PEERS};
use crate::proto::{Message, TransferId};
use crate::security::fingerprint;
use crate::security::fingerprint::DeviceId;
use crate::security::keystore::Identity;
use crate::security::trust::TrustStore;
use crate::util::{IpAddr, SocketAddr, UniquePath};

verus! {

broadcast use vstd::laws_cmp::group_laws_cmp;

/// Simultaneous authenticated connections.
pub const MAX_CONNECTIONS: usize = 16;

/// Simultaneous incoming file transfers.
pub const MAX_INCOMING_TRANSFERS: usize = 16;

/// A pairing prompt that nobody answers is dropped after this long.
pub const PAIRING_TIMEOUT: u64 = 180_000_000_000;

/// How long a sender waits for the receiver to accept an offer.
pub const OFFER_TIMEOUT: u64 = 300_000_000_000;

/// Application level keepalive.
pub const KEEPALIVE: u64 = 30_000_000_000;

/// Depth of the UI event queue; the engine never blocks on a slow UI.
pub const EVENT_QUEUE: usize = 4096;

#[derive(Debug)]
pub enum EngineEvent {
    PeerDiscovered(PeerInfo),
    PeerLost(DeviceId),
    Connected(ConnInfo),
    Disconnected { device: DeviceId, reason: String },
    /// A connection completed the handshake but the peer is not paired yet.
    /// The UI must show `sas` and `fingerprint` and ask the user.
    PairingRequired {
        device: DeviceId,
        name: String,
        fingerprint: String,
        sas: String,
        addr: SocketAddr,
        /// True when the peer asked us, false when we initiated.
        remote_initiated: bool,
    },
    PairingFinished { device: DeviceId, accepted: bool },
    TextReceived { from: DeviceId, text: String, ts: u64 },
    TextSent { to: DeviceId, text: String, ts: u64 },
    OfferReceived { from: DeviceId, transfer: TransferId, name: String, size: u64 },
    TransferProgress { transfer: TransferId, done: u64, total: u64, incoming: bool },
    TransferFinished {
        transfer: TransferId,
        incoming: bool,
        name: String,
        path: Option<String>,
        error: Option<String>,
    },
    TrustChanged,
    Notice(String),
    Error(String),
}

#[derive(Debug)]
pub struct PeerInfo {
    pub device: DeviceId,
    pub name: String,
    pub platform: String,
    pub addr: SocketAddr,
    pub public_key: Vec<u8>,
    pub paired: bool,
}

#[derive(Debug)]
pub struct TransferInfo {
    pub id: TransferId,
    pub peer: DeviceId,
    pub name: String,
    pub size: u64,
    pub done: u64,
    pub incoming: bool,
}

#[derive(Debug)]
pub struct ConnInfo {
    pub device: DeviceId,
    pub name: String,
    pub addr: SocketAddr,
    pub fingerprint: String,
    pub sas: String,
    pub paired: bool,
}

/// What the receiver of a file tells its sender.
#[derive(Debug)]
pub enum OutSignal {
    Accept,
    Reject(String),
    Cancel,
}

/// A connection whose peer has proved its key.
pub struct Conn {
    pub device: DeviceId,
    pub key: Vec<u8>,
    pub name: String,
    pub addr: SocketAddr,
    pub fingerprint: String,
    pub sas: String,
    pub authorised: bool,
    pub local_ok: bool,
    pub remote_ok: bool,
    pub prompted_at: Option<u64>,
}

/// A file that is being sent.
pub struct Outgoing {
    pub id: TransferId,
    pub to: DeviceId,
    pub name: String,
    pub size: u64,
    pub cancel: bool,
}

/// A device that announced itself.
pub struct PeerEntry {
    pub info: PeerInfo,
    pub last_seen: u64,
}

/// What is to be done next.
#[derive(Debug)]
pub enum Action {
    /// Tell the front-end; dropped when its queue is full.
    Emit(EngineEvent),
    /// Send a message over the connection to a device, if there is one; whether
    /// that works makes no difference.
    Send { to: DeviceId, msg: Message },
    /// Close the connection to a device.
    Close { device: DeviceId },
    /// Write the trust store; with `report`, a failure is emitted as an error.
    SaveTrust { report: bool },
    /// Write the settings.
    SaveConfig,
    /// Connect to an address; the peer must prove the key, if one is given.
    Dial { addr: SocketAddr, expect_key: Option<Vec<u8>> },
    /// Create the quarantine file of a transfer, then [`Engine::part_opened`].
    OpenPart { device: DeviceId, transfer: TransferId, dir: String, path: String },
    /// Write a chunk to the quarantine file, then [`Engine::chunk_written`].
    WritePart { device: DeviceId, transfer: TransferId, offset: u64, data: Vec<u8> },
    /// Flush the quarantine file, then [`Engine::finish_transfer`].
    FlushPart { device: DeviceId, transfer: TransferId },
    /// Move the quarantine file to the first path of a search that is free, then
    /// [`Engine::published`].
    PublishPart {
        device: DeviceId,
        transfer: TransferId,
        part: String,
        place: UniquePath,
    },
    /// Remove a quarantine file.
    RemovePart { path: String },
    /// Pass a signal to the sender of a file.
    Signal { transfer: TransferId, signal: OutSignal },
}

pub struct Engine {
    pub identity: Identity,
    pub paths: Paths,
    pub config: Config,
    pub trust: TrustStore,
    pub conns: BTreeMap<u64, Conn>,
    pub peers: BTreeMap<u64, PeerEntry>,
    pub incoming: BTreeMap<u128, IncomingTransfer>,
    pub outgoing: BTreeMap<u128, Outgoing>,
    pub guard: ConnGuard,
    pub discovery: Option<Discovery>,
    pub bound_port: u16,
    /// `windows`, `desktop`, ...; informational only.
    pub platform: String,
    pub running: bool,
}

/// The key of a device in the tables.
pub open spec fn dk(d: DeviceId) -> u64 {
    d.spec_key() as u64
}

/// The key of a transfer in the tables.
pub open spec fn tk(id: TransferId) -> u128 {
    id.spec_key() as u128
}

/// Two identifiers have the same key only if they are the same.
pub proof fn lemma_dk_injective(a: DeviceId, b: DeviceId)
    requires
        dk(a) == dk(b),
    ensures
        a == b,
{
    bytes::lemma_be_value_bound(a.0@);
    bytes::lemma_be_value_bound(b.0@);
    bytes::lemma_pow256_sizes();
    fingerprint::lemma_device_key_injective(a, b);
}

/// Two transfers have the same key only if they are the same.
pub proof fn lemma_tk_injective(a: TransferId, b: TransferId)
    requires
        tk(a) == tk(b),
    ensures
        a == b,
{
    bytes::lemma_be_value_bound(a.0@);
    bytes::lemma_be_value_bound(b.0@);
    bytes::lemma_pow256_sizes();
    crate::proto::law_transfer_keys_differ(a, b);
}

/// Keys that are short enough to be written in base64.
pub open spec fn short_key(k: Seq<u8>) -> bool {
    k.len() <= usize::MAX / 4
}

impl Conn {
    /// The device is the one that the key belongs to.
    pub open spec fn wf(&self) -> bool {
        self.device.0@ == fingerprint::device_bytes(self.key@) && short_key(self.key@)
    }
}

impl PeerInfo {
    /// The same device in every respect.
    pub open spec fn same(&self, other: &PeerInfo) -> bool {
        &&& self.device == other.device
        &&& self.name == other.name
        &&& self.platform == other.platform
        &&& self.addr == other.addr
        &&& self.public_key@ == other.public_key@
        &&& self.paired == other.paired
    }

    /// A copy.
    pub fn copy(&self) -> (r: PeerInfo)
        ensures
            r.same(self),
    {
        PeerInfo {
            device: self.device,
            name: self.name.clone(),
            platform: self.platform.clone(),
            addr: self.addr,
            public_key: copy_bytes(&self.public_key),
            paired: self.paired,
        }
    }
}

/// A copy of some bytes.
pub fn copy_bytes(v: &Vec<u8>) -> (r: Vec<u8>)
    ensures
        r@ == v@,
{
    proof {
        assert(v@.subrange(0, v@.len() as int) =~= v@);
    }
    bytes::slice_to_vec(v.as_slice(), 0, v.len())
}

/// Whether two device identifiers are the same.
pub fn same_device(a: DeviceId, b: DeviceId) -> (r: bool)
    ensures
        r == (a == b),
{
    proof {
        if dk(a) == dk(b) {
            lemma_dk_injective(a, b);
        }
    }
    a.key() == b.key()
}

/// What is shown of a connection; nothing but the device where there is none.
pub open spec fn describes(info: ConnInfo, conns: Map<u64, Conn>, device: DeviceId) -> bool {
    &&& info.device == device
    &&& if conns.contains_key(dk(device)) {
        let c = conns[dk(device)];
        &&& info.name == c.name
        &&& info.addr == c.addr
        &&& info.fingerprint == c.fingerprint
        &&& info.sas == c.sas
        &&& info.paired == c.authorised
    } else {
        &&& info.name@.len() == 0
        &&& info.addr == (SocketAddr { ip: IpAddr::V4(0), port: 0 })
        &&& info.fingerprint@.len() == 0
        &&& info.sas@.len() == 0
        &&& !info.paired
    }
}

/// The action emits an error with this text.
pub open spec fn is_error(a: Action, text: Seq<char>) -> bool {
    a matches Action::Emit(EngineEvent::Error(t)) && t@ == text
}

/// The action emits a notice with this text.
pub open spec fn is_notice(a: Action, text: Seq<char>) -> bool {
    a matches Action::Emit(EngineEvent::Notice(t)) && t@ == text
}

/// The action tells a device that a file is not wanted.
pub open spec fn is_file_reject(
    a: Action,
    device: DeviceId,
    id: TransferId,
    reason: Seq<char>,
) -> bool {
    a matches Action::Send { to, msg: Message::FileReject(r) } && to == device && r.id == id
        && r.reason@ == reason
}

/// The action tells a device that a transfer failed.
pub open spec fn is_file_error(
    a: Action,
    device: DeviceId,
    id: TransferId,
    reason: Seq<char>,
) -> bool {
    a matches Action::Send { to, msg: Message::FileError(r) } && to == device && r.id == id
        && r.reason@ == reason
}

/// The action tells a device that a transfer was cancelled.
pub open spec fn is_file_cancel(
    a: Action,
    device: DeviceId,
    id: TransferId,
    reason: Seq<char>,
) -> bool {
    a matches Action::Send { to, msg: Message::FileCancel(r) } && to == device && r.id == id
        && r.reason@ == reason
}

impl Engine {
    /// The tables keep their bounds, each entry stands under its own key, and
    /// each entry is well formed.
    pub open spec fn wf(&self) -> bool {
        &&& self.conns@.dom().finite()
        &&& self.conns@.len() <= MAX_CONNECTIONS
        &&& forall|k: u64| #[trigger]
            self.conns@.contains_key(k) ==> dk(self.conns@[k].device) == k && self.conns@[k].wf()
        &&& self.peers@.dom().finite()
        &&& self.peers@.len() <= MAX_PEERS
        &&& forall|k: u64| #[trigger]
            self.peers@.contains_key(k) ==> dk(self.peers@[k].info.device) == k && short_key(
                self.peers@[k].info.public_key@,
            )
        &&& self.incoming@.dom().finite()
        &&& self.incoming@.len() <= MAX_INCOMING_TRANSFERS
        &&& forall|k: u128| #[trigger]
            self.incoming@.contains_key(k) ==> tk(self.incoming@[k].id) == k
                && self.incoming@[k].wf()
        &&& self.outgoing@.dom().finite()
        &&& forall|k: u128| #[trigger]
            self.outgoing@.contains_key(k) ==> tk(self.outgoing@[k].id) == k
        &&& self.guard.wf()
    }

    /// The connection to a device is there and its peer is authorised.
    pub open spec fn has_authorised(&self, device: DeviceId) -> bool {
        self.conns@.contains_key(dk(device)) && self.conns@[dk(device)].authorised
    }

    /// What is shown of a connection; see [`describes`].
    pub fn conn_info(&self, device: DeviceId) -> (r: ConnInfo)
        ensures
            describes(r, self.conns@, device),
    {
        match self.conns.get(&device.key()) {
            Some(c) => ConnInfo {
                device,
                name: c.name.clone(),
                addr: c.addr,
                fingerprint: c.fingerprint.clone(),
                sas: c.sas.clone(),
                paired: c.authorised,
            },
            None => ConnInfo {
                device,
                name: String::new(),
                addr: SocketAddr { ip: IpAddr::V4(0), port: 0 },
                fingerprint: String::new(),
                sas: String::new(),
                paired: false,
            },
        }
    }
}

} // verus!
