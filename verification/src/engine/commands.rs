//! What a front-end asks of the engine.

use std::collections::BTreeMap;
use vstd::prelude::*;
use vstd::string::*;
use crate::codec;
use crate::config::{Config, Paths};
use crate::engine;
use crate::engine::connection;
use crate::engine::files;
use crate::engine::guard::ConnGuard;
use crate::engine::peers;
use crate::engine::table;
use crate::engine::uri;
use crate::engine::uri::PairingError;
use crate::engine::{Action, Conn, Engine, EngineEvent, KEEPALIVE, MAX_CONNECTIONS};
use crate::net::discovery::{BeaconInfo, Discovery};
use crate::net::limit;
use crate::proto;
use crate::proto::{Message, TextMsg, TransferId, MAX_TEXT_CHARS};
use crate::security::fingerprint;
use crate::security::fingerprint::DeviceId;
use crate::security::keystore::Identity;
use crate::security::trust;
use crate::security::trust::{TrustStore, TrustedDevice};
use crate::text;
use crate::util;
use crate::util::{IpAddr, SocketAddr};

verus! {

broadcast use vstd::laws_cmp::group_laws_cmp;

/// What the user is told once the listener runs.
pub open spec fn told_listening(config: Config, port: u16, acts: Seq<Action>) -> bool {
    let moved = port != config.tcp_port;
    let n: int = if moved {
        1
    } else {
        0
    };
    &&& acts.len() == n + if config.accept_incoming {
        0int
    } else {
        1int
    }
    &&& moved ==> engine::is_notice(
        acts[0],
        "Порт "@ + text::decimal(config.tcp_port as nat) + " занят, слушаем "@ + text::decimal(
            port as nat,
        ),
    )
    &&& !config.accept_incoming ==> engine::is_notice(acts[n], "Входящие подключения отключены"@)
}

/// What is announced of this device.
pub open spec fn is_own_beacon(info: BeaconInfo, e: Engine) -> bool {
    &&& info.public_key@ == e.identity.spec_public()
    &&& info.name == e.config.device_name
    &&& info.port == e.bound_port
    &&& info.platform == e.platform
    &&& info.announce == e.config.discovery_enabled
}

/// The key of a device, if it is known: that of its connection, else the one
/// that it announced, else the one in the trust store.
pub open spec fn is_key_of(e: Engine, device: DeviceId, key: Option<Seq<u8>>) -> bool {
    let k = engine::dk(device);
    if e.conns@.contains_key(k) {
        key == Some(e.conns@[k].key@)
    } else if e.peers@.contains_key(k) {
        key == Some(e.peers@[k].info.public_key@)
    } else {
        let ds = e.trust.spec_devices();
        match key {
            Some(bytes) => exists|i: int| #[trigger]
                e.trust.first_of(device, i) && ds[i].spec_key() == Some(bytes),
            None => forall|j: int|
                0 <= j < ds.len() ==> !((#[trigger] ds[j]).spec_key() matches Some(bytes)
                    && fingerprint::device_bytes(bytes) == device.0@),
        }
    }
}

/// What closing the connection to a device takes.
pub open spec fn told_close(e: Engine, device: DeviceId, acts: Seq<Action>) -> bool {
    if e.conns@.contains_key(engine::dk(device)) {
        acts.len() == 1 && acts[0] == Action::Close { device }
    } else {
        acts.len() == 0
    }
}

/// What forgetting a device does, if its key is known: it leaves the trust
/// store and its connection is closed.
pub open spec fn forgotten(
    pre: Engine,
    post: Engine,
    device: DeviceId,
    key: Option<Seq<u8>>,
    acts: Seq<Action>,
) -> bool {
    match key {
        Some(bytes) => {
            &&& trust::removed(
                pre.trust.spec_devices(),
                post.trust.spec_devices(),
                bytes,
                pre.trust.spec_get(bytes) is Some,
            )
            &&& acts.len() >= 2
            &&& acts[0] == Action::SaveTrust { report: false }
            &&& told_close(pre, device, acts.subrange(1, acts.len() - 1))
            &&& acts.last() == Action::Emit(EngineEvent::TrustChanged)
        },
        None => post.trust == pre.trust && acts.len() == 0,
    }
}

/// How a record changes when its files are to be written without asking, or
/// not.
pub open spec fn auto_set(on: bool) -> spec_fn(TrustedDevice, TrustedDevice) -> bool {
    |a: TrustedDevice, b: TrustedDevice| b == (TrustedDevice { auto_accept_files: on, ..a })
}

/// How a record changes when its device is blocked, or not any more.
pub open spec fn block_set(on: bool) -> spec_fn(TrustedDevice, TrustedDevice) -> bool {
    |a: TrustedDevice, b: TrustedDevice| b == (TrustedDevice { blocked: on, ..a })
}

/// What changing the record of a device does; with `close` its connection is
/// closed.
pub open spec fn marked(
    pre: Engine,
    post: Engine,
    device: DeviceId,
    key: Option<Seq<u8>>,
    step: spec_fn(TrustedDevice, TrustedDevice) -> bool,
    close: bool,
    acts: Seq<Action>,
) -> bool {
    match key {
        Some(bytes) => {
            &&& trust::changed(
                pre.trust.spec_devices(),
                post.trust.spec_devices(),
                bytes,
                step,
            )
            &&& acts.len() >= 2
            &&& acts[0] == Action::SaveTrust { report: false }
            &&& if close {
                told_close(pre, device, acts.subrange(1, acts.len() - 1))
            } else {
                acts.len() == 2
            }
            &&& acts.last() == Action::Emit(EngineEvent::TrustChanged)
        },
        None => {
            &&& post.trust == pre.trust
            &&& acts.len() == 1
            &&& acts[0] == Action::Emit(EngineEvent::TrustChanged)
        },
    }
}

/// One request to close for each connection.
pub open spec fn closes(m: Map<u64, Conn>, ks: Seq<u64>, acts: Seq<Action>) -> bool {
    &&& acts.len() == ks.len()
    &&& forall|i: int|
        0 <= i < ks.len() ==> #[trigger] acts[i] == (Action::Close { device: m[ks[i]].device })
}

/// What is announced after the settings changed.
pub open spec fn renamed(pre: BeaconInfo, post: BeaconInfo, config: Config) -> bool {
    relabelled(pre, post, config.device_name, config.discovery_enabled)
}

/// What is announced under another name, or not at all.
pub open spec fn relabelled(
    pre: BeaconInfo,
    post: BeaconInfo,
    name: String,
    announce: bool,
) -> bool {
    post == (BeaconInfo { name, announce, ..pre })
}

/// See [`relabelled`].
fn relabel(info: BeaconInfo, name: String, announce: bool) -> (r: BeaconInfo)
    ensures
        relabelled(info, r, name, announce),
{
    BeaconInfo {
        public_key: info.public_key,
        name,
        port: info.port,
        platform: info.platform,
        announce,
    }
}

/// What becomes of a text that the user wants to send.
#[derive(Debug)]
pub enum TextStep {
    /// There is nothing in it.
    Nothing,
    /// It cannot be sent; the user is told.
    Refused(Action),
    /// It is to be sent, then [`Engine::text_sent`].
    Send(TextMsg),
}

/// Room in a control message for its time and the JSON form of its text, beside
/// the other fields.
pub const MAX_TEXT_JSON: usize = 16329;

/// Room in a control message of a given time for the JSON form of its text.
pub open spec fn text_room(ts: u64) -> int {
    MAX_TEXT_JSON - text::utf8_len(text::decimal(ts as nat))
}

/// A receiver reads a text that was sent at a given time: it is not too long,
/// neither in characters nor in bytes.
pub open spec fn text_fits(t: Seq<char>, ts: u64) -> bool {
    t.len() <= MAX_TEXT_CHARS && text::utf8_len(codec::json_string(t)) <= text_room(ts)
}

/// The first `n` characters of a text and the mark that it was cut.
pub open spec fn marked_cut(t: Seq<char>, n: int) -> Seq<char> {
    t.take(n).push('…')
}

/// How many of the first `n` characters of a text fit before the mark.
pub open spec fn room_for(t: Seq<char>, ts: u64, n: nat) -> nat
    decreases n,
{
    if n == 0 || text_fits(marked_cut(t, n as int), ts) {
        n
    } else {
        room_for(t, ts, (n - 1) as nat)
    }
}

/// The text as it is sent at a given time: without white space around it, in one
/// line, and cut where a receiver would not read all of it.
pub open spec fn sendable_text(raw: Seq<char>, ts: u64) -> Seq<char> {
    let plain = text::trim(raw);
    let flat = util::clamped(plain, plain.len());
    if text_fits(flat, ts) {
        flat
    } else {
        marked_cut(flat, room_for(flat, ts, flat.len()) as int)
    }
}

/// The bytes of a text inside a JSON string grow with it.
proof fn lemma_json_grows(t: Seq<char>, i: int, j: int)
    requires
        0 <= i <= j <= t.len(),
    ensures
        text::utf8_len(codec::json_string(t.take(i))) <= text::utf8_len(
            codec::json_string(t.take(j)),
        ),
    decreases j - i,
{
    if i < j {
        lemma_json_grows(t, i, j - 1);
        codec::lemma_json_string_push(t.take(j - 1), t[j - 1]);
        assert(t.take(j - 1).push(t[j - 1]) =~= t.take(j));
    }
}

/// If one more character does not fit, the ones so far are all that do.
proof fn lemma_room(t: Seq<char>, ts: u64, n: nat, k: nat)
    requires
        k <= n <= t.len(),
        k == 0 || text_fits(marked_cut(t, k as int), ts),
        k < n ==> !text_fits(marked_cut(t, k as int + 1), ts),
    ensures
        room_for(t, ts, n) == k,
    decreases n,
{
    if k < n {
        lemma_json_grows(t, k as int + 1, n as int);
        codec::lemma_json_string_push(t.take(k as int + 1), '…');
        codec::lemma_json_string_push(t.take(n as int), '…');
        assert(!text_fits(marked_cut(t, n as int), ts));
        lemma_room(t, ts, (n - 1) as nat, k);
    }
}

/// The mark alone fits.
proof fn lemma_mark_fits(t: Seq<char>, ts: u64)
    ensures
        text_fits(marked_cut(t, 0), ts),
{
    text::lemma_u64_bytes(ts);
    assert(marked_cut(t, 0) =~= seq!['…']);
    codec::lemma_json_string_bytes(seq!['…']);
}

/// See [`text_room`].
fn room_at(ts: u64) -> (r: usize)
    ensures
        r == text_room(ts),
        r <= MAX_TEXT_JSON,
{
    let t = text::decimal_text(ts);
    proof {
        text::lemma_u64_bytes(ts);
    }
    MAX_TEXT_JSON - t.as_str().as_bytes().len()
}

/// See [`text_fits`].
fn fits(v: &Vec<char>, ts: u64) -> (r: bool)
    ensures
        r == text_fits(v@, ts),
{
    if v.len() > MAX_TEXT_CHARS {
        return false;
    }
    let mut used: usize = 2;
    let mut i: usize = 0;
    proof {
        assert(v@.take(0) =~= Seq::<char>::empty());
        codec::lemma_json_string_len(v@.take(0));
    }
    while i < v.len()
        invariant
            i <= v@.len() <= MAX_TEXT_CHARS,
            used == text::utf8_len(codec::json_string(v@.take(i as int))),
            used <= 2 + 6 * i,
        decreases v.len() - i,
    {
        proof {
            codec::lemma_json_string_push(v@.take(i as int), v@[i as int]);
            assert(v@.take(i as int).push(v@[i as int]) =~= v@.take(i + 1));
        }
        used = used + codec::json_width(v[i]);
        i = i + 1;
    }
    proof {
        assert(v@.take(v@.len() as int) =~= v@);
    }
    used <= room_at(ts)
}

/// See [`room_for`].
fn room(v: &Vec<char>, ts: u64) -> (r: usize)
    ensures
        r == room_for(v@, ts, v@.len()),
        r <= v@.len(),
        text_fits(marked_cut(v@, r as int), ts),
{
    let most: usize = room_at(ts);
    let mark: usize = codec::json_width('…');
    let mut used: usize = 2;
    let mut k: usize = 0;
    proof {
        assert(v@.take(0) =~= Seq::<char>::empty());
        codec::lemma_json_string_len(v@.take(0));
        lemma_mark_fits(v@, ts);
        codec::lemma_json_string_push(v@.take(0), '…');
    }
    while k < v.len() && k + 2 <= MAX_TEXT_CHARS && used + codec::json_width(v[k]) + mark <= most
        invariant
            k <= v@.len(),
            k < MAX_TEXT_CHARS,
            mark == text::utf8_len(codec::json_escape('…')),
            mark <= 6,
            used == text::utf8_len(codec::json_string(v@.take(k as int))),
            most == text_room(ts),
            used <= most <= MAX_TEXT_JSON,
            text_fits(marked_cut(v@, k as int), ts),
        decreases v.len() - k,
    {
        proof {
            codec::lemma_json_string_push(v@.take(k as int), v@[k as int]);
            assert(v@.take(k as int).push(v@[k as int]) =~= v@.take(k + 1));
            codec::lemma_json_string_push(v@.take(k + 1), '…');
        }
        used = used + codec::json_width(v[k]);
        k = k + 1;
    }
    proof {
        if k < v@.len() {
            codec::lemma_json_string_push(v@.take(k as int), v@[k as int]);
            assert(v@.take(k as int).push(v@[k as int]) =~= v@.take(k + 1));
            codec::lemma_json_string_push(v@.take(k + 1), '…');
        }
        lemma_room(v@, ts, v@.len(), k as nat);
    }
    k
}

/// See [`sendable_text`].
fn text_to_send(raw: &str, ts: u64) -> (r: String)
    ensures
        r@ == sendable_text(raw@, ts),
{
    let plain = text::trim_str(raw);
    let n: usize = text::to_chars(plain.as_str()).len();
    let flat = util::clamp_str(plain.as_str(), n);
    let v = text::to_chars(flat.as_str());
    if fits(&v, ts) {
        return flat;
    }
    let k: usize = room(&v, ts);
    let mut r = text::chars_to_string(v.as_slice(), 0, k);
    r.push('…');
    proof {
        assert(v@.subrange(0, k as int) =~= v@.take(k as int));
    }
    r
}

/// See [`Engine::send_text_with`].
pub open spec fn composed(
    e: Engine,
    to: DeviceId,
    raw: Seq<char>,
    id: TransferId,
    ts: u64,
    r: TextStep,
) -> bool {
    if text::trim(raw).len() == 0 {
        r is Nothing
    } else {
        match e.send_refusal(to) {
            Some(why) => r matches TextStep::Refused(a) && engine::is_error(a, why),
            None => r matches TextStep::Send(m) && m.id == id && m.ts == ts && m.text@
                == sendable_text(raw, ts),
        }
    }
}

/// Why an address is not dialled, if it is not.
pub open spec fn dial_refusal(e: Engine, ip: IpAddr, shown: Seq<char>) -> Option<Seq<char>> {
    if e.config.lan_only && !util::lan_addr(ip) {
        Some(
            "Адрес "@ + shown + " вне локальной сети (включите доступ вне LAN в настройках)"@,
        )
    } else if e.conns@.len() >= MAX_CONNECTIONS {
        Some("Слишком много подключений"@)
    } else {
        None
    }
}

impl Engine {
    /// An engine that knows nobody yet.
    pub fn start(
        identity: Identity,
        config: Config,
        paths: Paths,
        trust: TrustStore,
        platform: String,
    ) -> (r: Self)
        ensures
            r.wf(),
            r.identity == identity,
            r.config == config,
            r.paths == paths,
            r.trust == trust,
            r.platform == platform,
            r.conns@ == Map::<u64, Conn>::empty(),
            r.peers@ == Map::<u64, engine::PeerEntry>::empty(),
            r.incoming@ == Map::<u128, engine::transfer::IncomingTransfer>::empty(),
            r.outgoing@ == Map::<u128, engine::Outgoing>::empty(),
            r.guard.seen.entries@ == Seq::<limit::Source>::empty(),
            r.discovery is None,
            r.bound_port == 0,
            r.running,
    {
        Engine {
            identity,
            paths,
            config,
            trust,
            conns: BTreeMap::new(),
            peers: BTreeMap::new(),
            incoming: BTreeMap::new(),
            outgoing: BTreeMap::new(),
            guard: ConnGuard::new(),
            discovery: None,
            bound_port: 0,
            platform,
            running: true,
        }
    }

    /// The listener runs on a port; see [`told_listening`].
    pub fn listening(&mut self, port: u16) -> (acts: Vec<Action>)
        requires
            old(self).wf(),
        ensures
            final(self).wf(),
            *final(self) == (Engine { bound_port: port, ..*old(self) }),
            told_listening(old(self).config, port, acts@),
    {
        let mut acts: Vec<Action> = Vec::new();
        self.bound_port = port;
        let want: u16 = self.config.tcp_port;
        if port != want {
            let mut notice = "Порт ".to_string();
            notice.append(text::decimal_text(want as u64).as_str());
            notice.append(" занят, слушаем ");
            notice.append(text::decimal_text(port as u64).as_str());
            acts.push(Action::Emit(EngineEvent::Notice(notice)));
        }
        if !self.config.accept_incoming {
            acts.push(
                Action::Emit(EngineEvent::Notice("Входящие подключения отключены".to_string())),
            );
        }
        acts
    }

    /// The socket for announcements was opened, or could not be: discovery is a
    /// convenience, and without it the device still works for peers that know
    /// its address.
    pub fn discovering(&mut self, opened: Result<(), String>) -> (acts: Vec<Action>)
        requires
            old(self).wf(),
        ensures
            final(self).wf(),
            *final(self) == (Engine { discovery: final(self).discovery, ..*old(self) }),
            match opened {
                Ok(_) => {
                    &&& acts@.len() == 0
                    &&& final(self).discovery matches Some(d) && d.spec_running() && is_own_beacon(
                        d.spec_info(),
                        *old(self),
                    )
                },
                Err(why) => {
                    &&& final(self).discovery == old(self).discovery
                    &&& acts@.len() == 1
                    &&& engine::is_notice(
                        acts@[0],
                        "Обнаружение в сети недоступно ("@ + why@
                            + "); подключайтесь по адресу вручную"@,
                    )
                },
            },
    {
        let mut acts: Vec<Action> = Vec::new();
        match opened {
            Ok(_) => {
                let info = BeaconInfo {
                    public_key: self.public_key(),
                    name: self.config.device_name.clone(),
                    port: self.bound_port,
                    platform: self.platform.clone(),
                    announce: self.config.discovery_enabled,
                };
                self.discovery = Some(Discovery::start(info));
            },
            Err(why) => {
                let mut notice = "Обнаружение в сети недоступно (".to_string();
                notice.append(why.as_str());
                notice.append("); подключайтесь по адресу вручную");
                acts.push(Action::Emit(EngineEvent::Notice(notice)));
            },
        }
        acts
    }

    /// What is due now and then: peers and prompts expire, and connections are
    /// kept alive. `last_ping` is the time of the last keepalive; the result
    /// holds that of the next.
    pub fn housekeep(&mut self, now: u64, last_ping: u64) -> (r: (u64, Vec<Action>))
        requires
            old(self).wf(),
        ensures
            final(self).wf(),
            *final(self) == (Engine { peers: final(self).peers, ..*old(self) }),
            final(self).peers@ == peers::heard_of(old(self).peers@, now),
            r.0 == if limit::spec_elapsed(now, last_ping) >= KEEPALIVE {
                now
            } else {
                last_ping
            },
            exists|ks: Seq<u64>, cs: Seq<u64>, a: Seq<Action>, b: Seq<Action>, c: Seq<Action>|
                #![trigger table::keys_of(old(self).peers@, ks), table::keys_of(old(self).conns@, cs), a + b + c]
                {
                    &&& r.1@ == a + b + c
                    &&& table::keys_of(old(self).peers@, ks)
                    &&& table::keys_of(old(self).conns@, cs)
                    &&& peers::told_lost(
                        old(self).peers@,
                        peers::silent_keys(old(self).peers@, ks, now),
                        a,
                    )
                    &&& peers::told_overdue(
                        old(self).conns@,
                        peers::overdue_keys(old(self).conns@, cs, now),
                        b,
                    )
                    &&& if limit::spec_elapsed(now, last_ping) >= KEEPALIVE {
                        peers::pinged(old(self).conns@, cs, c)
                    } else {
                        c.len() == 0
                    }
                },
    {
        let ghost pre = *self;
        let mut acts = self.expire_peers(now);
        let ghost a = acts@;
        let late = self.expire_pairings(now);
        let ghost b = late@;
        files::extend(&mut acts, late);
        let ghost ks = choose|ks: Seq<u64>| #[trigger]
            table::keys_of(pre.peers@, ks) && peers::told_lost(
                pre.peers@,
                peers::silent_keys(pre.peers@, ks, now),
                a,
            );
        let ghost cs = choose|cs: Seq<u64>| #[trigger]
            table::keys_of(pre.conns@, cs) && peers::told_overdue(
                pre.conns@,
                peers::overdue_keys(pre.conns@, cs, now),
                b,
            );
        if limit::elapsed(now, last_ping) >= KEEPALIVE {
            let pings = self.ping_all();
            let ghost c = pings@;
            files::extend(&mut acts, pings);
            proof {
                let other = choose|other: Seq<u64>| #[trigger]
                    table::keys_of(pre.conns@, other) && peers::pinged(pre.conns@, other, c);
                table::lemma_keys_unique(pre.conns@, cs, other);
                assert(table::keys_of(pre.peers@, ks) && table::keys_of(pre.conns@, cs) && acts@
                    == a + b + c);
            }
            (now, acts)
        } else {
            proof {
                assert(acts@ =~= a + b + Seq::<Action>::empty());
                assert(table::keys_of(pre.peers@, ks) && table::keys_of(pre.conns@, cs));
            }
            (last_ping, acts)
        }
    }

    /// The key of a device; see [`is_key_of`].
    pub fn key_for(&self, device: DeviceId) -> (r: Option<Vec<u8>>)
        requires
            self.wf(),
        ensures
            is_key_of(
                *self,
                device,
                match r {
                    Some(k) => Some(k@),
                    None => None,
                },
            ),
            r matches Some(k) ==> engine::short_key(k@),
    {
        let k: u64 = device.key();
        if let Some(c) = self.conns.get(&k) {
            return Some(engine::copy_bytes(&c.key));
        }
        if let Some(p) = self.peers.get(&k) {
            return Some(engine::copy_bytes(&p.info.public_key));
        }
        match self.trust.by_device_id(device) {
            Some(d) => d.key_bytes(),
            None => None,
        }
    }

    /// Connects to a device that announced itself.
    pub fn connect(&self, device: DeviceId) -> (acts: Vec<Action>)
        ensures
            acts@.len() == 1,
            if self.peers@.contains_key(engine::dk(device)) {
                let p = self.peers@[engine::dk(device)].info;
                acts@[0] matches Action::Dial { addr, expect_key: Some(key) } && addr == p.addr
                    && key@ == p.public_key@
            } else {
                engine::is_error(acts@[0], "Устройство не найдено в сети"@)
            },
    {
        let mut acts: Vec<Action> = Vec::new();
        match self.peers.get(&device.key()) {
            Some(p) => {
                acts.push(
                    Action::Dial {
                        addr: p.info.addr,
                        expect_key: Some(engine::copy_bytes(&p.info.public_key)),
                    },
                );
            },
            None => {
                acts.push(
                    Action::Emit(EngineEvent::Error("Устройство не найдено в сети".to_string())),
                );
            },
        }
        acts
    }

    /// Whether an address, which is shown as `shown`, may be dialled now; see
    /// [`dial_refusal`].
    pub fn dial(&self, ip: IpAddr, shown: &str) -> (r: Result<(), Action>)
        ensures
            match r {
                Ok(_) => dial_refusal(*self, ip, shown@) is None,
                Err(a) => dial_refusal(*self, ip, shown@) matches Some(why) && engine::is_error(
                    a,
                    why,
                ),
            },
    {
        if self.config.lan_only && !util::is_lan_addr(ip) {
            let mut why = "Адрес ".to_string();
            why.append(shown);
            why.append(" вне локальной сети (включите доступ вне LAN в настройках)");
            return Err(Action::Emit(EngineEvent::Error(why)));
        }
        if self.conns.len() >= MAX_CONNECTIONS {
            return Err(
                Action::Emit(EngineEvent::Error("Слишком много подключений".to_string())),
            );
        }
        Ok(())
    }

    /// A dialled address could not be reached.
    pub fn unreachable(shown: &str, why: &str) -> (r: Action)
        ensures
            engine::is_error(r, "Не удалось подключиться к "@ + shown@ + ": "@ + why@),
    {
        let mut t = "Не удалось подключиться к ".to_string();
        t.append(shown);
        t.append(": ");
        t.append(why);
        Action::Emit(EngineEvent::Error(t))
    }

    /// The handshake with a dialled address failed.
    pub fn handshake_failed(shown: &str, why: &str) -> (r: Action)
        ensures
            engine::is_error(r, "Рукопожатие с "@ + shown@ + " не удалось: "@ + why@),
    {
        let mut t = "Рукопожатие с ".to_string();
        t.append(shown);
        t.append(" не удалось: ");
        t.append(why);
        Action::Emit(EngineEvent::Error(t))
    }

    /// The trust store could not be written, where the user is told so; see
    /// [`Action::SaveTrust`].
    pub fn trust_not_saved(why: &str) -> (r: Action)
        ensures
            engine::is_error(r, "Не удалось записать список доверия: "@ + why@),
    {
        let mut t = "Не удалось записать список доверия: ".to_string();
        t.append(why);
        Action::Emit(EngineEvent::Error(t))
    }

    /// Parse and dial a `syncmob://pair?...` URI (typically from a QR code).
    /// `host` is what the text from [`uri::pairing_host`] was read as.
    pub fn dial_pairing_uri(&self, link: &str, host: Option<IpAddr>) -> (r: Result<
        Action,
        PairingError,
    >)
        ensures
            match r {
                Ok(a) => {
                    &&& uri::link_rest(link@) is Some
                    &&& a matches Action::Dial { addr, expect_key: Some(key) } && host == Some(
                        addr.ip,
                    ) && addr.port == uri::link_port(link@) && key@.len() == 32 && uri::is_link_key(
                        link@,
                        key@,
                    )
                },
                Err(PairingError::NotALink) => uri::link_rest(link@) is None,
                Err(PairingError::NoKey) => uri::link_rest(link@) is Some && forall|k: Seq<u8>|
                    !#[trigger] uri::is_link_key(link@, k),
                Err(PairingError::KeyLength) => exists|k: Seq<u8>|
                    k.len() != 32 && #[trigger] uri::is_link_key(link@, k),
                Err(PairingError::NoHost) => host is None && exists|k: Seq<u8>|
                    k.len() == 32 && #[trigger] uri::is_link_key(link@, k),
            },
    {
        match uri::parse_pairing_uri(link, host) {
            Ok(t) => Ok(
                Action::Dial {
                    addr: SocketAddr { ip: t.host, port: t.port },
                    expect_key: Some(t.public_key),
                },
            ),
            Err(e) => Err(e),
        }
    }

    /// Closes the connection to a device, if there is one.
    pub fn disconnect(&self, device: DeviceId) -> (acts: Vec<Action>)
        ensures
            told_close(*self, device, acts@),
    {
        let mut acts: Vec<Action> = Vec::new();
        if self.conns.contains_key(&device.key()) {
            acts.push(Action::Close { device });
        }
        acts
    }

    /// Sends a text; see [`composed`].
    pub fn send_text(&self, to: DeviceId, raw: &str) -> (r: TextStep)
        ensures
            exists|id: TransferId, ts: u64| #[trigger] composed(*self, to, raw@, id, ts, r),
    {
        let id = TransferId::random();
        let ts: u64 = trust::now_ms();
        self.send_text_with(to, raw, id, ts)
    }

    /// Sends a text under a given identifier at a given time: nothing if there
    /// is nothing in it, and an error if the device cannot be written to.
    pub fn send_text_with(&self, to: DeviceId, raw: &str, id: TransferId, ts: u64) -> (r: TextStep)
        ensures
            composed(*self, to, raw@, id, ts, r),
    {
        let t = text_to_send(raw, ts);
        proof {
            codec::lemma_json_string_len(util::clamped(text::trim(raw@), text::trim(raw@).len()));
            text::lemma_u64_bytes(ts);
        }
        if t.as_str().is_empty() {
            return TextStep::Nothing;
        }
        match self.send_to(to) {
            Err(why) => TextStep::Refused(Action::Emit(EngineEvent::Error(why))),
            Ok(_) => TextStep::Send(TextMsg { id, ts, text: t }),
        }
    }

    /// A text was sent, or could not be.
    pub fn text_sent(to: DeviceId, msg: TextMsg, outcome: Result<(), String>) -> (r: Action)
        ensures
            match outcome {
                Ok(_) => r matches Action::Emit(EngineEvent::TextSent { to: d, text, ts }) && d
                    == to && text == msg.text && ts == msg.ts,
                Err(why) => engine::is_error(r, "Ошибка отправки: "@ + why@),
            },
    {
        match outcome {
            Ok(_) => Action::Emit(EngineEvent::TextSent { to, text: msg.text, ts: msg.ts }),
            Err(why) => {
                let mut t = "Ошибка отправки: ".to_string();
                t.append(why.as_str());
                Action::Emit(EngineEvent::Error(t))
            },
        }
    }

    /// Takes a device out of the trust store; see [`forgotten`].
    pub fn forget(&mut self, device: DeviceId) -> (acts: Vec<Action>)
        requires
            old(self).wf(),
        ensures
            final(self).wf(),
            *final(self) == (Engine { trust: final(self).trust, ..*old(self) }),
            exists|key: Option<Seq<u8>>| #[trigger]
                is_key_of(*old(self), device, key) && forgotten(
                    *old(self),
                    *final(self),
                    device,
                    key,
                    acts@,
                ),
    {
        let ghost pre = *self;
        let mut acts: Vec<Action> = Vec::new();
        match self.key_for(device) {
            Some(key) => {
                self.trust.remove(key.as_slice());
                acts.push(Action::SaveTrust { report: false });
                let rest = self.disconnect(device);
                let ghost middle = rest@;
                files::extend(&mut acts, rest);
                acts.push(Action::Emit(EngineEvent::TrustChanged));
                proof {
                    assert(acts@.subrange(1, acts@.len() - 1) =~= middle);
                    assert(is_key_of(pre, device, Some(key@)));
                }
            },
            None => {
                proof {
                    assert(is_key_of(pre, device, None));
                }
            },
        }
        acts
    }

    /// Whether files of a device are written without asking; see [`marked`].
    pub fn set_auto_accept(&mut self, device: DeviceId, on: bool) -> (acts: Vec<Action>)
        requires
            old(self).wf(),
        ensures
            final(self).wf(),
            *final(self) == (Engine { trust: final(self).trust, ..*old(self) }),
            exists|key: Option<Seq<u8>>| #[trigger]
                is_key_of(*old(self), device, key) && marked(
                    *old(self),
                    *final(self),
                    device,
                    key,
                    auto_set(on),
                    false,
                    acts@,
                ),
    {
        let ghost pre = *self;
        let mut acts: Vec<Action> = Vec::new();
        match self.key_for(device) {
            Some(key) => {
                self.trust.set_auto_accept(key.as_slice(), on);
                acts.push(Action::SaveTrust { report: false });
                proof {
                    assert(is_key_of(pre, device, Some(key@)));
                    assert(trust::changed(
                        pre.trust.spec_devices(),
                        self.trust.spec_devices(),
                        key@,
                        auto_set(on),
                    ));
                }
            },
            None => {
                proof {
                    assert(is_key_of(pre, device, None));
                }
            },
        }
        acts.push(Action::Emit(EngineEvent::TrustChanged));
        acts
    }

    /// Whether a device is blocked; a device that is blocked now loses its
    /// connection. See [`marked`].
    pub fn set_blocked(&mut self, device: DeviceId, blocked: bool) -> (acts: Vec<Action>)
        requires
            old(self).wf(),
        ensures
            final(self).wf(),
            *final(self) == (Engine { trust: final(self).trust, ..*old(self) }),
            exists|key: Option<Seq<u8>>| #[trigger]
                is_key_of(*old(self), device, key) && marked(
                    *old(self),
                    *final(self),
                    device,
                    key,
                    block_set(blocked),
                    blocked,
                    acts@,
                ),
    {
        let ghost pre = *self;
        let mut acts: Vec<Action> = Vec::new();
        match self.key_for(device) {
            Some(key) => {
                self.trust.set_blocked(key.as_slice(), blocked);
                acts.push(Action::SaveTrust { report: false });
                proof {
                    assert(is_key_of(pre, device, Some(key@)));
                    assert(trust::changed(
                        pre.trust.spec_devices(),
                        self.trust.spec_devices(),
                        key@,
                        block_set(blocked),
                    ));
                }
                if blocked {
                    let rest = self.disconnect(device);
                    let ghost middle = rest@;
                    files::extend(&mut acts, rest);
                    acts.push(Action::Emit(EngineEvent::TrustChanged));
                    proof {
                        assert(acts@.subrange(1, acts@.len() - 1) =~= middle);
                    }
                    return acts;
                }
            },
            None => {
                proof {
                    assert(is_key_of(pre, device, None));
                }
            },
        }
        acts.push(Action::Emit(EngineEvent::TrustChanged));
        acts
    }

    /// Apply changed settings. Port changes take effect on the next start.
    pub fn update_config(&mut self, new: Config) -> (acts: Vec<Action>)
        requires
            old(self).wf(),
        ensures
            final(self).wf(),
            *final(self) == (Engine { config: new, discovery: final(self).discovery, ..*old(self) }),
            match old(self).discovery {
                Some(d) => final(self).discovery matches Some(n) && n.spec_running()
                    == d.spec_running() && renamed(d.spec_info(), n.spec_info(), new),
                None => final(self).discovery is None,
            },
            acts@.len() == 1,
            acts@[0] == Action::SaveConfig,
    {
        let mut held = None;
        std::mem::swap(&mut held, &mut self.discovery);
        if let Some(d) = held {
            let mut d = d;
            let name = new.device_name.clone();
            let announce = new.discovery_enabled;
            let change = |info: BeaconInfo| -> (r: BeaconInfo)
                ensures
                    relabelled(info, r, name, announce),
                {
                    relabel(info, name, announce)
                };
            d.update(change);
            self.discovery = Some(d);
        }
        self.config = new;
        let mut acts: Vec<Action> = Vec::new();
        acts.push(Action::SaveConfig);
        acts
    }

    /// Ends everything: announcements stop and connections are closed.
    pub fn shutdown(&mut self) -> (acts: Vec<Action>)
        requires
            old(self).wf(),
        ensures
            final(self).wf(),
            *final(self) == (Engine {
                running: false,
                discovery: final(self).discovery,
                ..*old(self)
            }),
            match old(self).discovery {
                Some(d) => final(self).discovery matches Some(n) && !n.spec_running()
                    && n.spec_info() == d.spec_info(),
                None => final(self).discovery is None,
            },
            exists|ks: Seq<u64>| #[trigger]
                table::keys_of(old(self).conns@, ks) && closes(old(self).conns@, ks, acts@),
    {
        self.running = false;
        let mut held = None;
        std::mem::swap(&mut held, &mut self.discovery);
        if let Some(d) = held {
            let mut d = d;
            d.stop();
            self.discovery = Some(d);
        }
        let all = table::keys(&self.conns);
        let mut acts: Vec<Action> = Vec::new();
        let mut i: usize = 0;
        while i < all.len()
            invariant
                i <= all@.len(),
                table::keys_of(self.conns@, all@),
                closes(self.conns@, all@.take(i as int), acts@),
            decreases all.len() - i,
        {
            let k: u64 = all[i];
            proof {
                assert(all@.contains(k));
                assert(self.conns@.contains_key(k));
            }
            if let Some(c) = self.conns.get(&k) {
                acts.push(Action::Close { device: c.device });
            }
            i = i + 1;
        }
        proof {
            assert(all@.take(all@.len() as int) =~= all@);
        }
        acts
    }

    pub fn public_key(&self) -> (r: Vec<u8>)
        ensures
            r@ == self.identity.spec_public(),
    {
        let pk = self.identity.public_key();
        proof {
            assert(pk@.subrange(0, pk@.len() as int) =~= pk@);
        }
        crate::bytes::slice_to_vec(pk, 0, pk.len())
    }
}

/// A device that was forgotten is trusted no more; the others stay as they were.
pub proof fn law_forgotten_device_is_not_trusted(
    pre: Engine,
    post: Engine,
    device: DeviceId,
    key: Seq<u8>,
    acts: Seq<Action>,
    other: Seq<u8>,
)
    requires
        trust::in_order(pre.trust.spec_devices()),
        forgotten(pre, post, device, Some(key), acts),
        other != key,
    ensures
        post.trust.spec_get(key) is None,
        !post.trust.authorises(key),
        post.trust.spec_get(other) == pre.trust.spec_get(other),
{
    let r = pre.trust.spec_get(key) is Some;
    trust::law_removed_device_is_not_authorised(
        pre.trust.spec_devices(),
        post.trust.spec_devices(),
        key,
        r,
    );
    trust::law_removal_leaves_others(
        pre.trust.spec_devices(),
        post.trust.spec_devices(),
        key,
        r,
        other,
    );
}

/// A device that was blocked gets no connection, whatever it proves and whoever
/// dials.
pub proof fn law_blocked_device_gets_no_connection(
    pre: Engine,
    mid: Engine,
    post: Engine,
    device: DeviceId,
    key: Seq<u8>,
    told: Seq<Action>,
    hash: Seq<u8>,
    addr: SocketAddr,
    shown: Seq<char>,
    we_dialed: bool,
    expect_key: Option<Vec<u8>>,
    now: u64,
    kept: bool,
    acts: Seq<Action>,
)
    requires
        trust::in_order(pre.trust.spec_devices()),
        pre.trust.spec_get(key) is Some,
        marked(pre, mid, device, Some(key), block_set(true), true, told),
        connection::begun(
            mid,
            post,
            device,
            key,
            hash,
            addr,
            shown,
            we_dialed,
            expect_key,
            now,
            kept,
            acts,
        ),
    ensures
        !kept,
        post == mid,
{
    let other = key.push(0u8);
    assert(other.len() != key.len());
    let step = |a: TrustedDevice, b: TrustedDevice| b == (TrustedDevice { blocked: true, ..a });
    assert(trust::changed(pre.trust.spec_devices(), mid.trust.spec_devices(), key, step));
    trust::law_blocked_device_is_not_authorised(
        pre.trust.spec_devices(),
        mid.trust.spec_devices(),
        key,
        other,
    );
}

/// A text that is sent has at most [`MAX_TEXT_CHARS`] characters and can be read
/// by the receiver.
pub proof fn law_sent_text_is_readable(raw: Seq<char>, m: TextMsg)
    requires
        m.text@ == sendable_text(raw, m.ts),
    ensures
        m.text@.len() <= MAX_TEXT_CHARS,
        proto::is_readable(Message::Text(m)),
{
    let plain = text::trim(raw);
    let flat = util::clamped(plain, plain.len());
    lemma_room_fits(flat, m.ts, flat.len());
    proto::lemma_text_bytes(m);
}

proof fn lemma_room_fits(t: Seq<char>, ts: u64, n: nat)
    requires
        n <= t.len(),
    ensures
        text_fits(marked_cut(t, room_for(t, ts, n) as int), ts),
    decreases n,
{
    if n == 0 {
        lemma_mark_fits(t, ts);
    } else if !text_fits(marked_cut(t, n as int), ts) {
        lemma_room_fits(t, ts, (n - 1) as nat);
    }
}

/// No more characters fit before the mark.
pub proof fn lemma_room_is_most(t: Seq<char>, ts: u64, n: nat, j: nat)
    requires
        room_for(t, ts, n) < j <= n,
    ensures
        !text_fits(marked_cut(t, j as int), ts),
    decreases n,
{
    if n > 0 && !text_fits(marked_cut(t, n as int), ts) && j < n {
        lemma_room_is_most(t, ts, (n - 1) as nat, j);
    }
}

/// What fits before the mark is part of the text.
pub proof fn lemma_room_within(t: Seq<char>, ts: u64, n: nat)
    ensures
        room_for(t, ts, n) <= n,
    decreases n,
{
    if n > 0 && !text_fits(marked_cut(t, n as int), ts) {
        lemma_room_within(t, ts, (n - 1) as nat);
    }
}

/// A text is sent as it is, in one line and without white space around it, if
/// and only if a message with it can be read by the receiver; a longer one is
/// cut.
pub proof fn law_readable_text_is_sent_whole(raw: Seq<char>, m: TextMsg)
    requires
        m.text@ == util::clamped(text::trim(raw), text::trim(raw).len()),
    ensures
        m.text@.len() == text::trim(raw).len(),
        forall|i: int|
            0 <= i < m.text@.len() ==> #[trigger] m.text@[i] == util::one_line(text::trim(raw)[i]),
        proto::is_readable(Message::Text(m)) <==> sendable_text(raw, m.ts) == m.text@,
{
    if sendable_text(raw, m.ts) == m.text@ {
        law_sent_text_is_readable(raw, m);
    }
    proto::lemma_text_bytes(m);
}

} // verus!
