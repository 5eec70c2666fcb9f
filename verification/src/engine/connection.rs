//! The life of a connection: who is let in, what a new connection is told, and
//! what its peer may say.

use vstd::prelude::*;
use vstd::string::*;
use crate::codec;
use crate::engine;
use crate::engine::guard;
use crate::engine::guard::MINUTE;
use crate::engine::outgoing;
use crate::engine::pairing;
use crate::engine::{Action, Conn, Engine, EngineEvent, MAX_CONNECTIONS};
use crate::proto;
use crate::proto::{Hello, Message, PairRequest, MAX_NAME_CHARS};
use crate::security::fingerprint;
use crate::security::fingerprint::DeviceId;
use crate::security::trust;
use crate::util;
use crate::util::{IpAddr, SocketAddr};

verus! {

broadcast use vstd::laws_cmp::group_laws_cmp;

/// Whether a connection from an address may start its handshake: connections
/// are accepted at all, the address is a local one unless others are accepted,
/// there is room, and the address has not tried too often.
pub open spec fn lets_start(e: Engine, ip: IpAddr, now: u64) -> bool {
    &&& counts_attempt(e, ip)
    &&& guard::lets_in(e.guard.seen.entries@, ip, now)
}

/// Whether an attempt is counted: nothing but the number of attempts may turn
/// it away.
pub open spec fn counts_attempt(e: Engine, ip: IpAddr) -> bool {
    &&& e.config.accept_incoming
    &&& e.config.lan_only ==> util::lan_addr(ip)
    &&& e.conns@.len() < MAX_CONNECTIONS
}

/// The action greets a device.
pub open spec fn is_hello(a: Action, device: DeviceId, name: Seq<char>, platform: Seq<char>) -> bool {
    a matches Action::Send { to, msg: Message::Hello(h) } && to == device && h.name@ == name
        && h.version == 1 && h.platform@ == platform
}

/// The action asks a device to pair.
pub open spec fn is_pair_request(
    a: Action,
    device: DeviceId,
    name: Seq<char>,
    platform: Seq<char>,
) -> bool {
    a matches Action::Send { to, msg: Message::PairRequest(p) } && to == device && p.name@ == name
        && p.platform@ == platform
}

/// The action prompts the user to compare the codes of a device.
pub open spec fn is_prompt(
    a: Action,
    device: DeviceId,
    name: Seq<char>,
    c: Conn,
    remote: bool,
) -> bool {
    a matches Action::Emit(
        EngineEvent::PairingRequired { device: d, name: n, fingerprint, sas, addr, remote_initiated },
    ) && d == device && n@ == name && fingerprint@ == c.fingerprint@ && sas@ == c.sas@ && addr
        == c.addr && remote_initiated == remote
}

/// The peer was promised to own a key that it did not prove.
pub open spec fn breaks_promise(expect_key: Option<Vec<u8>>, key: Seq<u8>) -> bool {
    expect_key matches Some(k) && k@ != key
}

/// A connection as it is entered: authorised if and only if the trust store
/// authorises its key.
pub open spec fn is_new_conn(
    c: Conn,
    e: Engine,
    device: DeviceId,
    key: Seq<u8>,
    hash: Seq<u8>,
    addr: SocketAddr,
    now: u64,
) -> bool {
    &&& c.device == device
    &&& c.key@ == key
    &&& c.name@ == match e.trust.spec_get(key) {
        Some(d) => d.name@,
        None => Seq::empty(),
    }
    &&& c.addr == addr
    &&& c.fingerprint@ == fingerprint::fingerprint_text(key)
    &&& c.sas@ == fingerprint::sas_text(hash)
    &&& c.authorised == e.trust.authorises(key)
    &&& !c.local_ok
    &&& !c.remote_ok
    &&& c.prompted_at == if c.authorised {
        None::<u64>
    } else {
        Some(now)
    }
}

/// The name under which this device introduces itself: no longer than one that
/// a receiver reads.
pub open spec fn own_name(e: Engine) -> Seq<char> {
    util::cut(e.config.device_name@, MAX_NAME_CHARS as nat)
}

/// What a new connection is told, and the user.
pub open spec fn welcomed(post: Engine, device: DeviceId, we_dialed: bool, acts: Seq<Action>) -> bool {
    let c = post.conns@[engine::dk(device)];
    let name = own_name(post);
    let platform = post.platform@;
    &&& acts.len() > 0
    &&& is_hello(acts[0], device, name, platform)
    &&& if c.authorised {
        acts.len() == 2 && pairing::is_connected(acts[1], post, device)
    } else if we_dialed {
        &&& acts.len() == 3
        &&& is_pair_request(acts[1], device, name, platform)
        &&& is_prompt(acts[2], device, Seq::empty(), c, false)
    } else {
        acts.len() == 2 && is_prompt(acts[1], device, Seq::empty(), c, true)
    }
}

/// What the end of a handshake does. A peer that proved another key than the
/// promised one, a blocked one, an unknown one while no pairings are wanted, a
/// second connection and one too many are turned away; any other is entered.
pub open spec fn begun(
    pre: Engine,
    post: Engine,
    device: DeviceId,
    key: Seq<u8>,
    hash: Seq<u8>,
    addr: SocketAddr,
    shown: Seq<char>,
    we_dialed: bool,
    expect_key: Option<Vec<u8>>,
    now: u64,
    kept: bool,
    acts: Seq<Action>,
) -> bool {
    let k = engine::dk(device);
    if breaks_promise(expect_key, key) {
        &&& !kept
        &&& post == pre
        &&& acts.len() == 1
        &&& engine::is_error(
            acts[0],
            "ВНИМАНИЕ: "@ + shown
                + " предъявил другой ключ, чем ожидалось. Соединение разорвано."@,
        )
    } else if pre.trust.spec_get(key) is Some && !pre.trust.authorises(key) {
        !kept && post == pre && acts.len() == 0
    } else if !pre.trust.authorises(key) && !pre.config.allow_new_pairings {
        &&& !kept
        &&& post == pre
        &&& acts.len() == 1
        &&& engine::is_notice(
            acts[0],
            "Отклонён запрос сопряжения от "@ + codec::hex(device.0@)
                + ": новые сопряжения запрещены"@,
        )
    } else if pre.conns@.contains_key(k) || pre.conns@.len() >= MAX_CONNECTIONS {
        !kept && post == pre && acts.len() == 0
    } else {
        &&& kept
        &&& post == (Engine { conns: post.conns, ..pre })
        &&& post.conns@ == pre.conns@.insert(k, post.conns@[k])
        &&& is_new_conn(post.conns@[k], pre, device, key, hash, addr, now)
        &&& welcomed(post, device, we_dialed, acts)
    }
}

/// What the end of a connection does: it leaves the table, its transfers end,
/// and the user is told.
pub open spec fn ended(
    pre: Engine,
    post: Engine,
    device: DeviceId,
    reason: Seq<char>,
    acts: Seq<Action>,
) -> bool {
    &&& post.conns@ == pre.conns@.remove(engine::dk(device))
    &&& post.incoming@ == pre.incoming@.remove_keys(outgoing::from_device(pre.incoming@, device))
    &&& post.outgoing@ == pre.outgoing@.map_values(
        |o: engine::Outgoing| outgoing::give_up(o, device),
    )
    &&& acts.len() > 0
    &&& exists|ks: Seq<u128>| #[trigger]
        outgoing::lists(ks, outgoing::from_device(pre.incoming@, device)) && outgoing::ended(
            pre.incoming@,
            ks,
            "соединение закрыто"@,
            acts.drop_last(),
        )
    &&& acts.last() matches Action::Emit(EngineEvent::Disconnected { device: d, reason: r }) && d
        == device && r@ == reason
}

impl Engine {
    /// Whether the attempt of an address can be counted.
    pub open spec fn countable(&self, ip: IpAddr, now: u64) -> bool {
        self.guard.seen.countable(ip, now, MINUTE)
    }

    /// See [`Engine::countable`].
    pub fn can_count(&self, ip: IpAddr, now: u64) -> (r: bool)
        ensures
            r == self.countable(ip, now),
    {
        self.guard.seen.can_count(ip, now, MINUTE)
    }

    /// Whether a connection from an address may start its handshake; see
    /// [`lets_start`].
    pub fn admits(&mut self, ip: IpAddr, now: u64) -> (r: bool)
        requires
            old(self).wf(),
            old(self).countable(ip, now),
        ensures
            final(self).wf(),
            *final(self) == (Engine { guard: final(self).guard, ..*old(self) }),
            r == lets_start(*old(self), ip, now),
            final(self).guard.seen.entries@ == if counts_attempt(*old(self), ip) {
                guard::after_attempt(old(self).guard.seen.entries@, ip, now)
            } else {
                old(self).guard.seen.entries@
            },
    {
        if !self.config.accept_incoming {
            return false;
        }
        if self.config.lan_only && !util::is_lan_addr(ip) {
            return false;
        }
        if self.conns.len() >= MAX_CONNECTIONS {
            return false;
        }
        self.guard.allow(ip, now)
    }

    /// A handshake is over: the peer at `addr`, which is shown as `shown`,
    /// proved `key`. The result is the device of the key, whether its
    /// connection is kept, and what follows; see [`begun`].
    pub fn begin_connection(
        &mut self,
        key: Vec<u8>,
        hash: &[u8],
        addr: SocketAddr,
        shown: &str,
        we_dialed: bool,
        expect_key: Option<Vec<u8>>,
        now: u64,
    ) -> (r: (DeviceId, bool, Vec<Action>))
        requires
            old(self).wf(),
            engine::short_key(key@),
        ensures
            final(self).wf(),
            r.0.0@ == fingerprint::device_bytes(key@),
            begun(
                *old(self),
                *final(self),
                r.0,
                key@,
                hash@,
                addr,
                shown@,
                we_dialed,
                expect_key,
                now,
                r.1,
                r.2@,
            ),
    {
        let ghost pre = *self;
        let device = fingerprint::device_id(key.as_slice());
        let k: u64 = device.key();
        let mut acts: Vec<Action> = Vec::new();
        if let Some(expected) = &expect_key {
            if !fingerprint::keys_equal(expected.as_slice(), key.as_slice()) {
                let mut warning = "ВНИМАНИЕ: ".to_string();
                warning.append(shown);
                warning.append(" предъявил другой ключ, чем ожидалось. Соединение разорвано.");
                acts.push(Action::Emit(EngineEvent::Error(warning)));
                return (device, false, acts);
            }
        }
        let (authorised, blocked, name) = match self.trust.get(key.as_slice()) {
            Some(d) => (!d.blocked, d.blocked, d.name.clone()),
            None => (false, false, String::new()),
        };
        if blocked {
            return (device, false, acts);
        }
        if !authorised && !self.config.allow_new_pairings {
            let mut notice = "Отклонён запрос сопряжения от ".to_string();
            notice.append(device.text().as_str());
            notice.append(": новые сопряжения запрещены");
            acts.push(Action::Emit(EngineEvent::Notice(notice)));
            return (device, false, acts);
        }
        if self.conns.contains_key(&k) || self.conns.len() >= MAX_CONNECTIONS {
            return (device, false, acts);
        }
        let sas = fingerprint::sas_code(hash);
        let fp = fingerprint::fingerprint(key.as_slice());
        let prompted_at = if authorised {
            None
        } else {
            Some(now)
        };
        let c = Conn {
            device,
            key,
            name,
            addr,
            fingerprint: fp.clone(),
            sas: sas.clone(),
            authorised,
            local_ok: false,
            remote_ok: false,
            prompted_at,
        };
        let ghost entered = c;
        self.conns.insert(k, c);
        proof {
            assert(self.conns@ == pre.conns@.insert(k, entered));
            assert(self.conns@[k] == entered);
        }
        acts.push(
            Action::Send {
                to: device,
                msg: Message::Hello(
                    Hello {
                        name: util::cut_str(self.config.device_name.as_str(), MAX_NAME_CHARS),
                        version: 1,
                        platform: self.platform.clone(),
                    },
                ),
            },
        );
        if authorised {
            acts.push(Action::Emit(EngineEvent::Connected(self.conn_info(device))));
        } else {
            if we_dialed {
                acts.push(
                    Action::Send {
                        to: device,
                        msg: Message::PairRequest(
                            PairRequest {
                                name: util::cut_str(
                                    self.config.device_name.as_str(),
                                    MAX_NAME_CHARS,
                                ),
                                platform: self.platform.clone(),
                            },
                        ),
                    },
                );
            }
            acts.push(
                Action::Emit(
                    EngineEvent::PairingRequired {
                        device,
                        name: String::new(),
                        fingerprint: fp,
                        sas,
                        addr,
                        remote_initiated: !we_dialed,
                    },
                ),
            );
        }
        (device, true, acts)
    }

    /// The connection to a device is closed; see [`ended`].
    pub fn end_connection(&mut self, device: DeviceId, reason: String) -> (acts: Vec<Action>)
        requires
            old(self).wf(),
        ensures
            final(self).wf(),
            *final(self) == (Engine {
                conns: final(self).conns,
                incoming: final(self).incoming,
                outgoing: final(self).outgoing,
                ..*old(self)
            }),
            ended(*old(self), *final(self), device, reason@, acts@),
    {
        let ghost pre = *self;
        let k: u64 = device.key();
        self.conns.remove(&k);
        proof {
            assert(self.conns@ =~= pre.conns@.remove(k));
            if pre.conns@.contains_key(k) {
                pre.conns@.lemma_remove_key_len(k);
            } else {
                assert(self.conns@ =~= pre.conns@);
            }
        }
        let mut acts = self.fail_transfers_for(device, "соединение закрыто");
        let ghost head = acts@;
        acts.push(Action::Emit(EngineEvent::Disconnected { device, reason }));
        proof {
            assert(acts@.drop_last() =~= head);
        }
        acts
    }
}

/// Only a key that the trust store authorises is authorised from the start, and
/// a device that the user blocked is never connected.
pub proof fn law_only_trusted_keys_start_authorised(
    pre: Engine,
    post: Engine,
    device: DeviceId,
    key: Seq<u8>,
    hash: Seq<u8>,
    addr: SocketAddr,
    shown: Seq<char>,
    we_dialed: bool,
    expect_key: Option<Vec<u8>>,
    now: u64,
    kept: bool,
    acts: Seq<Action>,
)
    requires
        begun(
            pre,
            post,
            device,
            key,
            hash,
            addr,
            shown,
            we_dialed,
            expect_key,
            now,
            kept,
            acts,
        ),
        kept,
    ensures
        post.has_authorised(device) == pre.trust.authorises(key),
        pre.trust.spec_get(key) matches Some(d) ==> !d.blocked,
        expect_key matches Some(k) ==> k@ == key,
{
}

/// A device that was paired is known again: while its key is in the trust store
/// its next connection is kept and authorised from the start, whether new
/// pairings are wanted or not.
pub proof fn law_paired_device_is_known_again(
    pre: Engine,
    mid: Engine,
    paired: DeviceId,
    wall: u64,
    told: Seq<Action>,
    later: Engine,
    post: Engine,
    device: DeviceId,
    hash: Seq<u8>,
    addr: SocketAddr,
    shown: Seq<char>,
    we_dialed: bool,
    expect_key: Option<Vec<u8>>,
    now: u64,
    kept: bool,
    acts: Seq<Action>,
)
    requires
        trust::in_order(pre.trust.spec_devices()),
        pairing::finalized(pre, mid, paired, wall, told),
        mid.has_authorised(paired),
        !pre.has_authorised(paired),
        later.trust == mid.trust,
        !breaks_promise(expect_key, pre.conns@[engine::dk(paired)].key@),
        !later.conns@.contains_key(engine::dk(device)),
        later.conns@.len() < MAX_CONNECTIONS,
        begun(
            later,
            post,
            device,
            pre.conns@[engine::dk(paired)].key@,
            hash,
            addr,
            shown,
            we_dialed,
            expect_key,
            now,
            kept,
            acts,
        ),
    ensures
        kept,
        post.has_authorised(device),
{
    pairing::law_pairing_needs_both(pre, mid, paired, wall, told);
}

/// What a new connection is told can be read by its peer, whatever this device
/// is called.
pub proof fn law_welcome_is_readable(
    post: Engine,
    device: DeviceId,
    we_dialed: bool,
    acts: Seq<Action>,
    i: int,
)
    requires
        welcomed(post, device, we_dialed, acts),
        post.platform@.len() <= MAX_NAME_CHARS,
        0 <= i < acts.len(),
    ensures
        acts[i] matches Action::Send { to, msg } ==> to == device && proto::is_readable(msg),
{
    match acts[i] {
        Action::Send { msg: Message::Hello(h), .. } => {
            proto::lemma_hello_bytes(h);
        },
        Action::Send { msg: Message::PairRequest(p), .. } => {
            proto::lemma_pair_request_bytes(p);
        },
        _ => {},
    }
}

} // verus!
