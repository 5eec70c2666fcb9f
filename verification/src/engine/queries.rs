//! What a front-end can see of the engine.

use vstd::prelude::*;
use vstd::string::*;
use crate::config::Config;
use crate::engine;
use crate::engine::table;
use crate::engine::transfer::IncomingTransfer;
use crate::engine::uri;
use crate::engine::{Conn, ConnInfo, Engine, Outgoing, PeerInfo, TransferInfo};
use crate::net::discovery;
use crate::net::discovery::Interface;
use crate::security::fingerprint;
use crate::security::fingerprint::DeviceId;
use crate::security::trust::TrustedDevice;
use crate::text;

verus! {

broadcast use vstd::laws_cmp::group_laws_cmp;

/// What is shown of a peer: what it announced, and whether it is paired by now.
pub open spec fn shows(e: Engine, info: PeerInfo) -> bool {
    let k = engine::dk(info.device);
    &&& e.peers@.contains_key(k)
    &&& info.name == e.peers@[k].info.name
    &&& info.platform == e.peers@[k].info.platform
    &&& info.addr == e.peers@[k].info.addr
    &&& info.public_key@ == e.peers@[k].info.public_key@
    &&& info.paired == e.trust.authorises(info.public_key@)
}

/// In the order of their names.
pub open spec fn by_name(s: Seq<PeerInfo>) -> bool {
    forall|i: int, j: int|
        0 <= i < j < s.len() ==> !text::str_lt((#[trigger] s[j]).name@, (#[trigger] s[i]).name@)
}

/// No device occurs twice.
pub open spec fn all_differ(s: Seq<PeerInfo>) -> bool {
    forall|i: int, j: int|
        0 <= i < j < s.len() ==> (#[trigger] s[i]).device != (#[trigger] s[j]).device
}

/// What is shown of a file that is being sent. How much was sent is not known.
pub open spec fn shows_outgoing(t: TransferInfo, o: Outgoing) -> bool {
    &&& t.id == o.id
    &&& t.peer == o.to
    &&& t.name == o.name
    &&& t.size == o.size
    &&& t.done == 0
    &&& !t.incoming
}

/// What is shown of a file that is being received.
pub open spec fn shows_incoming(t: TransferInfo, i: IncomingTransfer) -> bool {
    &&& t.id == i.id
    &&& t.peer == i.from
    &&& t.name == i.name
    &&& t.size == i.size
    &&& t.done == i.received
    &&& t.incoming
}

/// What is shown of the transfers: the outgoing ones first.
pub open spec fn shows_transfers(
    e: Engine,
    outs: Seq<u128>,
    ins: Seq<u128>,
    r: Seq<TransferInfo>,
) -> bool {
    &&& r.len() == outs.len() + ins.len()
    &&& forall|i: int|
        0 <= i < outs.len() ==> shows_outgoing(#[trigger] r[i], e.outgoing@[outs[i]])
    &&& forall|i: int|
        outs.len() <= i < r.len() ==> shows_incoming(
            #[trigger] r[i],
            e.incoming@[ins[i - outs.len()]],
        )
}

/// What is shown of the connections, one after the other.
pub open spec fn shows_conns(m: Map<u64, Conn>, ks: Seq<u64>, r: Seq<ConnInfo>) -> bool {
    &&& r.len() == ks.len()
    &&& forall|i: int|
        0 <= i < ks.len() ==> engine::describes(#[trigger] r[i], m, m[ks[i]].device)
}

/// The address that stands in the pairing link.
pub open spec fn is_local_addr(ifaces: Seq<Interface>, r: Option<u32>) -> bool {
    match r {
        Some(a) => exists|i: int|
            0 <= i < ifaces.len() && discovery::lan_ipv4(#[trigger] ifaces[i]) == Some(a)
                && forall|j: int|
                0 <= j < i ==> discovery::lan_ipv4(#[trigger] ifaces[j]) is None,
        None => forall|j: int|
            0 <= j < ifaces.len() ==> discovery::lan_ipv4(#[trigger] ifaces[j]) is None,
    }
}

/// Where a name belongs among those in order: behind all that do not come after
/// it.
fn place_for(v: &Vec<PeerInfo>, name: &str) -> (at: usize)
    requires
        by_name(v@),
    ensures
        at <= v@.len(),
        forall|i: int| 0 <= i < at ==> !text::str_lt(name@, (#[trigger] v@[i]).name@),
        forall|i: int| at <= i < v@.len() ==> !text::str_lt((#[trigger] v@[i]).name@, name@),
{
    let mut at: usize = v.len();
    while at > 0 && text::str_less(name, v[at - 1].name.as_str())
        invariant
            at <= v@.len(),
            forall|i: int| at <= i < v@.len() ==> text::str_lt(name@, (#[trigger] v@[i]).name@),
        decreases at,
    {
        at = at - 1;
    }
    proof {
        assert forall|i: int| 0 <= i < at implies !text::str_lt(
            name@,
            (#[trigger] v@[i]).name@,
        ) by {
            let last = v@[at - 1];
            if i < at - 1 {
                assert(!text::str_lt(last.name@, v@[i].name@));
                if text::str_lt(name@, v@[i].name@) {
                    if v@[i].name@ == last.name@ {
                    } else {
                        text::lemma_str_lt_total(v@[i].name@, last.name@);
                        text::lemma_str_lt_transitive(name@, v@[i].name@, last.name@);
                    }
                }
            }
        }
        assert forall|i: int| at <= i < v@.len() implies !text::str_lt(
            (#[trigger] v@[i]).name@,
            name@,
        ) by {
            if text::str_lt(v@[i].name@, name@) {
                text::lemma_str_lt_transitive(name@, v@[i].name@, name@);
                text::lemma_str_lt_irreflexive(name@);
            }
        }
    }
    at
}

impl Engine {
    pub fn device_id(&self) -> (r: DeviceId)
        ensures
            r.0@ == fingerprint::device_bytes(self.identity.spec_public()),
    {
        self.identity.device_id()
    }

    pub fn fingerprint(&self) -> (r: String)
        ensures
            r@ == fingerprint::fingerprint_text(self.identity.spec_public()),
    {
        self.identity.fingerprint()
    }

    pub fn port(&self) -> (r: u16)
        ensures
            r == self.bound_port,
    {
        self.bound_port
    }

    pub fn config(&self) -> (r: Config)
        ensures
            r == self.config,
    {
        self.config.copy()
    }

    pub fn trusted(&self) -> (r: Vec<TrustedDevice>)
        ensures
            r@ == self.trust.spec_devices(),
    {
        self.trust.list()
    }

    /// The peers that announced themselves, each once and in the order of their
    /// names.
    pub fn peers(&self) -> (r: Vec<PeerInfo>)
        requires
            self.wf(),
        ensures
            r@.len() == self.peers@.len(),
            forall|i: int| 0 <= i < r@.len() ==> shows(*self, #[trigger] r@[i]),
            all_differ(r@),
            by_name(r@),
    {
        let all = table::keys(&self.peers);
        let mut r: Vec<PeerInfo> = Vec::new();
        let mut i: usize = 0;
        while i < all.len()
            invariant
                i <= all@.len(),
                self.wf(),
                table::keys_of(self.peers@, all@),
                r@.len() == i,
                forall|j: int| 0 <= j < i ==> shows(*self, #[trigger] r@[j]),
                forall|j: int|
                    0 <= j < i ==> all@.take(i as int).contains(
                        engine::dk((#[trigger] r@[j]).device),
                    ),
                all_differ(r@),
                by_name(r@),
            decreases all.len() - i,
        {
            let k: u64 = all[i];
            proof {
                assert(all@.contains(k));
                assert(self.peers@.contains_key(k));
            }
            if let Some(p) = self.peers.get(&k) {
                let mut info = p.info.copy();
                info.paired = self.trust.is_authorised(info.public_key.as_slice());
                let at: usize = place_for(&r, info.name.as_str());
                let ghost before = r@;
                let ghost it = info;
                r.insert(at, info);
                proof {
                    let part = all@.take(i as int);
                    let next = all@.take(i + 1);
                    assert(shows(*self, it));
                    assert(engine::dk(it.device) == k);
                    assert forall|j: int| 0 <= j < r@.len() implies shows(*self, #[trigger] r@[j])
                        && next.contains(engine::dk(r@[j].device)) by {
                        if j == at {
                            assert(next[i as int] == k);
                        } else {
                            let o = if j < at {
                                j
                            } else {
                                j - 1
                            };
                            assert(r@[j] == before[o]);
                            assert(part.contains(engine::dk(before[o].device)));
                            let x = choose|x: int|
                                0 <= x < part.len() && part[x] == engine::dk(before[o].device);
                            assert(next[x] == part[x]);
                        }
                    }
                    assert forall|j: int| 0 <= j < before.len() implies (
                    #[trigger] before[j]).device != it.device by {
                        assert(part.contains(engine::dk(before[j].device)));
                        let x = choose|x: int|
                            0 <= x < part.len() && part[x] == engine::dk(before[j].device);
                        assert(all@[x] < all@[i as int]);
                    }
                    assert forall|a: int, b: int| 0 <= a < b < r@.len() implies (
                    #[trigger] r@[a]).device != (#[trigger] r@[b]).device && !text::str_lt(
                        r@[b].name@,
                        r@[a].name@,
                    ) by {
                        let x = if a < at {
                            a
                        } else {
                            a - 1
                        };
                        let y = if b < at {
                            b
                        } else {
                            b - 1
                        };
                        if a == at {
                            assert(r@[b] == before[y]);
                        } else if b == at {
                            assert(r@[a] == before[x]);
                        } else {
                            assert(r@[a] == before[x]);
                            assert(r@[b] == before[y]);
                        }
                    }
                }
            }
            i = i + 1;
        }
        r
    }

    /// File transfers currently in flight, for the UI's transfer list.
    pub fn active_transfers(&self) -> (r: Vec<TransferInfo>)
        ensures
            exists|outs: Seq<u128>, ins: Seq<u128>|
                table::wide_keys_of(self.outgoing@, outs) && table::wide_keys_of(
                    self.incoming@,
                    ins,
                ) && #[trigger] shows_transfers(*self, outs, ins, r@),
    {
        let outs = table::wide_keys(&self.outgoing);
        let ins = table::wide_keys(&self.incoming);
        let mut r: Vec<TransferInfo> = Vec::new();
        let mut i: usize = 0;
        while i < outs.len()
            invariant
                i <= outs@.len(),
                table::wide_keys_of(self.outgoing@, outs@),
                shows_transfers(*self, outs@.take(i as int), Seq::empty(), r@),
            decreases outs.len() - i,
        {
            let k: u128 = outs[i];
            proof {
                assert(outs@.contains(k));
                assert(self.outgoing@.contains_key(k));
            }
            if let Some(o) = self.outgoing.get(&k) {
                r.push(
                    TransferInfo {
                        id: o.id,
                        peer: o.to,
                        name: o.name.clone(),
                        size: o.size,
                        done: 0,
                        incoming: false,
                    },
                );
            }
            i = i + 1;
        }
        proof {
            assert(outs@.take(outs@.len() as int) =~= outs@);
            assert(ins@.take(0) =~= Seq::<u128>::empty());
        }
        i = 0;
        while i < ins.len()
            invariant
                i <= ins@.len(),
                table::wide_keys_of(self.incoming@, ins@),
                shows_transfers(*self, outs@, ins@.take(i as int), r@),
            decreases ins.len() - i,
        {
            let k: u128 = ins[i];
            proof {
                assert(ins@.contains(k));
                assert(self.incoming@.contains_key(k));
            }
            if let Some(t) = self.incoming.get(&k) {
                r.push(
                    TransferInfo {
                        id: t.id,
                        peer: t.from,
                        name: t.name.clone(),
                        size: t.size,
                        done: t.received,
                        incoming: true,
                    },
                );
            }
            i = i + 1;
        }
        proof {
            assert(ins@.take(ins@.len() as int) =~= ins@);
            assert(shows_transfers(*self, outs@, ins@, r@));
        }
        r
    }

    pub fn connections(&self) -> (r: Vec<ConnInfo>)
        requires
            self.wf(),
        ensures
            exists|ks: Seq<u64>| #[trigger]
                table::keys_of(self.conns@, ks) && shows_conns(self.conns@, ks, r@),
    {
        let all = table::keys(&self.conns);
        let mut r: Vec<ConnInfo> = Vec::new();
        let mut i: usize = 0;
        while i < all.len()
            invariant
                i <= all@.len(),
                self.wf(),
                table::keys_of(self.conns@, all@),
                shows_conns(self.conns@, all@.take(i as int), r@),
            decreases all.len() - i,
        {
            let k: u64 = all[i];
            proof {
                assert(all@.contains(k));
                assert(self.conns@.contains_key(k));
            }
            if let Some(c) = self.conns.get(&k) {
                r.push(self.conn_info(c.device));
            }
            i = i + 1;
        }
        proof {
            assert(all@.take(all@.len() as int) =~= all@);
        }
        r
    }

    /// The string encoded in the pairing QR code.
    ///
    /// It carries our public key out of band, so a device that scans it can
    /// detect a machine-in-the-middle without any code comparison.
    pub fn pairing_uri(&self, ifaces: &[Interface]) -> (r: String)
        ensures
            exists|addr: Option<u32>| #[trigger]
                is_local_addr(ifaces@, addr) && r@ == uri::link(
                    self.identity.spec_public(),
                    self.bound_port,
                    uri::link_host(addr),
                    self.config.device_name@,
                ),
    {
        let addr = discovery::local_ipv4(ifaces);
        proof {
            assert(is_local_addr(ifaces@, addr));
        }
        uri::pairing_link(
            self.identity.public_key(),
            self.bound_port,
            addr,
            self.config.device_name.as_str(),
        )
    }
}

/// Every transfer that is listed is in flight under its own identifier, so that
/// cancelling it by that identifier reaches it.
pub proof fn law_listed_transfers_are_in_flight(
    e: Engine,
    outs: Seq<u128>,
    ins: Seq<u128>,
    r: Seq<TransferInfo>,
    i: int,
)
    requires
        e.wf(),
        table::wide_keys_of(e.outgoing@, outs),
        table::wide_keys_of(e.incoming@, ins),
        shows_transfers(e, outs, ins, r),
        0 <= i < r.len(),
    ensures
        r[i].incoming ==> e.incoming@.contains_key(engine::tk(r[i].id)) && r[i].peer
            == e.incoming@[engine::tk(r[i].id)].from,
        !r[i].incoming ==> e.outgoing@.contains_key(engine::tk(r[i].id)) && r[i].peer
            == e.outgoing@[engine::tk(r[i].id)].to,
{
    if i < outs.len() {
        assert(outs.contains(outs[i]));
        assert(e.outgoing@.contains_key(outs[i]));
        assert(shows_outgoing(r[i], e.outgoing@[outs[i]]));
    } else {
        let k = ins[i - outs.len()];
        assert(ins.contains(k));
        assert(e.incoming@.contains_key(k));
        assert(shows_incoming(r[i], e.incoming@[k]));
    }
}

} // verus!
