//! What a front-end is shown is what the engine knows: all of it, and nothing
//! else.

use vstd::prelude::*;
use crate::config::Config;
use crate::engine;
use crate::engine::queries;
use crate::engine::table;
use crate::engine::{ConnInfo, Engine, PeerInfo, TransferInfo};
use crate::security::fingerprint;
use crate::security::fingerprint::DeviceId;
use crate::security::trust::TrustedDevice;

verus! {

/// Every device that announced itself is shown once, under what it announced
/// last and with whether it is trusted now; nothing else is shown; and the list
/// is in the order of names.
pub proof fn law_peers_are_shown(e: &Engine, r: Vec<PeerInfo>, i: int, j: int)
    requires
        call_ensures(Engine::peers, (e,), r),
        0 <= i < j < r@.len(),
    ensures
        r@.len() == e.peers@.len(),
        r@[i].device != r@[j].device,
        is_shown(*e, r@[i]),
        is_shown(*e, r@[j]),
        !crate::text::str_lt(r@[j].name@, r@[i].name@),
{
}

/// A single peer is shown as well.
pub proof fn law_each_peer_is_shown_as_announced(e: &Engine, r: Vec<PeerInfo>, i: int)
    requires
        call_ensures(Engine::peers, (e,), r),
        0 <= i < r@.len(),
    ensures
        is_shown(*e, r@[i]),
{
}

/// What is shown of a device is what the table holds, and whether its key is
/// trusted.
pub open spec fn is_shown(e: Engine, info: PeerInfo) -> bool {
    let k = engine::dk(info.device);
    &&& e.peers@.contains_key(k)
    &&& info.addr == e.peers@[k].info.addr
    &&& info.name@ == e.peers@[k].info.name@
    &&& info.platform@ == e.peers@[k].info.platform@
    &&& info.public_key@ == e.peers@[k].info.public_key@
    &&& info.paired == e.trust.authorises(info.public_key@)
}

/// Every connection is shown once, with its name, address, code and
/// fingerprint, and with whether it is authorised; nothing else is shown.
pub proof fn law_connections_are_shown(e: &Engine, r: Vec<ConnInfo>, i: int, k: u64)
    requires
        call_ensures(Engine::connections, (e,), r),
        e.wf(),
        0 <= i < r@.len(),
    ensures
        r@.len() == e.conns@.len(),
        e.conns@.contains_key(engine::dk(r@[i].device)),
        ({
            let c = e.conns@[engine::dk(r@[i].device)];
            &&& r@[i].device == c.device
            &&& r@[i].name@ == c.name@
            &&& r@[i].addr == c.addr
            &&& r@[i].sas@ == c.sas@
            &&& r@[i].fingerprint@ == c.fingerprint@
            &&& r@[i].paired == c.authorised
        }),
        e.conns@.contains_key(k) ==> exists|j: int|
            0 <= j < r@.len() && #[trigger] r@[j].device == e.conns@[k].device,
{
    let m = e.conns@;
    let ks = choose|ks: Seq<u64>| #[trigger]
        table::keys_of(m, ks) && queries::shows_conns(m, ks, r@);
    assert(engine::describes(r@[i], m, m[ks[i]].device));
    assert(ks.contains(ks[i]));
    assert(m.contains_key(ks[i]));
    if m.contains_key(k) {
        assert(ks.contains(k));
        let j = choose|j: int| 0 <= j < ks.len() && ks[j] == k;
        assert(engine::describes(r@[j], m, m[ks[j]].device));
        assert(r@[j].device == m[k].device);
    }
}

/// Every transfer in flight is shown, with its own identifier, peer, name and
/// size, what was received of it, and which way it goes; nothing else is shown.
pub proof fn law_transfers_are_shown(e: &Engine, r: Vec<TransferInfo>, i: int, k: u128)
    requires
        call_ensures(Engine::active_transfers, (e,), r),
        e.wf(),
        0 <= i < r@.len(),
    ensures
        r@.len() == e.outgoing@.len() + e.incoming@.len(),
        r@[i].incoming ==> e.incoming@.contains_key(engine::tk(r@[i].id)) && {
            let t = e.incoming@[engine::tk(r@[i].id)];
            r@[i].peer == t.from && r@[i].name@ == t.name@ && r@[i].size == t.size && r@[i].done
                == t.received
        },
        !r@[i].incoming ==> e.outgoing@.contains_key(engine::tk(r@[i].id)) && {
            let o = e.outgoing@[engine::tk(r@[i].id)];
            r@[i].peer == o.to && r@[i].name@ == o.name@ && r@[i].size == o.size && r@[i].done == 0
        },
        e.incoming@.contains_key(k) ==> exists|j: int|
            0 <= j < r@.len() && (#[trigger] r@[j]).incoming && r@[j].id == e.incoming@[k].id,
        e.outgoing@.contains_key(k) ==> exists|j: int|
            0 <= j < r@.len() && !(#[trigger] r@[j]).incoming && r@[j].id == e.outgoing@[k].id,
{
    let (outs, ins) = choose|outs: Seq<u128>, ins: Seq<u128>|
        table::wide_keys_of(e.outgoing@, outs) && table::wide_keys_of(e.incoming@, ins)
            && #[trigger] queries::shows_transfers(*e, outs, ins, r@);
    queries::law_listed_transfers_are_in_flight(*e, outs, ins, r@, i);
    if i < outs.len() {
        assert(outs.contains(outs[i]));
        assert(e.outgoing@.contains_key(outs[i]));
        assert(queries::shows_outgoing(r@[i], e.outgoing@[outs[i]]));
    } else {
        let x = ins[i - outs.len()];
        assert(ins.contains(x));
        assert(e.incoming@.contains_key(x));
        assert(queries::shows_incoming(r@[i], e.incoming@[x]));
    }
    if e.incoming@.contains_key(k) {
        assert(ins.contains(k));
        let j = choose|j: int| 0 <= j < ins.len() && ins[j] == k;
        assert(queries::shows_incoming(r@[outs.len() + j], e.incoming@[k]));
        assert(r@[outs.len() + j].incoming);
    }
    if e.outgoing@.contains_key(k) {
        assert(outs.contains(k));
        let j = choose|j: int| 0 <= j < outs.len() && outs[j] == k;
        assert(queries::shows_outgoing(r@[j], e.outgoing@[k]));
        assert(!r@[j].incoming);
    }
}

/// What is shown of this device is its own: its identifier and fingerprint are
/// those of its key, its settings are the current ones, and the trusted devices
/// are all those in the trust store.
pub proof fn law_own_device_is_shown(
    e: &Engine,
    key: Vec<u8>,
    of_key: &[u8],
    id: DeviceId,
    of_id: DeviceId,
    print: String,
    of_print: String,
    config: Config,
    trusted: Vec<TrustedDevice>,
)
    requires
        call_ensures(Engine::public_key, (e,), key),
        of_key@ == key@,
        call_ensures(Engine::device_id, (e,), id),
        call_ensures(fingerprint::device_id, (of_key,), of_id),
        call_ensures(Engine::fingerprint, (e,), print),
        call_ensures(fingerprint::fingerprint, (of_key,), of_print),
        call_ensures(Engine::config, (e,), config),
        call_ensures(Engine::trusted, (e,), trusted),
    ensures
        key@ == e.identity.spec_public(),
        id.0@ == of_id.0@,
        print@ == of_print@,
        config == e.config,
        trusted@ == e.trust.spec_devices(),
{
}

/// What is shown of one connection is its entry; of none, that there is none.
pub proof fn law_one_connection_is_shown(e: &Engine, device: DeviceId, r: ConnInfo)
    requires
        call_ensures(Engine::conn_info, (e, device), r),
    ensures
        r.device == device,
        e.conns@.contains_key(engine::dk(device)) ==> {
            let c = e.conns@[engine::dk(device)];
            r.name@ == c.name@ && r.addr == c.addr && r.fingerprint@ == c.fingerprint@ && r.sas@
                == c.sas@ && r.paired == c.authorised
        },
        !e.conns@.contains_key(engine::dk(device)) ==> !r.paired && r.sas@.len() == 0
            && r.name@.len() == 0,
{
}

} // verus!
