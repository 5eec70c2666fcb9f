//! What happens when something is missing, full or wrong.

use vstd::prelude::*;
use crate::engine;
use crate::engine::commands;
use crate::engine::pairing;
use crate::engine::transfer::{IncomingTransfer, Opened, TransferError};
use crate::engine::uri::PairingError;
use crate::engine::{Action, Engine, EngineEvent};
use crate::net::session::SessionError;
use crate::proto;
use crate::proto::{FileOffer, Message, ProtoError, TransferId};
use crate::security::fingerprint;
use crate::security::fingerprint::DeviceId;
use crate::security::keystore::KeystoreError;
use crate::security::trust;
use crate::security::trust::TrustError;
use crate::text;
use crate::util;

verus! {

/// A pairing for which the trust store has no room ends in an error: nobody is
/// authorised, and no record changes.
pub proof fn law_pairing_without_room(
    e: &mut Engine,
    device: DeviceId,
    wall: u64,
    acts: Vec<Action>,
)
    requires
        call_ensures(Engine::respond_pairing_at, (e, device, true, wall), acts),
        old(e).conns@.contains_key(engine::dk(device)),
        ({
            let c = old(e).conns@[engine::dk(device)];
            !c.authorised && c.remote_ok && c.key@.len() == 32 && old(e).trust.spec_get(c.key@)
                is None
        }),
        trust::in_order(old(e).trust.spec_devices()),
        old(e).trust.spec_devices().len() >= 256,
    ensures
        final(e).trust.spec_devices() == old(e).trust.spec_devices(),
        final(e).conns@.contains_key(engine::dk(device)),
        !final(e).conns@[engine::dk(device)].authorised,
        acts@.len() == 2,
        acts@[0] matches Action::Send { to, msg: Message::PairAccept } && to == device,
        acts@[1] matches Action::Emit(EngineEvent::Error(m)) && m@
            == "Не удалось сохранить сопряжение: "@ + "trust store is full (256 devices)"@,
{
    let mid = choose|mid: Engine| #[trigger]
        pairing::locally_approved(*old(e), mid, device) && pairing::finalized(
            mid,
            *final(e),
            device,
            wall,
            acts@.skip(1),
        );
    let r = choose|r: Result<(), TrustError>| #[trigger]
        pairing::recorded(mid, *final(e), device, wall, r, acts@.skip(1));
    assert(r is Err);
    assert(acts@[1] == acts@.skip(1)[0]);
}

/// A request to pair without a connection is an error and changes nothing.
pub proof fn law_request_without_connection(
    e: &mut Engine,
    device: DeviceId,
    key: &[u8],
    p: proto::PairRequest,
    now: u64,
    wall: u64,
    r: (Result<(), String>, Vec<Action>),
)
    requires
        call_ensures(Engine::on_message, (e, device, key, Message::PairRequest(p), now, wall), r),
        !old(e).conns@.contains_key(engine::dk(device)),
    ensures
        r.0 matches Err(why) && why@ == "нет соединения"@,
        *final(e) == *old(e),
        r.1@.len() == 0,
{
}

/// The user is told which file was too large.
pub proof fn law_too_large_file_is_noted(
    e: &mut Engine,
    device: DeviceId,
    key: &[u8],
    o: FileOffer,
    now: u64,
    wall: u64,
    r: (Result<(), String>, Vec<Action>),
    name: &str,
    short: String,
)
    requires
        call_ensures(Engine::on_message, (e, device, key, Message::FileOffer(o), now, wall), r),
        old(e).has_authorised(device),
        old(e).config.max_file_size > 0,
        o.size > old(e).config.max_file_size,
        name@ == o.name@,
        call_ensures(util::clamp_str, (name, 60), short),
    ensures
        r.1@.len() == 2,
        r.1@[1] matches Action::Emit(EngineEvent::Notice(n)) && n@ == "Отклонён файл "@ + short@
            + " — превышен лимит размера"@,
{
}

/// Deciding about a device that is not known at all changes nobody's trust.
pub proof fn law_nobody_is_marked_in_place_of_another(
    e: &mut Engine,
    f: &mut Engine,
    device: DeviceId,
    on: bool,
    acts: Vec<Action>,
    told: Vec<Action>,
)
    requires
        call_ensures(Engine::set_auto_accept, (e, device, on), acts),
        call_ensures(Engine::set_blocked, (f, device, on), told),
        *old(e) == *old(f),
        !old(e).conns@.contains_key(engine::dk(device)),
        !old(e).peers@.contains_key(engine::dk(device)),
        forall|i: int|
            0 <= i < old(e).trust.spec_devices().len() ==> !((
            #[trigger] old(e).trust.spec_devices()[i]).spec_key() matches Some(k)
                && fingerprint::device_bytes(k) == device.0@),
    ensures
        final(e).trust == old(e).trust,
        final(f).trust == old(f).trust,
        acts@ == seq![Action::Emit(EngineEvent::TrustChanged)],
        told@ == seq![Action::Emit(EngineEvent::TrustChanged)],
{
    let a = choose|key: Option<Seq<u8>>| #[trigger]
        commands::is_key_of(*old(e), device, key) && commands::marked(
            *old(e),
            *final(e),
            device,
            key,
            commands::auto_set(on),
            false,
            acts@,
        );
    let b = choose|key: Option<Seq<u8>>| #[trigger]
        commands::is_key_of(*old(f), device, key) && commands::marked(
            *old(f),
            *final(f),
            device,
            key,
            commands::block_set(on),
            on,
            told@,
        );
    lemma_unknown(*old(e), device, a);
    lemma_unknown(*old(e), device, b);
    assert(acts@ =~= seq![Action::Emit(EngineEvent::TrustChanged)]);
    assert(told@ =~= seq![Action::Emit(EngineEvent::TrustChanged)]);
}

proof fn lemma_unknown(e: Engine, device: DeviceId, key: Option<Seq<u8>>)
    requires
        commands::is_key_of(e, device, key),
        !e.conns@.contains_key(engine::dk(device)),
        !e.peers@.contains_key(engine::dk(device)),
        forall|i: int|
            0 <= i < e.trust.spec_devices().len() ==> !((
            #[trigger] e.trust.spec_devices()[i]).spec_key() matches Some(k)
                && fingerprint::device_bytes(k) == device.0@),
    ensures
        key is None,
{
    if let Some(bytes) = key {
        let ds = e.trust.spec_devices();
        let i = choose|i: int| #[trigger]
            e.trust.first_of(device, i) && ds[i].spec_key() == Some(bytes);
        assert(ds[i].spec_key() == Some(bytes));
    }
}

/// A file for a transfer that is gone is turned down; one for a transfer that
/// was accepted before changes nothing.
pub proof fn law_file_without_transfer(
    e: &mut Engine,
    device: DeviceId,
    id: TransferId,
    opened: Opened,
    acts: Vec<Action>,
)
    requires
        call_ensures(Engine::part_opened, (e, device, id, opened), acts),
        !old(e).incoming@.contains_key(engine::tk(id)) || old(e).incoming@[engine::tk(id)].accepted,
    ensures
        final(e).incoming@ == old(e).incoming@,
        old(e).incoming@.contains_key(engine::tk(id)) ==> acts@.len() == 0,
        !old(e).incoming@.contains_key(engine::tk(id)) ==> acts@.len() == 1 && (acts@[0]
            matches Action::Send { to, msg: Message::FileReject(f) } && to == device && f.id == id
            && f.reason@ == "ошибка записи на диск"@),
{
}

/// Both sides learn what is wrong with a file that is not good.
pub proof fn law_what_is_wrong_with_a_file(
    e: &mut Engine,
    device: DeviceId,
    id: TransferId,
    flushed: Result<(), String>,
    acts: Vec<Action>,
    t: IncomingTransfer,
    path: String,
    fault: &TransferError,
    why: String,
)
    requires
        call_ensures(Engine::finish_transfer, (e, device, id, flushed), acts),
        old(e).incoming@.contains_key(engine::tk(id)),
        t == old(e).incoming@[engine::tk(id)],
        call_ensures(
            IncomingTransfer::finish,
            (t, flushed),
            (path, Err::<(), TransferError>(*fault)),
        ),
        call_ensures(TransferError::text, (fault,), why),
    ensures
        acts@.len() == 3,
        acts@[1] matches Action::Send { to, msg: Message::FileError(f) } && to == device && f.id
            == id && f.reason@ == why@,
        acts@[2] matches Action::Emit(EngineEvent::TransferFinished { error: Some(w), .. }) && w@
            == why@,
{
}

/// What is wrong with a transfer, in words.
pub proof fn law_words_for_transfers(e: &TransferError, r: String)
    requires
        call_ensures(TransferError::text, (e,), r),
    ensures
        r@ == match *e {
            TransferError::NotAccepted => "transfer was not accepted"@,
            TransferError::BadOffset {
                expected,
                got,
            } => "chunk out of order (expected offset "@ + text::decimal(expected as nat)
                + ", got "@ + text::decimal(got as nat) + ")"@,
            TransferError::TooLarge => "peer sent more data than it offered"@,
            TransferError::Incomplete { received, size } => "incomplete: "@ + text::decimal(
                received as nat,
            ) + " of "@ + text::decimal(size as nat) + " bytes"@,
            TransferError::HashMismatch => "content hash does not match the offer"@,
            TransferError::Io(why) => "io: "@ + why@,
        },
{
}

/// What is wrong with a link, a frame, a session, a keystore or a trust store,
/// in words.
pub proof fn law_words_for_errors(
    link: &PairingError,
    link_text: String,
    frame: &ProtoError,
    frame_text: String,
    session: &SessionError,
    session_text: String,
    key: &KeystoreError,
    key_text: String,
    store: &TrustError,
    store_text: String,
)
    requires
        call_ensures(PairingError::text, (link,), link_text),
        call_ensures(ProtoError::text, (frame,), frame_text),
        call_ensures(SessionError::text, (session,), session_text),
        call_ensures(KeystoreError::text, (key,), key_text),
        call_ensures(TrustError::text, (store,), store_text),
    ensures
        link is NotALink ==> link_text@ == "не похоже на ссылку сопряжения SyncMob"@,
        link is NoKey ==> link_text@ == "в ссылке нет корректного ключа"@,
        link is KeyLength ==> link_text@ == "некорректная длина ключа"@,
        link is NoHost ==> link_text@ == "в ссылке нет адреса"@,
        frame is Empty ==> frame_text@ == "empty frame"@,
        frame matches ProtoError::TooLarge(n) ==> frame_text@ == "frame too large: "@
            + text::decimal(n as nat) + " bytes"@,
        frame matches ProtoError::Malformed(what) ==> frame_text@ == "malformed "@ + what@,
        frame matches ProtoError::Json(why) ==> frame_text@ == "json: "@ + why@,
        session is Exhausted ==> session_text@ == "session exhausted, reconnect required"@,
        session is Closed ==> session_text@ == "channel closed"@,
        session is NoRemoteStatic ==> session_text@ == "peer did not present a static key"@,
        session matches SessionError::Io(why) ==> session_text@ == "io: "@ + why@,
        session matches SessionError::FrameTooLarge(n) ==> session_text@ == "frame too large: "@
            + text::decimal(n as nat),
        key is NotFound ==> key_text@ == "keystore file not found"@,
        key is NeedPassphrase ==> key_text@ == "this keystore is passphrase protected"@,
        key is UnexpectedPassphrase ==> key_text@ == "this keystore is not passphrase protected"@,
        key is WrongPassphrase ==> key_text@
            == "wrong passphrase, or the keystore has been tampered with"@,
        key matches KeystoreError::Corrupt(what) ==> key_text@ == "keystore is corrupt: "@ + what@,
        store is Tampered ==> store_text@ == "trust store is corrupt or was tampered with"@,
        store is Full ==> store_text@ == "trust store is full (256 devices)"@,
        store is BadKey ==> store_text@ == "invalid public key"@,
{
}

} // verus!
