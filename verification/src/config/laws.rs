//! What holds of the calls that give the settings and the places of files.

use vstd::prelude::*;
use crate::config;
use crate::config::{Config, Machine, Paths};
use crate::engine::laws::talking;
use crate::util;

verus! {

/// Before the user changed anything the device is reachable and open to new
/// pairings, within the local network only, at the usual port and with a limit
/// of 8 GiB for a file.
pub proof fn law_settings_at_first(m: &Machine, name: String, dir: String, r: Config)
    requires
        call_ensures(Config::default_for, (m,), r),
        call_ensures(config::default_device_name, (m,), name),
        call_ensures(config::default_download_dir, (m,), dir),
    ensures
        r.device_name@ == name@,
        r.download_dir@ == dir@,
        r.tcp_port == 45821,
        r.max_file_size == 8 * 0x4000_0000,
        r.discovery_enabled,
        r.accept_incoming,
        r.lan_only,
        r.allow_new_pairings,
{
}

/// The device is called like the computer, else like the host, else by a name of
/// its own: what stands between the white space of the name, in at most 32
/// characters.
pub proof fn law_name_at_first(m: &Machine, raw: Seq<char>, from: int, to: int, r: String)
    requires
        call_ensures(config::default_device_name, (m,), r),
        m.computer_name matches Some(n) ==> raw == n@,
        m.computer_name is None ==> (m.host_name matches Some(n) ==> raw == n@),
        m.computer_name is None && m.host_name is None ==> raw == "SyncMob PC"@,
        talking::is_core_of(raw, from, to),
    ensures
        talking::is_short_line_of(r@, raw.subrange(from, to), 32),
{
    talking::lemma_trim_is_core(raw, from, to);
    talking::lemma_clamped_is_line(raw.subrange(from, to), 32);
}

/// Received files go into a directory of their own below the downloads.
pub proof fn law_place_at_first(m: &Machine, base: &str, name: &str, expected: String, r: String)
    requires
        call_ensures(config::default_download_dir, (m,), r),
        m.downloads matches Some(d) ==> base@ == d@,
        m.downloads is None ==> base@ == "."@,
        name@ == "SyncMob"@,
        call_ensures(util::join_path, (base, name), expected),
    ensures
        r@ == expected@,
{
}

/// Stored settings are taken over as they are; only the name is put into one
/// short line, and replaced where it is blank. Where nothing is stored they are
/// those of a new device.
pub proof fn law_stored_settings_are_kept(
    stored: Config,
    m: &Machine,
    r: Config,
    none: Config,
    first: Config,
    name: String,
    from: int,
    to: int,
)
    requires
        call_ensures(Config::load, (Some(stored), m), r),
        call_ensures(Config::load, (None, m), none),
        call_ensures(Config::default_for, (m,), first),
        call_ensures(config::default_device_name, (m,), name),
        stored.device_name@.len() <= 64,
        talking::is_core_of(stored.device_name@, from, to),
        forall|i: int|
            0 <= i < stored.device_name@.len() ==> #[trigger] stored.device_name@[i] != '\0',
    ensures
        r.tcp_port == stored.tcp_port,
        r.discovery_enabled == stored.discovery_enabled,
        r.accept_incoming == stored.accept_incoming,
        r.download_dir == stored.download_dir,
        r.max_file_size == stored.max_file_size,
        r.lan_only == stored.lan_only,
        r.allow_new_pairings == stored.allow_new_pairings,
        from < to ==> talking::is_line_of(r.device_name@, stored.device_name@),
        from == to ==> r.device_name@ == name@,
        none.device_name@ == first.device_name@,
        none.tcp_port == first.tcp_port,
        none.download_dir@ == first.download_dir@,
        none.max_file_size == first.max_file_size,
        none.lan_only && none.allow_new_pairings && none.accept_incoming && none.discovery_enabled,
{
    let s = stored.device_name@;
    let c = util::clamped(s, 64);
    talking::lemma_clamped_is_line(s, 64);
    assert(talking::is_core_of(c, from, to)) by {
        assert forall|i: int| 0 <= i < s.len() implies crate::text::is_white(c[i])
            == crate::text::is_white(#[trigger] s[i]) by {
            assert(c[i] == talking::in_line(s[i]));
        }
    }
    talking::lemma_trim_is_core(c, from, to);
}

/// A copy of the settings is equal to them.
pub proof fn law_copied_settings(c: &Config, r: Config)
    requires
        call_ensures(Config::copy, (c,), r),
    ensures
        r == *c,
{
}

/// The files of the application lie in its data directory, each under its own
/// name.
pub proof fn law_places_of_files(
    dir: &str,
    p: &Paths,
    none: Paths,
    identity: String,
    trust: String,
    settings: String,
    incoming: String,
)
    requires
        call_ensures(Paths::discover, (Some(dir),), *p),
        call_ensures(Paths::discover, (None,), none),
        call_ensures(Paths::identity, (p,), identity),
        call_ensures(Paths::trust, (p,), trust),
        call_ensures(Paths::config, (p,), settings),
        call_ensures(Paths::incoming, (p,), incoming),
        dir@.len() > 0,
        dir@.last() != '/',
    ensures
        p.root@ == dir@,
        none.root@ == ".syncmob"@,
        identity@ == dir@ + "/identity.json"@,
        trust@ == dir@ + "/trust.json"@,
        settings@ == dir@ + "/config.json"@,
        incoming@ == dir@ + "/incoming"@,
{
    reveal_strlit("/identity.json");
    reveal_strlit("identity.json");
    reveal_strlit("/trust.json");
    reveal_strlit("trust.json");
    reveal_strlit("/config.json");
    reveal_strlit("config.json");
    reveal_strlit("/incoming");
    reveal_strlit("incoming");
    assert(identity@ =~= dir@ + "/identity.json"@);
    assert(trust@ =~= dir@ + "/trust.json"@);
    assert(settings@ =~= dir@ + "/config.json"@);
    assert(incoming@ =~= dir@ + "/incoming"@);
}

} // verus!
