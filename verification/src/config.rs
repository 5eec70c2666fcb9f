//! Persistent, non-secret settings and the on-disk layout.

pub mod laws;

use vstd::prelude::*;
use crate::proto::DEFAULT_TCP_PORT;
use crate::text;
use crate::util;

verus! {

/// Everything the user can change that is not a secret.
#[derive(Debug, Clone)]
pub struct Config {
    /// Name broadcast to the LAN. Visible to anyone on the network.
    pub device_name: String,
    pub tcp_port: u16,
    /// Announce our presence over UDP. Turning this off makes the device
    /// reachable only if the peer already knows its address.
    pub discovery_enabled: bool,
    /// Accept inbound connections at all.
    pub accept_incoming: bool,
    /// Where received files are written.
    pub download_dir: String,
    /// Refuse offers larger than this (bytes). 0 means "no extra limit".
    pub max_file_size: u64,
    /// Refuse connections from addresses outside RFC1918/link-local ranges.
    pub lan_only: bool,
    /// Allow pairing requests from unknown devices. When false, only already
    /// paired devices can connect at all.
    pub allow_new_pairings: bool,
}

/// What the machine offers for the defaults: its names and the download
/// directory of the user, as far as they are known.
pub struct Machine {
    pub computer_name: Option<String>,
    pub host_name: Option<String>,
    pub downloads: Option<String>,
}

impl Machine {
    /// The first name that is known, or a made-up one.
    pub open spec fn raw_name(&self) -> Seq<char> {
        match self.computer_name {
            Some(n) => n@,
            None => match self.host_name {
                Some(n) => n@,
                None => "SyncMob PC"@,
            },
        }
    }

    pub open spec fn device_name(&self) -> Seq<char> {
        util::clamped(text::trim(self.raw_name()), 32)
    }

    pub open spec fn download_dir(&self) -> Seq<char> {
        util::joined(
            match self.downloads {
                Some(d) => d@,
                None => "."@,
            },
            "SyncMob"@,
        )
    }
}

/// The name of this device unless the user chose one.
pub fn default_device_name(machine: &Machine) -> (r: String)
    ensures
        r@ == machine.device_name(),
{
    let raw = match &machine.computer_name {
        Some(n) => n.as_str(),
        None => match &machine.host_name {
            Some(n) => n.as_str(),
            None => "SyncMob PC",
        },
    };
    util::clamp_str(text::trim_str(raw).as_str(), 32)
}

/// Where received files go unless the user chose a place.
pub fn default_download_dir(machine: &Machine) -> (r: String)
    ensures
        r@ == machine.download_dir(),
{
    let base = match &machine.downloads {
        Some(d) => d.as_str(),
        None => ".",
    };
    util::join_path(base, "SyncMob")
}

impl Config {
    /// The settings before the user changed anything.
    pub open spec fn is_default(&self, machine: Machine) -> bool {
        &&& self.device_name@ == machine.device_name()
        &&& self.tcp_port == DEFAULT_TCP_PORT
        &&& self.discovery_enabled
        &&& self.accept_incoming
        &&& self.download_dir@ == machine.download_dir()
        &&& self.max_file_size == 8_589_934_592
        &&& self.lan_only
        &&& self.allow_new_pairings
    }

    /// See [`Config::is_default`].
    pub fn default_for(machine: &Machine) -> (r: Self)
        ensures
            r.is_default(*machine),
    {
        Config {
            device_name: default_device_name(machine),
            tcp_port: DEFAULT_TCP_PORT,
            discovery_enabled: true,
            accept_incoming: true,
            download_dir: default_download_dir(machine),
            max_file_size: 8_589_934_592,
            lan_only: true,
            allow_new_pairings: true,
        }
    }

    /// The settings that were stored, with a usable name; the defaults where
    /// nothing could be read.
    pub fn load(stored: Option<Config>, machine: &Machine) -> (r: Self)
        ensures
            match stored {
                Some(c) => {
                    let name = util::clamped(c.device_name@, 64);
                    &&& r == (Config { device_name: r.device_name, ..c })
                    &&& r.device_name@ == if text::trim(name).len() == 0 {
                        machine.device_name()
                    } else {
                        name
                    }
                },
                None => r.is_default(*machine),
            },
    {
        match stored {
            Some(c) => {
                let mut c = c;
                c.device_name = util::clamp_str(c.device_name.as_str(), 64);
                if text::trim_str(c.device_name.as_str()).as_str().is_empty() {
                    c.device_name = default_device_name(machine);
                }
                c
            },
            None => Config::default_for(machine),
        }
    }

    /// A copy of the settings.
    pub fn copy(&self) -> (r: Config)
        ensures
            r == *self,
    {
        Config {
            device_name: self.device_name.clone(),
            tcp_port: self.tcp_port,
            discovery_enabled: self.discovery_enabled,
            accept_incoming: self.accept_incoming,
            download_dir: self.download_dir.clone(),
            max_file_size: self.max_file_size,
            lan_only: self.lan_only,
            allow_new_pairings: self.allow_new_pairings,
        }
    }
}

/// Directory holding identity, trust store and settings.
#[derive(Debug, Clone)]
pub struct Paths {
    pub root: String,
}

impl Paths {
    /// The data directory of the application, or a directory of its own below
    /// the current one where there is none.
    pub fn discover(data_dir: Option<&str>) -> (r: Self)
        ensures
            r.root@ == match data_dir {
                Some(d) => d@,
                None => ".syncmob"@,
            },
    {
        match data_dir {
            Some(d) => Paths { root: d.to_string() },
            None => Paths { root: ".syncmob".to_string() },
        }
    }

    pub fn identity(&self) -> (r: String)
        ensures
            r@ == util::joined(self.root@, "identity.json"@),
    {
        util::join_path(self.root.as_str(), "identity.json")
    }

    pub fn trust(&self) -> (r: String)
        ensures
            r@ == util::joined(self.root@, "trust.json"@),
    {
        util::join_path(self.root.as_str(), "trust.json")
    }

    pub fn config(&self) -> (r: String)
        ensures
            r@ == util::joined(self.root@, "config.json"@),
    {
        util::join_path(self.root.as_str(), "config.json")
    }

    /// Partially received files live here until they are verified.
    pub fn incoming(&self) -> (r: String)
        ensures
            r@ == util::joined(self.root@, "incoming"@),
    {
        util::join_path(self.root.as_str(), "incoming")
    }
}

} // verus!
