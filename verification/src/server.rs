//! The coordinator service: orchestrates the registry, the address
//! allocator and the configuration synthesizer, and plans the propagation
//! that must follow every mutation.
//!
//! Every mutating operation returns, besides its own result, the list of
//! peer records whose configuration must be pushed afresh.  The caller
//! performs the pushes (and the external key derivation) and reports
//! per-target failures without failing the triggering operation.

use vstd::prelude::*;
use crate::config::{config_text_spec, render_ok, config_text_factory};
use crate::errors::WireSyncError;
use crate::record::{ServerData, contains_id, find_id, id_of};
use crate::registry::{Registry, registry_wf};
use crate::subnet::{ServerConfig, cfg_wf, get_next_ip};
use crate::text::{is_safe_text, safe_text};

verus! {

/// Connection and listening parameters for the coordinator process.
#[derive(Debug)]
pub struct ServerArg {
    /// Port the coordinator's own control service listens on.
    pub port: u16,
    /// Host of the backing store.
    pub db_endpoint: String,
    /// Port of the backing store.
    pub db_port: u16,
    /// User for the backing store.
    pub db_user: String,
    /// Password for the backing store.
    pub db_password: String,
}

/// An exact copy of a record snapshot.
fn clone_records(v: &Vec<ServerData>) -> (r: Vec<ServerData>)
    ensures
        r@ == v@,
{
    let n = v.len();
    let mut out: Vec<ServerData> = Vec::new();
    let mut i: usize = 0;
    while i < n
        invariant
            n == v@.len(),
            i <= n,
            out@.len() == i,
            forall|j: int| 0 <= j < i ==> out@[j] == #[trigger] v@[j],
        decreases n - i,
    {
        out.push(v[i].duplicate());
        i = i + 1;
    }
    proof {
        assert(out@ =~= v@);
    }
    out
}

/// Some record holds the subnet address at host offset `o`.
pub open spec fn offset_taken(recs: Seq<ServerData>, cfg: ServerConfig, o: int) -> bool {
    exists|i: int| 0 <= i < recs.len() && (#[trigger] recs[i]).overlay_ip == (cfg.base + o) as u32
}

/// Every assignable host address of the subnet is taken by some record.
pub open spec fn subnet_full(recs: Seq<ServerData>, cfg: ServerConfig) -> bool {
    forall|o: int| 1 <= o <= cfg.last_offset ==> #[trigger] offset_taken(recs, cfg, o)
}

/// The coordinator: registry plus subnet configuration.
pub struct MyWiresyncServerApi {
    /// The record store.
    pub registry: Registry,
    /// The overlay subnet addresses are assigned from.
    pub config: ServerConfig,
}

impl MyWiresyncServerApi {
    /// The coordinator's invariant: well-formed registry contents, a
    /// usable subnet, and every assigned address inside the subnet's host
    /// range.
    pub open spec fn wf(&self) -> bool {
        &&& registry_wf(self.registry@)
        &&& cfg_wf(self.config)
        &&& forall|i: int|
            0 <= i < self.registry@.len() ==> self.config.base < (
            #[trigger] self.registry@[i]).overlay_ip <= self.config.base + self.config.last_offset
    }

    /// A coordinator over an empty registry.
    pub fn new(config: ServerConfig) -> (r: MyWiresyncServerApi)
        requires
            cfg_wf(config),
        ensures
            r.wf(),
            r.registry@ == Seq::<ServerData>::empty(),
            r.config == config,
    {
        MyWiresyncServerApi { registry: Registry::new(), config }
    }

    /// The liveness greeting.
    pub fn say_hello(&self, name: &String) -> (r: String)
        ensures
            r@ == "Hello "@ + name@ + "!"@,
    {
        let mut s = String::from_str("Hello ");
        s.append(name.as_str());
        s.append("!");
        s
    }

    /// Registers a new peer: refuses a duplicate identity, validates the
    /// request, allocates the smallest free overlay address, stores the
    /// record, and returns the assigned address together with the records
    /// of all previously registered peers — the ones whose configuration
    /// must now be pushed afresh.
    ///
    /// Fails with `AlreadyExists` exactly when the identity is taken,
    /// else with `ValidationError` exactly on a field that would corrupt
    /// rendered text, else with `AddressSpaceExhausted` exactly when no
    /// address is free; on every other input it succeeds.
    pub fn submit(
        &mut self,
        endpoint: String,
        control_port: u16,
        wireguard_port: u16,
        key_material: String,
        nic_name: String,
    ) -> (r: Result<(u32, Vec<ServerData>), WireSyncError>)
        requires
            old(self).wf(),
        ensures
            final(self).wf(),
            final(self).config == old(self).config,
            (r == Err::<(u32, Vec<ServerData>), WireSyncError>(WireSyncError::AlreadyExists))
                == contains_id(old(self).registry@, (endpoint@, control_port)),
            !contains_id(old(self).registry@, (endpoint@, control_port)) ==> ((r == Err::<
                (u32, Vec<ServerData>),
                WireSyncError,
            >(WireSyncError::ValidationError)) == !(safe_text(endpoint@) && safe_text(nic_name@))),
            !contains_id(old(self).registry@, (endpoint@, control_port)) && safe_text(endpoint@)
                && safe_text(nic_name@) ==> ((r == Err::<(u32, Vec<ServerData>), WireSyncError>(
                WireSyncError::AddressSpaceExhausted,
            )) == subnet_full(old(self).registry@, old(self).config)),
            !contains_id(old(self).registry@, (endpoint@, control_port)) && safe_text(endpoint@)
                && safe_text(nic_name@) && !subnet_full(old(self).registry@, old(self).config)
                ==> r is Ok,
            r is Err ==> final(self).registry@ == old(self).registry@,
            r matches Ok((ip, targets)) ==> {
                let rec = ServerData {
                    endpoint,
                    control_port,
                    wireguard_port,
                    nic_name,
                    key_material,
                    overlay_ip: ip,
                };
                &&& old(self).config.base < ip <= old(self).config.base
                    + old(self).config.last_offset
                &&& forall|i: int|
                    0 <= i < old(self).registry@.len() ==> (
                    #[trigger] old(self).registry@[i]).overlay_ip != ip
                &&& forall|o: int|
                    1 <= o < ip - old(self).config.base ==> #[trigger] offset_taken(
                        old(self).registry@,
                        old(self).config,
                        o,
                    )
                &&& final(self).registry@.len() == old(self).registry@.len() + 1
                &&& exists|p: int|
                    0 <= p <= old(self).registry@.len() && final(self).registry@ == #[trigger] old(
                        self,
                    ).registry@.insert(p, rec)
                &&& final(self).registry@.contains(rec)
                &&& contains_id(final(self).registry@, (endpoint@, control_port))
                &&& forall|x: ServerData|
                    old(self).registry@.contains(x) ==> final(self).registry@.contains(x)
                &&& targets@ == old(self).registry@
            },
    {
        if self.registry.has_id(&endpoint, control_port) {
            return Err(WireSyncError::AlreadyExists);
        }
        if !(is_safe_text(endpoint.as_str()) && is_safe_text(nic_name.as_str())) {
            return Err(WireSyncError::ValidationError);
        }
        let used = self.registry.used_ips();
        let ip = match get_next_ip(&used, &self.config) {
            Ok(a) => a,
            Err(e) => {
                proof {
                    assert forall|o: int|
                        1 <= o <= self.config.last_offset implies offset_taken(
                        self.registry@,
                        self.config,
                        o,
                    ) by {
                        assert(used@.contains((self.config.base + o) as u32));
                        let j = choose|j: int|
                            0 <= j < used@.len() && used@[j] == (self.config.base + o) as u32;
                        assert(self.registry@[j].overlay_ip == (self.config.base + o) as u32);
                    }
                }
                return Err(e);
            },
        };
        proof {
            // The allocated address collides with no record.
            assert forall|i: int| 0 <= i < self.registry@.len() implies (
            #[trigger] self.registry@[i]).overlay_ip != ip by {
                if self.registry@[i].overlay_ip == ip {
                    assert(used@[i] == ip);
                    assert(used@.contains(ip));
                }
            }
            // Every smaller offset is taken by some record.
            assert forall|o: int| 1 <= o < ip - self.config.base implies offset_taken(
                self.registry@,
                self.config,
                o,
            ) by {
                assert(used@.contains((self.config.base + o) as u32));
                let j = choose|j: int|
                    0 <= j < used@.len() && used@[j] == (self.config.base + o) as u32;
                assert(self.registry@[j].overlay_ip == (self.config.base + o) as u32);
            }
            // The subnet is not full: the allocated offset itself is free.
            if subnet_full(self.registry@, self.config) {
                let o = ip - self.config.base;
                assert(offset_taken(self.registry@, self.config, o));
                let i = choose|i: int|
                    0 <= i < self.registry@.len() && (#[trigger] self.registry@[i]).overlay_ip == (
                    self.config.base + o) as u32;
                assert(used@[i] == ip);
                assert(used@.contains(ip));
            }
        }
        let targets = clone_records(self.registry.records());
        let rec = ServerData {
            endpoint,
            control_port,
            wireguard_port,
            nic_name,
            key_material,
            overlay_ip: ip,
        };
        match self.registry.create(rec) {
            Ok(()) => Ok((ip, targets)),
            Err(_) => {
                // Unreachable: the identity was checked above.
                proof {
                    assert(false);
                }
                Err(WireSyncError::AlreadyExists)
            },
        }
    }


    /// Reinstalls a record from durable storage, keeping the overlay
    /// address it was assigned before.  Used when the coordinator
    /// restarts and replays the persisted registry; no propagation
    /// follows, since nothing changed.
    ///
    /// Fails with `AlreadyExists` exactly when the identity is taken,
    /// else with `ValidationError` exactly when a field would corrupt
    /// rendered text or the address lies outside the subnet's host
    /// range, else with `StorageError` exactly when the address is
    /// already assigned — a store that yields such a record is
    /// inconsistent; on every other input it succeeds.
    pub fn restore(
        &mut self,
        endpoint: String,
        control_port: u16,
        wireguard_port: u16,
        key_material: String,
        nic_name: String,
        overlay_ip: u32,
    ) -> (r: Result<(), WireSyncError>)
        requires
            old(self).wf(),
        ensures
            final(self).wf(),
            final(self).config == old(self).config,
            (r == Err::<(), WireSyncError>(WireSyncError::AlreadyExists)) == contains_id(
                old(self).registry@,
                (endpoint@, control_port),
            ),
            !contains_id(old(self).registry@, (endpoint@, control_port)) ==> ((r == Err::<
                (),
                WireSyncError,
            >(WireSyncError::ValidationError)) == !(safe_text(endpoint@) && safe_text(nic_name@)
                && old(self).config.base < overlay_ip <= old(self).config.base
                + old(self).config.last_offset)),
            !contains_id(old(self).registry@, (endpoint@, control_port)) && safe_text(endpoint@)
                && safe_text(nic_name@) && old(self).config.base < overlay_ip <= old(
                self,
            ).config.base + old(self).config.last_offset ==> ((r == Err::<(), WireSyncError>(
                WireSyncError::StorageError,
            )) == exists|i: int|
                0 <= i < old(self).registry@.len() && (#[trigger] old(self).registry@[i]).overlay_ip
                    == overlay_ip),
            !contains_id(old(self).registry@, (endpoint@, control_port)) && safe_text(endpoint@)
                && safe_text(nic_name@) && old(self).config.base < overlay_ip <= old(
                self,
            ).config.base + old(self).config.last_offset && (forall|i: int|
                0 <= i < old(self).registry@.len() ==> (#[trigger] old(self).registry@[i]).overlay_ip
                    != overlay_ip) ==> r is Ok,
            r is Err ==> final(self).registry@ == old(self).registry@,
            r is Ok ==> {
                let rec = ServerData {
                    endpoint,
                    control_port,
                    wireguard_port,
                    nic_name,
                    key_material,
                    overlay_ip,
                };
                &&& final(self).registry@.len() == old(self).registry@.len() + 1
                &&& exists|p: int|
                    0 <= p <= old(self).registry@.len() && final(self).registry@ == #[trigger] old(
                        self,
                    ).registry@.insert(p, rec)
                &&& final(self).registry@.contains(rec)
                &&& contains_id(final(self).registry@, (endpoint@, control_port))
                &&& forall|x: ServerData|
                    old(self).registry@.contains(x) ==> final(self).registry@.contains(x)
            },
    {
        if self.registry.has_id(&endpoint, control_port) {
            return Err(WireSyncError::AlreadyExists);
        }
        if !(is_safe_text(endpoint.as_str()) && is_safe_text(nic_name.as_str())
            && self.config.base < overlay_ip && overlay_ip - self.config.base
            <= self.config.last_offset) {
            return Err(WireSyncError::ValidationError);
        }
        let used = self.registry.used_ips();
        if crate::subnet::addr_used(&used, overlay_ip) {
            proof {
                let j = choose|j: int| 0 <= j < used@.len() && used@[j] == overlay_ip;
                assert(self.registry@[j].overlay_ip == overlay_ip);
            }
            return Err(WireSyncError::StorageError);
        }
        proof {
            assert forall|i: int| 0 <= i < self.registry@.len() implies (
            #[trigger] self.registry@[i]).overlay_ip != overlay_ip by {
                if self.registry@[i].overlay_ip == overlay_ip {
                    assert(used@[i] == overlay_ip);
                    assert(used@.contains(overlay_ip));
                }
            }
        }
        let rec = ServerData {
            endpoint,
            control_port,
            wireguard_port,
            nic_name,
            key_material,
            overlay_ip,
        };
        match self.registry.create(rec) {
            Ok(()) => Ok(()),
            Err(_) => {
                // Unreachable: the identity was checked above.
                proof {
                    assert(false);
                }
                Err(WireSyncError::AlreadyExists)
            },
        }
    }

    /// Reconciles a peer's reported attributes with the stored record.
    ///
    /// When every reported field matches the stored record this is a
    /// no-op.  Otherwise the mutable attributes are rewritten (identity
    /// and assigned address never change) and every active peer,
    /// including the reporting one, must be pushed fresh configuration.
    ///
    /// Fails with `NotFound` exactly for an unknown identity, else with
    /// `ValidationError` exactly on an interface name that would corrupt
    /// rendered text; on every other input it succeeds.
    pub fn check(
        &mut self,
        endpoint: &String,
        control_port: u16,
        key_material: String,
        nic_name: String,
        claimed_ip: u32,
    ) -> (r: Result<(bool, Vec<ServerData>), WireSyncError>)
        requires
            old(self).wf(),
        ensures
            final(self).wf(),
            final(self).config == old(self).config,
            (r == Err::<(bool, Vec<ServerData>), WireSyncError>(WireSyncError::NotFound))
                == !contains_id(old(self).registry@, (endpoint@, control_port)),
            contains_id(old(self).registry@, (endpoint@, control_port)) ==> ((r == Err::<
                (bool, Vec<ServerData>),
                WireSyncError,
            >(WireSyncError::ValidationError)) == !safe_text(nic_name@)),
            contains_id(old(self).registry@, (endpoint@, control_port)) && safe_text(nic_name@)
                ==> r is Ok,
            r is Err ==> final(self).registry@ == old(self).registry@,
            r matches Ok((changed, targets)) ==> {
                let ix = find_id(old(self).registry@, (endpoint@, control_port));
                let stored = old(self).registry@[ix];
                &&& contains_id(old(self).registry@, (endpoint@, control_port))
                &&& changed == !(stored.key_material@ == key_material@ && stored.nic_name@
                    == nic_name@ && stored.overlay_ip == claimed_ip)
                &&& !changed ==> final(self).registry@ == old(self).registry@ && targets@.len()
                    == 0
                &&& changed ==> final(self).registry@ == old(self).registry@.update(
                    ix,
                    ServerData {
                        endpoint: stored.endpoint,
                        control_port: stored.control_port,
                        wireguard_port: stored.wireguard_port,
                        nic_name,
                        key_material,
                        overlay_ip: stored.overlay_ip,
                    },
                ) && targets@ == final(self).registry@
            },
    {
        let stored = match self.registry.get(endpoint, control_port) {
            Some(rec) => rec,
            None => {
                return Err(WireSyncError::NotFound);
            },
        };
        if !is_safe_text(nic_name.as_str()) {
            return Err(WireSyncError::ValidationError);
        }
        let same = stored.key_material.eq(&key_material) && stored.nic_name.eq(&nic_name)
            && stored.overlay_ip == claimed_ip;
        if same {
            let targets: Vec<ServerData> = Vec::new();
            return Ok((false, targets));
        }
        match self.registry.update(
            endpoint,
            control_port,
            stored.wireguard_port,
            key_material,
            nic_name,
        ) {
            Ok(()) => {},
            Err(_) => {
                // Unreachable: the record was just looked up.
                proof {
                    assert(false);
                }
                return Err(WireSyncError::NotFound);
            },
        }
        proof {
            let pre = old(self).registry@;
            let ix = find_id(pre, (endpoint@, control_port));
            crate::record::lemma_find_id_props(pre, (endpoint@, control_port));
            assert forall|i: int|
                0 <= i < self.registry@.len() implies self.config.base < (
            #[trigger] self.registry@[i]).overlay_ip <= self.config.base
                + self.config.last_offset by {
                if i == ix {
                    assert(self.registry@[i].overlay_ip == pre[ix].overlay_ip);
                } else {
                    assert(self.registry@[i] == pre[i]);
                }
            }
        }
        let targets = clone_records(self.registry.records());
        Ok((true, targets))
    }

    /// Renders the configuration text for the peer with the given
    /// identity over the current snapshot, given one derived public key
    /// per record.  Read-only: repeated calls over an unchanged registry
    /// return identical text.
    pub fn pull(&self, endpoint: &String, control_port: u16, keys: &Vec<String>) -> (r: Result<
        String,
        WireSyncError,
    >)
        ensures
            (r is Ok) == render_ok(self.registry@, keys.deep_view(), (endpoint@, control_port)),
            r matches Ok(t) ==> t@ == config_text_spec(
                self.registry@,
                keys.deep_view(),
                (endpoint@, control_port),
            ),
            (r == Err::<String, WireSyncError>(WireSyncError::NotFound)) == !contains_id(
                self.registry@,
                (endpoint@, control_port),
            ),
            contains_id(self.registry@, (endpoint@, control_port)) && keys@.len()
                != self.registry@.len() ==> r == Err::<String, WireSyncError>(
                WireSyncError::KeyDerivationError,
            ),
            contains_id(self.registry@, (endpoint@, control_port)) && keys@.len()
                == self.registry@.len() && !render_ok(
                self.registry@,
                keys.deep_view(),
                (endpoint@, control_port),
            ) ==> r == Err::<String, WireSyncError>(WireSyncError::ValidationError),
    {
        config_text_factory(self.registry.records(), keys, endpoint, control_port)
    }

    /// Removes the record with the given identity and returns the
    /// records of every remaining peer — the ones whose configuration
    /// must now be pushed afresh.  On success no record with the identity
    /// remains.
    ///
    /// Fails with `NotFound`, leaving the registry unchanged, exactly
    /// when the identity is not registered.
    pub fn delete(&mut self, endpoint: &String, control_port: u16) -> (r: Result<
        Vec<ServerData>,
        WireSyncError,
    >)
        requires
            old(self).wf(),
        ensures
            final(self).wf(),
            final(self).config == old(self).config,
            (r is Ok) == contains_id(old(self).registry@, (endpoint@, control_port)),
            r matches Err(e) ==> e == WireSyncError::NotFound && final(self).registry@ == old(
                self,
            ).registry@,
            r matches Ok(targets) ==> {
                &&& final(self).registry@ == old(self).registry@.remove(
                    find_id(old(self).registry@, (endpoint@, control_port)),
                )
                &&& final(self).registry@.len() == old(self).registry@.len() - 1
                &&& forall|i: int|
                    0 <= i < final(self).registry@.len()
                        ==> id_of(#[trigger] final(self).registry@[i]) != (endpoint@, control_port)
                &&& targets@ == final(self).registry@
            },
    {
        match self.registry.delete(endpoint, control_port) {
            Ok(()) => {},
            Err(e) => {
                return Err(e);
            },
        }
        proof {
            let pre = old(self).registry@;
            let ix = find_id(pre, (endpoint@, control_port));
            crate::record::lemma_find_id_props(pre, (endpoint@, control_port));
            assert forall|i: int|
                0 <= i < self.registry@.len() implies self.config.base < (
            #[trigger] self.registry@[i]).overlay_ip <= self.config.base
                + self.config.last_offset by {
                if i < ix {
                    assert(self.registry@[i] == pre[i]);
                } else {
                    assert(self.registry@[i] == pre[i + 1]);
                }
            }
        }
        let targets = clone_records(self.registry.records());
        Ok(targets)
    }
}

} // verus!
