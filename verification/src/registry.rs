//! The registry: the coordinator's store of peer records, kept sorted by
//! identity so that neighbour lists and rendered text are deterministic.

use vstd::prelude::*;
use crate::errors::WireSyncError;
use crate::record::{
    ServerData, contains_id, find_id, find_id_from, id_lt, id_of, id_eq_exec, id_lt_exec,
    lemma_find_id_props, lemma_id_lt_irrefl, lemma_id_lt_total, lemma_id_lt_trans, rec_safe,
};

verus! {

/// A sequence with at most one record per identity is found through any
/// witness index.
pub proof fn lemma_contains_id_witness(recs: Seq<ServerData>, id: (Seq<char>, u16), j: int)
    requires
        0 <= j < recs.len(),
        id_of(recs[j]) == id,
    ensures
        contains_id(recs, id),
{
    lemma_find_id_props(recs, id);
}

/// Well-formed registry contents: strictly sorted by identity (hence
/// identities are unique), overlay addresses unique, and every embedded
/// string format-safe.
pub open spec fn registry_wf(recs: Seq<ServerData>) -> bool {
    &&& forall|i: int, j: int|
        0 <= i < j < recs.len() ==> id_lt(id_of(#[trigger] recs[i]), id_of(#[trigger] recs[j]))
    &&& forall|i: int, j: int|
        0 <= i < j < recs.len() ==> (#[trigger] recs[i]).overlay_ip != (#[trigger] recs[j]).overlay_ip
    &&& forall|i: int| 0 <= i < recs.len() ==> rec_safe(#[trigger] recs[i])
}

/// The records other than `id`'s own, in registry order.
pub open spec fn others_of(recs: Seq<ServerData>, id: (Seq<char>, u16)) -> Seq<ServerData>
    decreases recs.len(),
{
    if recs.len() == 0 {
        Seq::empty()
    } else {
        let rest = others_of(recs.drop_last(), id);
        if id_of(recs.last()) == id {
            rest
        } else {
            rest.push(recs.last())
        }
    }
}

/// The store of peer records.
pub struct Registry {
    records: Vec<ServerData>,
}

impl View for Registry {
    type V = Seq<ServerData>;

    closed spec fn view(&self) -> Seq<ServerData> {
        self.records@
    }
}

impl Registry {
    /// An empty registry.
    pub fn new() -> (r: Registry)
        ensures
            r@ == Seq::<ServerData>::empty(),
            registry_wf(r@),
    {
        Registry { records: Vec::new() }
    }

    /// The current snapshot of records, in identity order.
    pub fn records(&self) -> (r: &Vec<ServerData>)
        ensures
            r@ == self@,
    {
        &self.records
    }

    /// How many records are registered.
    pub fn count(&self) -> (r: usize)
        ensures
            r == self@.len(),
    {
        self.records.len()
    }

    /// The index of the record with the given identity, if any.
    fn find_index(&self, endpoint: &String, control_port: u16) -> (r: Option<usize>)
        ensures
            match r {
                Some(i) => {
                    &&& 0 <= i < self@.len()
                    &&& i as int == find_id(self@, (endpoint@, control_port))
                    &&& id_of(self@[i as int]) == (endpoint@, control_port)
                },
                None => !contains_id(self@, (endpoint@, control_port)),
            },
    {
        let ghost id = (endpoint@, control_port);
        let n = self.records.len();
        let mut idx: usize = 0;
        while idx < n
            invariant
                id == (endpoint@, control_port),
                n == self@.len(),
                idx <= n,
                find_id(self@, id) == find_id_from(self@, id, idx as int),
            decreases n - idx,
        {
            let cur = &self.records[idx];
            if id_eq_exec(&cur.endpoint, cur.control_port, endpoint, control_port) {
                proof {
                    assert(find_id_from(self@, id, idx as int) == idx as int);
                }
                return Some(idx);
            }
            idx = idx + 1;
        }
        proof {
            lemma_find_id_props(self@, id);
        }
        None
    }

    /// Whether a record with the given identity is registered.
    pub fn has_id(&self, endpoint: &String, control_port: u16) -> (r: bool)
        ensures
            r == contains_id(self@, (endpoint@, control_port)),
    {
        match self.find_index(endpoint, control_port) {
            Some(i) => {
                proof {
                    lemma_contains_id_witness(self@, (endpoint@, control_port), i as int);
                }
                true
            },
            None => false,
        }
    }

    /// Looks a record up by identity.
    pub fn get(&self, endpoint: &String, control_port: u16) -> (r: Option<ServerData>)
        ensures
            match r {
                Some(rec) => contains_id(self@, (endpoint@, control_port)) && rec == self@[find_id(
                    self@,
                    (endpoint@, control_port),
                )],
                None => !contains_id(self@, (endpoint@, control_port)),
            },
    {
        match self.find_index(endpoint, control_port) {
            Some(i) => {
                proof {
                    lemma_contains_id_witness(self@, (endpoint@, control_port), i as int);
                }
                Some(self.records[i].duplicate())
            },
            None => None,
        }
    }

    /// All assigned overlay addresses, one per record, in registry order.
    pub fn used_ips(&self) -> (r: Vec<u32>)
        ensures
            r@.len() == self@.len(),
            forall|i: int| 0 <= i < self@.len() ==> r@[i] == #[trigger] self@[i].overlay_ip,
    {
        let n = self.records.len();
        let mut out: Vec<u32> = Vec::new();
        let mut i: usize = 0;
        while i < n
            invariant
                n == self@.len(),
                i <= n,
                out@.len() == i,
                forall|j: int| 0 <= j < i ==> out@[j] == #[trigger] self@[j].overlay_ip,
            decreases n - i,
        {
            out.push(self.records[i].overlay_ip);
            i = i + 1;
        }
        out
    }

    /// The records of every peer other than the given identity, in
    /// registry order.
    pub fn list_others(&self, endpoint: &String, control_port: u16) -> (r: Vec<ServerData>)
        ensures
            r@ == others_of(self@, (endpoint@, control_port)),
    {
        let ghost id = (endpoint@, control_port);
        let n = self.records.len();
        let mut out: Vec<ServerData> = Vec::new();
        let mut i: usize = 0;
        while i < n
            invariant
                id == (endpoint@, control_port),
                n == self@.len(),
                i <= n,
                out@ == others_of(self@.take(i as int), id),
            decreases n - i,
        {
            let ghost pre = others_of(self@.take(i as int), id);
            let cur = &self.records[i];
            if !id_eq_exec(&cur.endpoint, cur.control_port, endpoint, control_port) {
                out.push(cur.duplicate());
            }
            proof {
                let tk = self@.take(i as int + 1);
                assert(tk.drop_last() =~= self@.take(i as int));
                assert(tk.last() == self@[i as int]);
            }
            i = i + 1;
        }
        proof {
            assert(self@.take(n as int) =~= self@);
        }
        out
    }

    /// Registers a new record at its sorted position.
    ///
    /// Fails with `AlreadyExists`, leaving the registry unchanged, exactly
    /// when the record's identity is already registered.
    pub fn create(&mut self, rec: ServerData) -> (r: Result<(), WireSyncError>)
        requires
            registry_wf(old(self)@),
            rec_safe(rec),
            forall|i: int|
                0 <= i < old(self)@.len() ==> (#[trigger] old(self)@[i]).overlay_ip
                    != rec.overlay_ip,
        ensures
            registry_wf(final(self)@),
            match r {
                Ok(()) => {
                    &&& !contains_id(old(self)@, id_of(rec))
                    &&& final(self)@.len() == old(self)@.len() + 1
                    &&& exists|p: int|
                        0 <= p <= old(self)@.len() && final(self)@ == #[trigger] old(self)@.insert(p, rec)
                    &&& final(self)@.contains(rec)
                    &&& contains_id(final(self)@, id_of(rec))
                    &&& forall|x: ServerData| old(self)@.contains(x) ==> final(self)@.contains(x)
                },
                Err(e) => {
                    &&& e == WireSyncError::AlreadyExists
                    &&& contains_id(old(self)@, id_of(rec))
                    &&& final(self)@ == old(self)@
                },
            },
    {
        let ghost id = id_of(rec);
        let n = self.records.len();
        let mut pos: usize = 0;
        while pos < n && id_lt_exec(
            &self.records[pos].endpoint,
            self.records[pos].control_port,
            &rec.endpoint,
            rec.control_port,
        )
            invariant
                id == id_of(rec),
                n == self@.len(),
                pos <= n,
                forall|j: int| 0 <= j < pos ==> id_lt(id_of(#[trigger] self@[j]), id),
            decreases n - pos,
        {
            pos = pos + 1;
        }
        if pos < n {
            let cur = &self.records[pos];
            if id_eq_exec(&cur.endpoint, cur.control_port, &rec.endpoint, rec.control_port) {
                proof {
                    lemma_contains_id_witness(self@, id, pos as int);
                }
                return Err(WireSyncError::AlreadyExists);
            }
        }
        proof {
            // At `pos` and beyond, every identity is strictly greater.
            assert forall|j: int| pos <= j < n implies id_lt(id, id_of(#[trigger] self@[j])) by {
                lemma_id_lt_total(id, id_of(self@[pos as int]));
                lemma_id_lt_irrefl(id);
                if j > pos {
                    lemma_id_lt_trans(id, id_of(self@[pos as int]), id_of(self@[j]));
                }
            }
            // So the identity is not yet present.
            lemma_find_id_props(old(self)@, id);
            if contains_id(old(self)@, id) {
                let f = find_id(old(self)@, id);
                lemma_id_lt_irrefl(id);
            }
        }
        let ghost pre = self@;
        self.records.insert(pos, rec);
        proof {
            assert(self@ == pre.insert(pos as int, rec));
            assert(self@[pos as int] == rec);
            assert(self@.contains(rec));
            lemma_contains_id_witness(self@, id, pos as int);
            assert forall|i: int, j: int|
                0 <= i < j < self@.len() implies id_lt(
                id_of(#[trigger] self@[i]),
                id_of(#[trigger] self@[j]),
            ) by {
                if i < pos && j == pos {
                } else if i == pos && j > pos {
                } else if i < pos && j > pos {
                    lemma_id_lt_trans(id_of(pre[i]), id, id_of(pre[j - 1]));
                }
            }
            assert forall|x: ServerData| pre.contains(x) implies self@.contains(x) by {
                let w = choose|w: int| 0 <= w < pre.len() && pre[w] == x;
                if w < pos {
                    assert(self@[w] == x);
                } else {
                    assert(self@[w + 1] == x);
                }
            }
        }
        Ok(())
    }

    /// Rewrites the mutable attributes of the record with the given
    /// identity, leaving identity and overlay address untouched.
    ///
    /// Fails with `NotFound`, leaving the registry unchanged, exactly when
    /// the identity is not registered.
    pub fn update(
        &mut self,
        endpoint: &String,
        control_port: u16,
        wireguard_port: u16,
        key_material: String,
        nic_name: String,
    ) -> (r: Result<(), WireSyncError>)
        requires
            registry_wf(old(self)@),
            crate::text::safe_text(nic_name@),
        ensures
            registry_wf(final(self)@),
            match r {
                Ok(()) => {
                    &&& contains_id(old(self)@, (endpoint@, control_port))
                    &&& final(self)@ == old(self)@.update(
                        find_id(old(self)@, (endpoint@, control_port)),
                        ServerData {
                            endpoint: old(self)@[find_id(old(self)@, (endpoint@, control_port))].endpoint,
                            control_port: old(self)@[find_id(old(self)@, (endpoint@, control_port))].control_port,
                            wireguard_port,
                            nic_name,
                            key_material,
                            overlay_ip: old(self)@[find_id(old(self)@, (endpoint@, control_port))].overlay_ip,
                        },
                    )
                },
                Err(e) => {
                    &&& e == WireSyncError::NotFound
                    &&& !contains_id(old(self)@, (endpoint@, control_port))
                    &&& final(self)@ == old(self)@
                },
            },
    {
        let ghost id = (endpoint@, control_port);
        let ix = match self.find_index(endpoint, control_port) {
            Some(i) => i,
            None => {
                return Err(WireSyncError::NotFound);
            },
        };
        proof {
            lemma_contains_id_witness(self@, id, ix as int);
        }
        let old_rec = &self.records[ix];
        let updated = ServerData {
            endpoint: old_rec.endpoint.clone(),
            control_port: old_rec.control_port,
            wireguard_port,
            nic_name,
            key_material,
            overlay_ip: old_rec.overlay_ip,
        };
        let ghost pre = self@;
        self.records.set(ix, updated);
        proof {
            assert(id_of(self@[ix as int]) == id_of(pre[ix as int]));
            assert forall|i: int, j: int|
                0 <= i < j < self@.len() implies id_lt(
                id_of(#[trigger] self@[i]),
                id_of(#[trigger] self@[j]),
            ) by {
                assert(id_of(pre[i]) == id_of(self@[i]));
                assert(id_of(pre[j]) == id_of(self@[j]));
            }
        }
        Ok(())
    }

    /// Removes the record with the given identity.
    ///
    /// Fails with `NotFound`, leaving the registry unchanged, exactly when
    /// the identity is not registered.  On success no record with the
    /// identity remains.
    pub fn delete(&mut self, endpoint: &String, control_port: u16) -> (r: Result<
        (),
        WireSyncError,
    >)
        requires
            registry_wf(old(self)@),
        ensures
            registry_wf(final(self)@),
            match r {
                Ok(()) => {
                    &&& contains_id(old(self)@, (endpoint@, control_port))
                    &&& final(self)@ == old(self)@.remove(find_id(old(self)@, (endpoint@, control_port)))
                    &&& final(self)@.len() == old(self)@.len() - 1
                    &&& forall|i: int|
                        0 <= i < final(self)@.len() ==> id_of(#[trigger] final(self)@[i]) != (
                        endpoint@,
                        control_port,
                        )
                },
                Err(e) => {
                    &&& e == WireSyncError::NotFound
                    &&& !contains_id(old(self)@, (endpoint@, control_port))
                    &&& final(self)@ == old(self)@
                },
            },
    {
        let ghost id = (endpoint@, control_port);
        let ix = match self.find_index(endpoint, control_port) {
            Some(i) => i,
            None => {
                return Err(WireSyncError::NotFound);
            },
        };
        proof {
            lemma_contains_id_witness(self@, id, ix as int);
            lemma_find_id_props(self@, id);
        }
        let ghost pre = self@;
        self.records.remove(ix);
        proof {
            assert(self@ == pre.remove(ix as int));
            assert forall|i: int| 0 <= i < self@.len() implies id_of(#[trigger] self@[i]) != id by {
                if i < ix {
                    assert(self@[i] == pre[i]);
                } else {
                    assert(self@[i] == pre[i + 1]);
                    assert(id_lt(id_of(pre[ix as int]), id_of(pre[i + 1])));
                    lemma_id_lt_irrefl(id);
                }
            }
            assert forall|i: int, j: int|
                0 <= i < j < self@.len() implies id_lt(
                id_of(#[trigger] self@[i]),
                id_of(#[trigger] self@[j]),
            ) by {
                if j < ix {
                } else if i < ix {
                    assert(self@[j] == pre[j + 1]);
                } else {
                    assert(self@[i] == pre[i + 1]);
                    assert(self@[j] == pre[j + 1]);
                }
            }
        }
        Ok(())
    }
}

/// Identity uniqueness: a snapshot that results from registering a
/// record contains that record's identity, so `create` must take its
/// `AlreadyExists` branch for a second registration of the same
/// identity, leaving the registry unchanged.
pub proof fn lemma_identity_uniqueness(pre: Seq<ServerData>, p: int, rec: ServerData)
    requires
        0 <= p <= pre.len(),
    ensures
        contains_id(pre.insert(p, rec), id_of(rec)),
{
    pre.insert_ensures(p, rec);
    assert(pre.insert(p, rec)[p] == rec);
    lemma_contains_id_witness(pre.insert(p, rec), id_of(rec), p);
}

} // verus!
