//! The peer record and the total order on peer identities.
//!
//! A peer is identified by its `(endpoint, control_port)` pair.  Records are
//! kept sorted by that identity so that neighbour lists, and therefore
//! rendered configuration text, are deterministic.

use vstd::prelude::*;
use crate::text::safe_text;

verus! {

/// One registered peer.
#[derive(Debug)]
pub struct ServerData {
    /// Reachable host name or address; part of the identity key.
    pub endpoint: String,
    /// Port of the peer's control-plane agent; part of the identity key.
    pub control_port: u16,
    /// Port the peer's tunnel listens on.
    pub wireguard_port: u16,
    /// Egress interface name used in the peer's own NAT rules.
    pub nic_name: String,
    /// Secret supplied by the peer; only its derived public key is ever
    /// shared with other peers.
    pub key_material: String,
    /// Address assigned inside the overlay subnet, as a 32-bit value.
    pub overlay_ip: u32,
}

/// The identity key of a record.
pub open spec fn id_of(r: ServerData) -> (Seq<char>, u16) {
    (r.endpoint@, r.control_port)
}

/// The string fields that reach rendered configuration text are
/// embeddable in it.  Key material is exempt: it is only ever input to
/// the external derivation primitive and never rendered.
pub open spec fn rec_safe(r: ServerData) -> bool {
    &&& safe_text(r.endpoint@)
    &&& safe_text(r.nic_name@)
}

impl ServerData {
    /// An exact copy of the record.
    pub fn duplicate(&self) -> (r: ServerData)
        ensures
            r == *self,
    {
        ServerData {
            endpoint: self.endpoint.clone(),
            control_port: self.control_port,
            wireguard_port: self.wireguard_port,
            nic_name: self.nic_name.clone(),
            key_material: self.key_material.clone(),
            overlay_ip: self.overlay_ip,
        }
    }
}

/// The index of the first record at or after `from` whose identity is
/// `id`, or -1 when there is none.
pub open spec fn find_id_from(recs: Seq<ServerData>, id: (Seq<char>, u16), from: int) -> int
    decreases recs.len() - from,
{
    if from < 0 || from >= recs.len() {
        -1
    } else if id_of(recs[from]) == id {
        from
    } else {
        find_id_from(recs, id, from + 1)
    }
}

/// The index of the first record with identity `id`, or -1.
pub open spec fn find_id(recs: Seq<ServerData>, id: (Seq<char>, u16)) -> int {
    find_id_from(recs, id, 0)
}

/// Some record carries identity `id`.
pub open spec fn contains_id(recs: Seq<ServerData>, id: (Seq<char>, u16)) -> bool {
    find_id(recs, id) >= 0
}

/// What `find_id_from` returns: a hit is the first one, and a miss means
/// no record from `from` on has the identity.
pub proof fn lemma_find_id_from_props(recs: Seq<ServerData>, id: (Seq<char>, u16), from: int)
    requires
        0 <= from <= recs.len(),
    ensures
        find_id_from(recs, id, from) == -1 ==> forall|j: int|
            from <= j < recs.len() ==> id_of(#[trigger] recs[j]) != id,
        find_id_from(recs, id, from) != -1 ==> {
            let r = find_id_from(recs, id, from);
            &&& from <= r < recs.len()
            &&& id_of(recs[r]) == id
            &&& forall|j: int| from <= j < r ==> id_of(#[trigger] recs[j]) != id
        },
    decreases recs.len() - from,
{
    if from < recs.len() && id_of(recs[from]) != id {
        lemma_find_id_from_props(recs, id, from + 1);
    }
}

/// What `find_id` returns, at the start of the sequence.
pub proof fn lemma_find_id_props(recs: Seq<ServerData>, id: (Seq<char>, u16))
    ensures
        find_id(recs, id) == -1 ==> forall|j: int|
            0 <= j < recs.len() ==> id_of(#[trigger] recs[j]) != id,
        find_id(recs, id) != -1 ==> {
            let r = find_id(recs, id);
            &&& 0 <= r < recs.len()
            &&& id_of(recs[r]) == id
            &&& forall|j: int| 0 <= j < r ==> id_of(#[trigger] recs[j]) != id
        },
{
    lemma_find_id_from_props(recs, id, 0);
}

/// Strict lexicographic order on character sequences, by code point.
pub open spec fn seq_lt(a: Seq<char>, b: Seq<char>) -> bool
    decreases a.len(),
{
    if b.len() == 0 {
        false
    } else if a.len() == 0 {
        true
    } else if (a[0] as u32) < (b[0] as u32) {
        true
    } else if (a[0] as u32) > (b[0] as u32) {
        false
    } else {
        seq_lt(a.skip(1), b.skip(1))
    }
}

/// Strict order on identities: by endpoint, then by control port.
pub open spec fn id_lt(a: (Seq<char>, u16), b: (Seq<char>, u16)) -> bool {
    seq_lt(a.0, b.0) || (a.0 == b.0 && a.1 < b.1)
}

/// Two characters with the same code point are the same character.
pub proof fn lemma_char_injective(c1: char, c2: char)
    requires
        c1 as u32 == c2 as u32,
    ensures
        c1 == c2,
{
    vstd::utf8::char_u32_cast(c1, c1 as u32);
    vstd::utf8::char_u32_cast(c2, c2 as u32);
}

pub proof fn lemma_seq_lt_irrefl(a: Seq<char>)
    ensures
        !seq_lt(a, a),
    decreases a.len(),
{
    if a.len() > 0 {
        lemma_seq_lt_irrefl(a.skip(1));
    }
}

pub proof fn lemma_seq_lt_total(a: Seq<char>, b: Seq<char>)
    ensures
        seq_lt(a, b) || seq_lt(b, a) || a == b,
    decreases a.len(),
{
    if a.len() == 0 && b.len() == 0 {
        assert(a =~= b);
    } else if a.len() > 0 && b.len() > 0 {
        if (a[0] as u32) == (b[0] as u32) {
            lemma_char_injective(a[0], b[0]);
            lemma_seq_lt_total(a.skip(1), b.skip(1));
            if a.skip(1) == b.skip(1) {
                assert(a.skip(1).len() == a.len() - 1);
                assert(b.skip(1).len() == b.len() - 1);
                assert forall|i: int| 0 <= i < a.len() implies a[i] == b[i] by {
                    if i >= 1 {
                        assert(a.skip(1)[i - 1] == a[i]);
                        assert(b.skip(1)[i - 1] == b[i]);
                    }
                }
                assert(a =~= b);
            }
        }
    }
}

pub proof fn lemma_seq_lt_trans(a: Seq<char>, b: Seq<char>, c: Seq<char>)
    requires
        seq_lt(a, b),
        seq_lt(b, c),
    ensures
        seq_lt(a, c),
    decreases a.len() + b.len() + c.len(),
{
    if a.len() > 0 && b.len() > 0 && c.len() > 0 {
        if (a[0] as u32) == (b[0] as u32) && (b[0] as u32) == (c[0] as u32) {
            lemma_seq_lt_trans(a.skip(1), b.skip(1), c.skip(1));
        }
    }
}

/// If two sequences agree on a common prefix, their order is decided by
/// what follows it.
pub proof fn lemma_seq_lt_common_prefix(a: Seq<char>, b: Seq<char>, k: int)
    requires
        0 <= k <= a.len(),
        k <= b.len(),
        forall|j: int| 0 <= j < k ==> a[j] == b[j],
    ensures
        seq_lt(a, b) == seq_lt(a.skip(k), b.skip(k)),
    decreases k,
{
    if k == 0 {
        assert(a.skip(0) =~= a);
        assert(b.skip(0) =~= b);
    } else {
        assert(a[0] == b[0]);
        lemma_seq_lt_common_prefix(a.skip(1), b.skip(1), k - 1);
        assert(a.skip(1).skip(k - 1) =~= a.skip(k));
        assert(b.skip(1).skip(k - 1) =~= b.skip(k));
    }
}

pub proof fn lemma_id_lt_irrefl(a: (Seq<char>, u16))
    ensures
        !id_lt(a, a),
{
    lemma_seq_lt_irrefl(a.0);
}

pub proof fn lemma_id_lt_total(a: (Seq<char>, u16), b: (Seq<char>, u16))
    ensures
        id_lt(a, b) || id_lt(b, a) || a == b,
{
    lemma_seq_lt_total(a.0, b.0);
    lemma_seq_lt_irrefl(a.0);
}

pub proof fn lemma_id_lt_trans(a: (Seq<char>, u16), b: (Seq<char>, u16), c: (Seq<char>, u16))
    requires
        id_lt(a, b),
        id_lt(b, c),
    ensures
        id_lt(a, c),
{
    if seq_lt(a.0, b.0) && seq_lt(b.0, c.0) {
        lemma_seq_lt_trans(a.0, b.0, c.0);
    }
}

/// Decides the lexicographic order on two strings.
pub fn str_lt(a: &str, b: &str) -> (r: bool)
    ensures
        r == seq_lt(a@, b@),
{
    let alen = a.unicode_len();
    let blen = b.unicode_len();
    let min: usize = if alen < blen {
        alen
    } else {
        blen
    };
    let mut i: usize = 0;
    while i < min
        invariant
            alen == a@.len(),
            blen == b@.len(),
            min <= alen,
            min <= blen,
            i <= min,
            forall|j: int| 0 <= j < i ==> a@[j] == b@[j],
        decreases min - i,
    {
        let ca = a.get_char(i);
        let cb = b.get_char(i);
        if (ca as u32) < (cb as u32) {
            proof {
                lemma_seq_lt_common_prefix(a@, b@, i as int);
            }
            return true;
        }
        if (ca as u32) > (cb as u32) {
            proof {
                lemma_seq_lt_common_prefix(a@, b@, i as int);
            }
            return false;
        }
        proof {
            lemma_char_injective(ca, cb);
        }
        i = i + 1;
    }
    proof {
        lemma_seq_lt_common_prefix(a@, b@, min as int);
    }
    alen < blen
}

/// Decides the strict identity order.
pub fn id_lt_exec(a_ep: &String, a_port: u16, b_ep: &String, b_port: u16) -> (r: bool)
    ensures
        r == id_lt((a_ep@, a_port), (b_ep@, b_port)),
{
    if str_lt(a_ep.as_str(), b_ep.as_str()) {
        true
    } else if a_ep.eq(b_ep) {
        a_port < b_port
    } else {
        false
    }
}

/// Decides identity equality.
pub fn id_eq_exec(a_ep: &String, a_port: u16, b_ep: &String, b_port: u16) -> (r: bool)
    ensures
        r == ((a_ep@, a_port) == (b_ep@, b_port)),
{
    let r = a_ep.eq(b_ep) && a_port == b_port;
    proof {
        if a_ep@ == b_ep@ && a_port == b_port {
            assert((a_ep@, a_port) == (b_ep@, b_port));
        }
    }
    r
}

} // verus!
