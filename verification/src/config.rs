//! The configuration synthesizer: renders the tunnel configuration text
//! for one peer from its own record and the records of the other peers.
//!
//! Key derivation is an external primitive, so rendering takes the derived
//! public keys as an argument: one key per record, in record order.  The
//! text is specified exactly, character for character, so that two renders
//! over the same snapshot are provably identical.

use vstd::prelude::*;
use crate::errors::WireSyncError;
use crate::record::{ServerData, contains_id, find_id, id_of, lemma_find_id_props, id_eq_exec};
use crate::text::{
    dec_rep, format_ipv4, ipv4_rep, is_safe_text, safe_text, u32_to_dec,
};

verus! {

/// The `[Interface]` section for a peer's own configuration.  The
/// `PrivateKey` line carries a fixed placeholder: key material is input
/// to the external derivation primitive only and is never rendered.
pub open spec fn interface_text(addr: u32, port: u16, nic: Seq<char>) -> Seq<char> {
    "[Interface]\nAddress = "@ + ipv4_rep(addr) + "\nPrivateKey = [KEY_MATERIAL]\nListenPort = "@
        + dec_rep(port as nat)
        + "\nPostUp = iptables -A FORWARD -i wg0 -j ACCEPT; iptables -t nat -A POSTROUTING -o "@
        + nic
        + " -j MASQUERADE\nPostDown = iptables -D FORWARD -i wg0 -j ACCEPT; iptables -t nat -D POSTROUTING -o "@
        + nic + " -j MASQUERADE\n"@
}

/// One `[Peer]` section: endpoint, derived public key, host route and
/// keepalive.
pub open spec fn peer_text(endpoint: Seq<char>, wg_port: u16, pubkey: Seq<char>, addr: u32) -> Seq<
    char,
> {
    "[Peer]\nEndpoint = "@ + endpoint + ":"@ + dec_rep(wg_port as nat) + "\nPublicKey = "@ + pubkey
        + "\nAllowedIPs = "@ + ipv4_rep(addr) + "/32\nPersistentKeepalive = 25\n"@
}

/// Renders the `[Interface]` section, rejecting an interface name that
/// would corrupt the text format.  The peer substitutes its own private
/// key for the placeholder locally; no key material passes through here.
pub fn interface_config_factory(in_wg_ip: u32, port: u16, nic_name: &String) -> (r: Result<
    String,
    WireSyncError,
>)
    ensures
        r matches Ok(t) ==> safe_text(nic_name@) && t@ == interface_text(
            in_wg_ip,
            port,
            nic_name@,
        ),
        r matches Err(e) ==> e == WireSyncError::ValidationError && !safe_text(nic_name@),
{
    if !is_safe_text(nic_name.as_str()) {
        return Err(WireSyncError::ValidationError);
    }
    let mut s = String::from_str("[Interface]\nAddress = ");
    let a = format_ipv4(in_wg_ip);
    s.append(a.as_str());
    s.append("\nPrivateKey = [KEY_MATERIAL]\nListenPort = ");
    let p = u32_to_dec(port as u32);
    s.append(p.as_str());
    s.append("\nPostUp = iptables -A FORWARD -i wg0 -j ACCEPT; iptables -t nat -A POSTROUTING -o ");
    s.append(nic_name.as_str());
    s.append(
        " -j MASQUERADE\nPostDown = iptables -D FORWARD -i wg0 -j ACCEPT; iptables -t nat -D POSTROUTING -o ",
    );
    s.append(nic_name.as_str());
    s.append(" -j MASQUERADE\n");
    proof {
        assert(s@ =~= interface_text(in_wg_ip, port, nic_name@));
    }
    Ok(s)
}

/// Renders one `[Peer]` section from another peer's public data and its
/// derived public key, rejecting an endpoint that would corrupt the text
/// format.  The raw key material never appears here: the caller supplies
/// the public key obtained from the external derivation primitive.
pub fn peer_config_factory(endpoint: &String, wireguard_port: u16, public_key: &String, in_wg_ip: u32)
    -> (r: Result<String, WireSyncError>)
    ensures
        r matches Ok(t) ==> safe_text(endpoint@) && t@ == peer_text(
            endpoint@,
            wireguard_port,
            public_key@,
            in_wg_ip,
        ),
        r matches Err(e) ==> e == WireSyncError::ValidationError && !safe_text(endpoint@),
{
    if !is_safe_text(endpoint.as_str()) {
        return Err(WireSyncError::ValidationError);
    }
    let mut s = String::from_str("[Peer]\nEndpoint = ");
    s.append(endpoint.as_str());
    s.append(":");
    let p = u32_to_dec(wireguard_port as u32);
    s.append(p.as_str());
    s.append("\nPublicKey = ");
    s.append(public_key.as_str());
    s.append("\nAllowedIPs = ");
    let a = format_ipv4(in_wg_ip);
    s.append(a.as_str());
    s.append("/32\nPersistentKeepalive = 25\n");
    proof {
        assert(s@ =~= peer_text(endpoint@, wireguard_port, public_key@, in_wg_ip));
    }
    Ok(s)
}

/// The `[Peer]` section generated from one record and its derived key.
pub open spec fn peer_block(r: ServerData, key: Seq<char>) -> Seq<char> {
    peer_text(r.endpoint@, r.wireguard_port, key, r.overlay_ip)
}

/// The sequence of `[Peer]` sections a viewer with identity `id` sees:
/// one per record other than its own, in record order, each paired with
/// the derived key at the same position.
pub open spec fn peer_block_seq(
    recs: Seq<ServerData>,
    keys: Seq<Seq<char>>,
    id: (Seq<char>, u16),
) -> Seq<Seq<char>>
    decreases recs.len(),
{
    if recs.len() == 0 {
        Seq::empty()
    } else {
        let rest = peer_block_seq(recs.drop_last(), keys, id);
        let k = if recs.len() - 1 < keys.len() {
            keys[recs.len() - 1]
        } else {
            Seq::empty()
        };
        if id_of(recs.last()) == id {
            rest
        } else {
            rest.push(peer_block(recs.last(), k))
        }
    }
}

/// The concatenation of a sequence of sections.
pub open spec fn cat_blocks(bs: Seq<Seq<char>>) -> Seq<char>
    decreases bs.len(),
{
    if bs.len() == 0 {
        Seq::empty()
    } else {
        cat_blocks(bs.drop_last()) + bs.last()
    }
}

/// Rendering for `id` succeeds: the identity is registered, there is one
/// derived key per record, and every embedded field is format-safe.
pub open spec fn render_ok(recs: Seq<ServerData>, keys: Seq<Seq<char>>, id: (Seq<char>, u16)) -> bool {
    &&& contains_id(recs, id)
    &&& keys.len() == recs.len()
    &&& safe_text(recs[find_id(recs, id)].nic_name@)
    &&& forall|i: int|
        0 <= i < recs.len() && id_of(#[trigger] recs[i]) != id ==> safe_text(recs[i].endpoint@)
}

/// The full configuration text for the viewer `id`: its own `[Interface]`
/// section followed by one `[Peer]` section per other record, in record
/// order.
pub open spec fn config_text_spec(
    recs: Seq<ServerData>,
    keys: Seq<Seq<char>>,
    id: (Seq<char>, u16),
) -> Seq<char> {
    let i = find_id(recs, id);
    interface_text(recs[i].overlay_ip, recs[i].wireguard_port, recs[i].nic_name@) + cat_blocks(
        peer_block_seq(recs, keys, id),
    )
}

/// Renders the full configuration text for the peer identified by
/// `(endpoint, control_port)` over a snapshot of records and the derived
/// public keys, one per record.
///
/// Fails with `NotFound` when the identity is not registered, with
/// `KeyDerivationError` when the key table does not supply one key per
/// record, and with `ValidationError` when an embedded field would corrupt
/// the text.
pub fn config_text_factory(
    recs: &Vec<ServerData>,
    keys: &Vec<String>,
    endpoint: &String,
    control_port: u16,
) -> (r: Result<String, WireSyncError>)
    ensures
        (r is Ok) == render_ok(recs@, keys.deep_view(), (endpoint@, control_port)),
        r matches Ok(t) ==> t@ == config_text_spec(recs@, keys.deep_view(), (endpoint@, control_port)),
        (r == Err::<String, WireSyncError>(WireSyncError::NotFound)) == !contains_id(
            recs@,
            (endpoint@, control_port),
        ),
        contains_id(recs@, (endpoint@, control_port)) && keys@.len() != recs@.len() ==> r == Err::<
            String,
            WireSyncError,
        >(WireSyncError::KeyDerivationError),
        contains_id(recs@, (endpoint@, control_port)) && keys@.len() == recs@.len() && !render_ok(
            recs@,
            keys.deep_view(),
            (endpoint@, control_port),
        ) ==> r == Err::<String, WireSyncError>(WireSyncError::ValidationError),
{
    let ghost id = (endpoint@, control_port);
    proof {
        assert(keys.deep_view().len() == keys@.len());
        assert(forall|j: int|
            0 <= j < keys@.len() ==> #[trigger] keys.deep_view()[j] == keys@[j]@);
    }
    let n = recs.len();
    let mut idx: usize = 0;
    let mut found = false;
    while idx < n && !found
        invariant
            id == (endpoint@, control_port),
            n == recs@.len(),
            idx <= n,
            !found ==> find_id(recs@, id) == crate::record::find_id_from(recs@, id, idx as int),
            found ==> idx < n && find_id(recs@, id) == idx as int && id_of(recs@[idx as int]) == id,
        decreases n - idx + (if found { 0int } else { 1int }),
    {
        let cur = &recs[idx];
        if id_eq_exec(&cur.endpoint, cur.control_port, endpoint, control_port) {
            proof {
                assert(id_of(recs@[idx as int]) == id);
                assert(crate::record::find_id_from(recs@, id, idx as int) == idx as int);
            }
            found = true;
        } else {
            proof {
                assert(id_of(recs@[idx as int]) != id);
                assert(crate::record::find_id_from(recs@, id, idx as int)
                    == crate::record::find_id_from(recs@, id, idx as int + 1));
            }
            idx = idx + 1;
        }
    }
    if !found {
        proof {
            lemma_find_id_props(recs@, id);
        }
        return Err(WireSyncError::NotFound);
    }
    if keys.len() != n {
        return Err(WireSyncError::KeyDerivationError);
    }
    let me = &recs[idx];
    let mut s = match interface_config_factory(me.overlay_ip, me.wireguard_port, &me.nic_name) {
        Ok(t) => t,
        Err(e) => {
            return Err(e);
        },
    };
    let mut i: usize = 0;
    while i < n
        invariant
            id == (endpoint@, control_port),
            n == recs@.len(),
            n == keys@.len(),
            keys.deep_view().len() == keys@.len(),
            forall|j: int| 0 <= j < keys@.len() ==> #[trigger] keys.deep_view()[j] == keys@[j]@,
            0 <= find_id(recs@, id) < n,
            id_of(recs@[find_id(recs@, id)]) == id,
            safe_text(recs@[find_id(recs@, id)].nic_name@),
            i <= n,
            forall|j: int|
                0 <= j < i && id_of(#[trigger] recs@[j]) != id ==> safe_text(recs@[j].endpoint@),
            s@ == interface_text(
                recs@[find_id(recs@, id)].overlay_ip,
                recs@[find_id(recs@, id)].wireguard_port,
                recs@[find_id(recs@, id)].nic_name@,
            ) + cat_blocks(peer_block_seq(recs@.take(i as int), keys.deep_view(), id)),
        decreases n - i,
    {
        let ghost pre_blocks = peer_block_seq(recs@.take(i as int), keys.deep_view(), id);
        let cur = &recs[i];
        if !id_eq_exec(&cur.endpoint, cur.control_port, endpoint, control_port) {
            let b = match peer_config_factory(
                &cur.endpoint,
                cur.wireguard_port,
                &keys[i],
                cur.overlay_ip,
            ) {
                Ok(t) => t,
                Err(e) => {
                    return Err(e);
                },
            };
            s.append(b.as_str());
            proof {
                let tk = recs@.take(i as int + 1);
                assert(tk.drop_last() =~= recs@.take(i as int));
                assert(tk.last() == recs@[i as int]);
                let nb = peer_block_seq(tk, keys.deep_view(), id);
                assert(nb == pre_blocks.push(peer_block(recs@[i as int], keys.deep_view()[i as int])));
                assert(nb.drop_last() =~= pre_blocks);
                assert(cat_blocks(nb) == cat_blocks(pre_blocks) + peer_block(
                    recs@[i as int],
                    keys.deep_view()[i as int],
                ));
            }
        } else {
            proof {
                let tk = recs@.take(i as int + 1);
                assert(tk.drop_last() =~= recs@.take(i as int));
                assert(tk.last() == recs@[i as int]);
                assert(peer_block_seq(tk, keys.deep_view(), id) == pre_blocks);
            }
        }
        i = i + 1;
    }
    proof {
        assert(recs@.take(n as int) =~= recs@);
    }
    Ok(s)
}

/// Render determinism: the rendered text is a function of the record
/// snapshot, the key table and the viewer alone, so two renders over an
/// unchanged snapshot are identical, in peer-section order and content
/// alike.
pub proof fn lemma_render_deterministic(
    recs: Seq<ServerData>,
    keys: Seq<Seq<char>>,
    id: (Seq<char>, u16),
    t1: Seq<char>,
    t2: Seq<char>,
)
    requires
        t1 == config_text_spec(recs, keys, id),
        t2 == config_text_spec(recs, keys, id),
    ensures
        t1 == t2,
{
}

/// Propagation completeness, render side: every record other than the
/// viewer's own contributes its `[Peer]` section to the rendered section
/// sequence as one contiguous piece of the concatenation, preceded by
/// exactly the sections of the records before it.
pub proof fn lemma_render_includes_peer(
    recs: Seq<ServerData>,
    keys: Seq<Seq<char>>,
    id: (Seq<char>, u16),
    i: int,
)
    requires
        0 <= i < recs.len(),
        i < keys.len(),
        id_of(recs[i]) != id,
    ensures
        cat_blocks(peer_block_seq(recs, keys, id)) == cat_blocks(
            peer_block_seq(recs.take(i), keys, id),
        ) + peer_block(recs[i], keys[i]) + cat_blocks(
            peer_block_seq(recs.skip(i + 1), keys.skip(i + 1), id),
        ),
    decreases recs.len(),
{
    let n = recs.len() as int;
    let whole = peer_block_seq(recs, keys, id);
    if i == n - 1 {
        assert(recs.drop_last() =~= recs.take(i));
        assert(recs.skip(i + 1) =~= Seq::<ServerData>::empty());
        assert(whole == peer_block_seq(recs.take(i), keys, id).push(peer_block(recs[i], keys[i])));
        assert(whole.drop_last() =~= peer_block_seq(recs.take(i), keys, id));
        assert(cat_blocks(whole) == cat_blocks(peer_block_seq(recs.take(i), keys, id))
            + peer_block(recs[i], keys[i]));
        assert(cat_blocks(peer_block_seq(recs.skip(i + 1), keys.skip(i + 1), id))
            == Seq::<char>::empty());
        assert(cat_blocks(whole) =~= cat_blocks(peer_block_seq(recs.take(i), keys, id))
            + peer_block(recs[i], keys[i]) + cat_blocks(
            peer_block_seq(recs.skip(i + 1), keys.skip(i + 1), id),
        ));
    } else {
        let front = recs.drop_last();
        lemma_render_includes_peer(front, keys, id, i);
        assert(front.take(i) =~= recs.take(i));
        let sfx = recs.skip(i + 1);
        let ks = keys.skip(i + 1);
        assert(sfx.len() == n - i - 1);
        assert(sfx.drop_last() =~= front.skip(i + 1));
        assert(sfx.last() == recs.last());
        // The key paired with the final record is the same whether it is
        // indexed in the whole table or in the suffix.
        assert(n - 1 < keys.len() ==> ks[sfx.len() - 1] == keys[n - 1]);
        if id_of(recs.last()) == id {
            assert(whole == peer_block_seq(front, keys, id));
            assert(peer_block_seq(sfx, ks, id) == peer_block_seq(front.skip(i + 1), ks, id));
            assert(cat_blocks(whole) =~= cat_blocks(peer_block_seq(recs.take(i), keys, id))
                + peer_block(recs[i], keys[i]) + cat_blocks(peer_block_seq(sfx, ks, id)));
        } else {
            let k = if n - 1 < keys.len() {
                keys[n - 1]
            } else {
                Seq::<char>::empty()
            };
            let b = peer_block(recs.last(), k);
            assert(whole == peer_block_seq(front, keys, id).push(b));
            assert(whole.drop_last() =~= peer_block_seq(front, keys, id));
            assert(cat_blocks(whole) == cat_blocks(peer_block_seq(front, keys, id)) + b);
            assert(peer_block_seq(sfx, ks, id) == peer_block_seq(front.skip(i + 1), ks, id).push(
                b,
            ));
            assert(peer_block_seq(sfx, ks, id).drop_last() =~= peer_block_seq(
                front.skip(i + 1),
                ks,
                id,
            ));
            assert(cat_blocks(peer_block_seq(sfx, ks, id)) == cat_blocks(
                peer_block_seq(front.skip(i + 1), ks, id),
            ) + b);
            assert(cat_blocks(whole) =~= cat_blocks(peer_block_seq(recs.take(i), keys, id))
                + peer_block(recs[i], keys[i]) + cat_blocks(peer_block_seq(sfx, ks, id)));
        }
    }
}

/// Deletion consistency, render side: every rendered `[Peer]` section
/// comes from some record of the snapshot other than the viewer's own.
/// After a deletion no record with the deleted identity remains, so no
/// section can speak of it.
pub proof fn lemma_blocks_from_records(
    recs: Seq<ServerData>,
    keys: Seq<Seq<char>>,
    id: (Seq<char>, u16),
    j: int,
)
    requires
        0 <= j < peer_block_seq(recs, keys, id).len(),
    ensures
        exists|i: int|
            0 <= i < recs.len() && id_of(#[trigger] recs[i]) != id && peer_block_seq(
                recs,
                keys,
                id,
            )[j] == peer_block(
                recs[i],
                if i < keys.len() {
                    keys[i]
                } else {
                    Seq::<char>::empty()
                },
            ),
    decreases recs.len(),
{
    let whole = peer_block_seq(recs, keys, id);
    let n = recs.len() as int;
    let front = recs.drop_last();
    let rest = peer_block_seq(front, keys, id);
    if id_of(recs.last()) == id {
        lemma_blocks_from_records(front, keys, id, j);
        let i0 = choose|i: int|
            0 <= i < front.len() && id_of(#[trigger] front[i]) != id && rest[j] == peer_block(
                front[i],
                if i < keys.len() {
                    keys[i]
                } else {
                    Seq::<char>::empty()
                },
            );
        assert(recs[i0] == front[i0]);
    } else {
        if j < rest.len() {
            lemma_blocks_from_records(front, keys, id, j);
            let i0 = choose|i: int|
                0 <= i < front.len() && id_of(#[trigger] front[i]) != id && rest[j] == peer_block(
                    front[i],
                    if i < keys.len() {
                        keys[i]
                    } else {
                        Seq::<char>::empty()
                    },
                );
            assert(recs[i0] == front[i0]);
            assert(whole[j] == rest[j]);
        } else {
            assert(j == rest.len());
            assert(recs[n - 1] == recs.last());
        }
    }
}

/// Propagation completeness, whole-text form: when the snapshot holds a
/// newly registered record at position `i` and the viewer is another
/// peer, the viewer's full rendered configuration is exactly its own
/// `[Interface]` section, the blocks of the records before `i`, the new
/// record's `[Peer]` block, and the blocks of the records after `i` —
/// so the fresh configuration pushed to every existing peer names the
/// new one.
pub proof fn lemma_propagation_completeness(
    recs: Seq<ServerData>,
    keys: Seq<Seq<char>>,
    viewer: (Seq<char>, u16),
    i: int,
)
    requires
        contains_id(recs, viewer),
        0 <= i < recs.len(),
        i < keys.len(),
        id_of(recs[i]) != viewer,
    ensures
        config_text_spec(recs, keys, viewer) == interface_text(
            recs[find_id(recs, viewer)].overlay_ip,
            recs[find_id(recs, viewer)].wireguard_port,
            recs[find_id(recs, viewer)].nic_name@,
        ) + cat_blocks(peer_block_seq(recs.take(i), keys, viewer)) + peer_block(recs[i], keys[i])
            + cat_blocks(peer_block_seq(recs.skip(i + 1), keys.skip(i + 1), viewer)),
{
    lemma_render_includes_peer(recs, keys, viewer, i);
    let ix = find_id(recs, viewer);
    let head = interface_text(recs[ix].overlay_ip, recs[ix].wireguard_port, recs[ix].nic_name@);
    assert(head + (cat_blocks(peer_block_seq(recs.take(i), keys, viewer)) + peer_block(
        recs[i],
        keys[i],
    ) + cat_blocks(peer_block_seq(recs.skip(i + 1), keys.skip(i + 1), viewer))) =~= head
        + cat_blocks(peer_block_seq(recs.take(i), keys, viewer)) + peer_block(recs[i], keys[i])
        + cat_blocks(peer_block_seq(recs.skip(i + 1), keys.skip(i + 1), viewer)));
}

/// Deletion consistency, whole-snapshot form: when no record of the
/// snapshot carries the deleted identity, every `[Peer]` block of any
/// viewer's render comes from a record whose identity is not the deleted
/// one — the deleted peer can no longer be named.
pub proof fn lemma_deletion_consistency(
    recs: Seq<ServerData>,
    keys: Seq<Seq<char>>,
    viewer: (Seq<char>, u16),
    gone: (Seq<char>, u16),
    j: int,
)
    requires
        forall|i: int| 0 <= i < recs.len() ==> id_of(#[trigger] recs[i]) != gone,
        0 <= j < peer_block_seq(recs, keys, viewer).len(),
    ensures
        exists|i: int|
            0 <= i < recs.len() && id_of(#[trigger] recs[i]) != gone && id_of(recs[i]) != viewer
                && peer_block_seq(recs, keys, viewer)[j] == peer_block(
                recs[i],
                if i < keys.len() {
                    keys[i]
                } else {
                    Seq::<char>::empty()
                },
            ),
{
    lemma_blocks_from_records(recs, keys, viewer, j);
    let i0 = choose|i: int|
        0 <= i < recs.len() && id_of(#[trigger] recs[i]) != viewer && peer_block_seq(
            recs,
            keys,
            viewer,
        )[j] == peer_block(
            recs[i],
            if i < keys.len() {
                keys[i]
            } else {
                Seq::<char>::empty()
            },
        );
    assert(id_of(recs[i0]) != gone);
}

} // verus!

