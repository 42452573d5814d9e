//! The wire encoding of the protocol messages: a fixed, self-describing
//! binary format with explicit little-endian lengths and discriminants and
//! no implicit padding.
//!
//! Integers travel as little-endian bytes (counts and ids as eight bytes,
//! enum discriminants as four, coordinates as four in two's complement),
//! strings as a byte count followed by their UTF-8 bytes, lists as an
//! element count followed by the elements in order.  Encoding and decoding
//! are written against the same specification functions, and the decoders
//! are proved to invert the encoders exactly.

use crate::signals::{
    AssetData, AssetId, Auth, AuthV, Authorized, AuthorizedV, ClientUpdate, ClientUpdateV, Entity,
    EntityId, PlayerSignal, Position, Tile,
};
use vstd::bytes::{
    spec_u32_from_le_bytes, spec_u32_to_le_bytes, spec_u64_from_le_bytes, spec_u64_to_le_bytes,
    u32_from_le_bytes, u32_to_le_bytes, u64_from_le_bytes, u64_to_le_bytes,
};
use vstd::prelude::*;
use vstd::slice::{slice_subrange, slice_to_vec};

verus! {

/// Eight little-endian bytes of a count or id.
pub open spec fn enc_u64(x: u64) -> Seq<u8> {
    spec_u64_to_le_bytes(x)
}

/// Four little-endian bytes of an enum discriminant.
pub open spec fn enc_u32(x: u32) -> Seq<u8> {
    spec_u32_to_le_bytes(x)
}

/// Four little-endian bytes of a coordinate, two's complement.
pub open spec fn enc_i32(x: i32) -> Seq<u8> {
    spec_u32_to_le_bytes(x as u32)
}

/// A byte blob: its length, then its bytes.
pub open spec fn enc_bytes(b: Seq<u8>) -> Seq<u8> {
    enc_u64(b.len() as u64) + b
}

/// A string: its UTF-8 byte count, then its UTF-8 bytes.
pub open spec fn enc_str(s: Seq<char>) -> Seq<u8> {
    enc_bytes(vstd::utf8::encode_utf8(s))
}

/// The result of reading a value at position `i`: the value and the
/// position just past it.
pub open spec fn dec_u64(s: Seq<u8>, i: int) -> Option<(u64, int)> {
    if 0 <= i && i + 8 <= s.len() {
        Some((spec_u64_from_le_bytes(s.subrange(i, i + 8)), i + 8))
    } else {
        None
    }
}

pub open spec fn dec_u32(s: Seq<u8>, i: int) -> Option<(u32, int)> {
    if 0 <= i && i + 4 <= s.len() {
        Some((spec_u32_from_le_bytes(s.subrange(i, i + 4)), i + 4))
    } else {
        None
    }
}

pub open spec fn dec_i32(s: Seq<u8>, i: int) -> Option<(i32, int)> {
    match dec_u32(s, i) {
        Some((b, j)) => Some((b as i32, j)),
        None => None,
    }
}

/// A count that must also fit the machine's word, so that what it counts
/// can be held.
pub open spec fn dec_usize(s: Seq<u8>, i: int) -> Option<(usize, int)> {
    match dec_u64(s, i) {
        Some((x, j)) => if x <= usize::MAX as u64 {
            Some((x as usize, j))
        } else {
            None
        },
        None => None,
    }
}

pub open spec fn dec_bytes(s: Seq<u8>, i: int) -> Option<(Seq<u8>, int)> {
    match dec_usize(s, i) {
        Some((n, j)) => if j + n <= s.len() {
            Some((s.subrange(j, j + n), j + n))
        } else {
            None
        },
        None => None,
    }
}

pub open spec fn dec_str(s: Seq<u8>, i: int) -> Option<(Seq<char>, int)> {
    match dec_bytes(s, i) {
        Some((b, j)) => if vstd::utf8::valid_utf8(b) {
            Some((vstd::utf8::decode_utf8(b), j))
        } else {
            None
        },
        None => None,
    }
}

/// Decoding inverts encoding for counts and ids, at any position of any
/// buffer that carries the encoding there.
pub proof fn lemma_dec_enc_u64(x: u64, s: Seq<u8>, i: int)
    requires
        0 <= i,
        i + 8 <= s.len(),
        s.subrange(i, i + 8) == enc_u64(x),
    ensures
        dec_u64(s, i) == Some((x, i + 8)),
{
    vstd::bytes::lemma_auto_spec_u64_to_from_le_bytes();
}

pub proof fn lemma_dec_enc_u32(x: u32, s: Seq<u8>, i: int)
    requires
        0 <= i,
        i + 4 <= s.len(),
        s.subrange(i, i + 4) == enc_u32(x),
    ensures
        dec_u32(s, i) == Some((x, i + 4)),
{
    vstd::bytes::lemma_auto_spec_u32_to_from_le_bytes();
    assert(spec_u32_to_le_bytes(x).len() == 4);
    assert(spec_u32_from_le_bytes(spec_u32_to_le_bytes(x)) == x);
}

pub proof fn lemma_dec_enc_i32(x: i32, s: Seq<u8>, i: int)
    requires
        0 <= i,
        i + 4 <= s.len(),
        s.subrange(i, i + 4) == enc_i32(x),
    ensures
        dec_i32(s, i) == Some((x, i + 4)),
{
    lemma_dec_enc_u32(x as u32, s, i);
    assert((x as u32) as i32 == x) by (bit_vector);
}

/// The length of an encoded count; named so the composition lemmas can
/// speak of offsets.
pub proof fn lemma_enc_u64_len(x: u64)
    ensures
        enc_u64(x).len() == 8,
{
    vstd::bytes::lemma_auto_spec_u64_to_from_le_bytes();
}

pub proof fn lemma_enc_u32_len(x: u32)
    ensures
        enc_u32(x).len() == 4,
{
    vstd::bytes::lemma_auto_spec_u32_to_from_le_bytes();
}

pub proof fn lemma_dec_enc_usize(x: usize, s: Seq<u8>, i: int)
    requires
        0 <= i,
        i + 8 <= s.len(),
        s.subrange(i, i + 8) == enc_u64(x as u64),
    ensures
        dec_usize(s, i) == Some((x, i + 8)),
{
    lemma_dec_enc_u64(x as u64, s, i);
}

pub proof fn lemma_dec_enc_bytes(b: Seq<u8>, s: Seq<u8>, i: int)
    requires
        0 <= i,
        b.len() <= usize::MAX,
        i + enc_bytes(b).len() <= s.len(),
        s.subrange(i, i + enc_bytes(b).len()) == enc_bytes(b),
    ensures
        dec_bytes(s, i) == Some((b, i + enc_bytes(b).len())),
{
    lemma_enc_u64_len(b.len() as u64);
    let e = enc_bytes(b);
    assert(e.subrange(0, 8) =~= enc_u64(b.len() as u64));
    assert(s.subrange(i, i + 8) =~= e.subrange(0, 8));
    lemma_dec_enc_usize(b.len() as usize, s, i);
    assert(s.subrange(i + 8, i + 8 + b.len() as int) =~= e.subrange(8, 8 + b.len() as int));
    assert(e.subrange(8, 8 + b.len() as int) =~= b);
}

pub proof fn lemma_dec_enc_str(c: Seq<char>, s: Seq<u8>, i: int)
    requires
        0 <= i,
        vstd::utf8::encode_utf8(c).len() <= usize::MAX,
        i + enc_str(c).len() <= s.len(),
        s.subrange(i, i + enc_str(c).len()) == enc_str(c),
    ensures
        dec_str(s, i) == Some((c, i + enc_str(c).len())),
{
    let b = vstd::utf8::encode_utf8(c);
    lemma_dec_enc_bytes(b, s, i);
    vstd::utf8::encode_utf8_valid_utf8(c);
    vstd::utf8::encode_utf8_decode_utf8(c);
}

} // verus!

verus! {

/// One transferred asset: its id, then its blob.
pub open spec fn enc_asset_entry(a: (AssetId, Seq<u8>)) -> Seq<u8> {
    enc_u64(a.0.0 as u64) + enc_bytes(a.1)
}

/// One snapshot cell: its coordinate, then its tile.
pub open spec fn enc_pos_tile(e: (Position, Tile)) -> Seq<u8> {
    enc_i32(e.0.x) + enc_i32(e.0.y) + enc_u64(e.1.asset_id.0 as u64)
}

/// One snapshot entity: its id, its asset, its coordinate.
pub open spec fn enc_entity_entry(e: (EntityId, Entity)) -> Seq<u8> {
    enc_u64(e.0.0 as u64) + enc_u64(e.1.asset_id.0 as u64) + enc_i32(e.1.pos.x) + enc_i32(
        e.1.pos.y,
    )
}

pub open spec fn cat_assets(s: Seq<(AssetId, Seq<u8>)>) -> Seq<u8>
    decreases s.len(),
{
    if s.len() == 0 {
        Seq::empty()
    } else {
        cat_assets(s.drop_last()) + enc_asset_entry(s.last())
    }
}

pub open spec fn cat_pos_tiles(s: Seq<(Position, Tile)>) -> Seq<u8>
    decreases s.len(),
{
    if s.len() == 0 {
        Seq::empty()
    } else {
        cat_pos_tiles(s.drop_last()) + enc_pos_tile(s.last())
    }
}

pub open spec fn cat_entity_entries(s: Seq<(EntityId, Entity)>) -> Seq<u8>
    decreases s.len(),
{
    if s.len() == 0 {
        Seq::empty()
    } else {
        cat_entity_entries(s.drop_last()) + enc_entity_entry(s.last())
    }
}

pub open spec fn dec_asset_entry(s: Seq<u8>, i: int) -> Option<((AssetId, Seq<u8>), int)> {
    match dec_usize(s, i) {
        Some((id, j)) => match dec_bytes(s, j) {
            Some((b, k)) => Some(((AssetId(id), b), k)),
            None => None,
        },
        None => None,
    }
}

pub open spec fn dec_pos_tile(s: Seq<u8>, i: int) -> Option<((Position, Tile), int)> {
    match dec_i32(s, i) {
        Some((x, j)) => match dec_i32(s, j) {
            Some((y, k)) => match dec_usize(s, k) {
                Some((a, m)) => Some(
                    ((Position { x, y }, Tile { asset_id: AssetId(a) }), m),
                ),
                None => None,
            },
            None => None,
        },
        None => None,
    }
}

pub open spec fn dec_entity_entry(s: Seq<u8>, i: int) -> Option<((EntityId, Entity), int)> {
    match dec_usize(s, i) {
        Some((id, j)) => match dec_usize(s, j) {
            Some((a, k)) => match dec_i32(s, k) {
                Some((x, m)) => match dec_i32(s, m) {
                    Some((y, n)) => Some(
                        (
                            (
                                EntityId(id),
                                Entity { asset_id: AssetId(a), pos: Position { x, y } },
                            ),
                            n,
                        ),
                    ),
                    None => None,
                },
                None => None,
            },
            None => None,
        },
        None => None,
    }
}

pub open spec fn dec_assets(s: Seq<u8>, i: int, n: nat) -> Option<(Seq<(AssetId, Seq<u8>)>, int)>
    decreases n,
{
    if n == 0 {
        Some((Seq::empty(), i))
    } else {
        match dec_asset_entry(s, i) {
            Some((v, j)) => match dec_assets(s, j, (n - 1) as nat) {
                Some((vs, k)) => Some((vs.insert(0, v), k)),
                None => None,
            },
            None => None,
        }
    }
}

pub open spec fn dec_pos_tiles(s: Seq<u8>, i: int, n: nat) -> Option<(Seq<(Position, Tile)>, int)>
    decreases n,
{
    if n == 0 {
        Some((Seq::empty(), i))
    } else {
        match dec_pos_tile(s, i) {
            Some((v, j)) => match dec_pos_tiles(s, j, (n - 1) as nat) {
                Some((vs, k)) => Some((vs.insert(0, v), k)),
                None => None,
            },
            None => None,
        }
    }
}

pub open spec fn dec_entity_entries(s: Seq<u8>, i: int, n: nat) -> Option<
    (Seq<(EntityId, Entity)>, int),
>
    decreases n,
{
    if n == 0 {
        Some((Seq::empty(), i))
    } else {
        match dec_entity_entry(s, i) {
            Some((v, j)) => match dec_entity_entries(s, j, (n - 1) as nat) {
                Some((vs, k)) => Some((vs.insert(0, v), k)),
                None => None,
            },
            None => None,
        }
    }
}

/// The whole snapshot: four counted lists in a fixed order.
pub open spec fn enc_update(u: ClientUpdateV) -> Seq<u8> {
    enc_u64(u.assets.len() as u64) + cat_assets(u.assets) + enc_u64(u.floors.len() as u64)
        + cat_pos_tiles(u.floors) + enc_u64(u.walls.len() as u64) + cat_pos_tiles(u.walls)
        + enc_u64(u.entities.len() as u64) + cat_entity_entries(u.entities)
}

pub open spec fn dec_update(s: Seq<u8>, i: int) -> Option<(ClientUpdateV, int)> {
    match dec_usize(s, i) {
        Some((na, i1)) => match dec_assets(s, i1, na as nat) {
            Some((assets, i2)) => match dec_usize(s, i2) {
                Some((nf, i3)) => match dec_pos_tiles(s, i3, nf as nat) {
                    Some((floors, i4)) => match dec_usize(s, i4) {
                        Some((nw, i5)) => match dec_pos_tiles(s, i5, nw as nat) {
                            Some((walls, i6)) => match dec_usize(s, i6) {
                                Some((ne, i7)) => match dec_entity_entries(s, i7, ne as nat) {
                                    Some((entities, i8)) => Some(
                                        (ClientUpdateV { assets, floors, walls, entities }, i8),
                                    ),
                                    None => None,
                                },
                                None => None,
                            },
                            None => None,
                        },
                        None => None,
                    },
                    None => None,
                },
                None => None,
            },
            None => None,
        },
        None => None,
    }
}

pub open spec fn enc_auth(a: AuthV) -> Seq<u8> {
    enc_str(a.username)
}

pub open spec fn dec_auth(s: Seq<u8>, i: int) -> Option<(AuthV, int)> {
    match dec_str(s, i) {
        Some((u, j)) => Some((AuthV { username: u }, j)),
        None => None,
    }
}

pub open spec fn enc_authorized(a: AuthorizedV) -> Seq<u8> {
    enc_u64(a.player_entity_id.0 as u64) + enc_update(a.update)
}

pub open spec fn dec_authorized(s: Seq<u8>, i: int) -> Option<(AuthorizedV, int)> {
    match dec_usize(s, i) {
        Some((id, j)) => match dec_update(s, j) {
            Some((u, k)) => Some((AuthorizedV { player_entity_id: EntityId(id), update: u }, k)),
            None => None,
        },
        None => None,
    }
}

pub open spec fn enc_signal(sig: PlayerSignal) -> Seq<u8> {
    match sig {
        PlayerSignal::ReloadServer => enc_u32(0),
    }
}

pub open spec fn dec_signal(s: Seq<u8>, i: int) -> Option<(PlayerSignal, int)> {
    match dec_u32(s, i) {
        Some((d, j)) => if d == 0 {
            Some((PlayerSignal::ReloadServer, j))
        } else {
            None
        },
        None => None,
    }
}

/// A snapshot value the encoding can carry: every count and blob fits the
/// machine's word.
pub open spec fn update_wf(u: ClientUpdateV) -> bool {
    &&& u.assets.len() <= usize::MAX
    &&& u.floors.len() <= usize::MAX
    &&& u.walls.len() <= usize::MAX
    &&& u.entities.len() <= usize::MAX
    &&& forall|k: int| 0 <= k < u.assets.len() ==> (#[trigger] u.assets[k]).1.len() <= usize::MAX
}

/// An authentication value the encoding can carry.
pub open spec fn auth_wf(a: AuthV) -> bool {
    vstd::utf8::encode_utf8(a.username).len() <= usize::MAX
}

} // verus!

verus! {

broadcast use vstd::seq_lib::group_seq_lib_default, vstd::seq::group_seq_axioms;

proof fn lemma_cat_assets_first(s: Seq<(AssetId, Seq<u8>)>)
    requires
        s.len() > 0,
    ensures
        cat_assets(s) == enc_asset_entry(s[0]) + cat_assets(s.drop_first()),
    decreases s.len(),
{
    if s.len() == 1 {
        assert(s.drop_last() =~= Seq::<(AssetId, Seq<u8>)>::empty());
        assert(s.drop_first() =~= Seq::<(AssetId, Seq<u8>)>::empty());
        assert(cat_assets(s) =~= enc_asset_entry(s[0]) + cat_assets(s.drop_first()));
    } else {
        lemma_cat_assets_first(s.drop_last());
        assert(s.drop_last().drop_first() =~= s.drop_first().drop_last());
        assert(s.drop_last()[0] == s[0]);
        assert(s.drop_first().last() == s.last());
        assert(cat_assets(s) == (enc_asset_entry(s[0]) + cat_assets(s.drop_first().drop_last()))
            + enc_asset_entry(s.last()));
        assert((enc_asset_entry(s[0]) + cat_assets(s.drop_first().drop_last()))
            + enc_asset_entry(s.last()) =~= enc_asset_entry(s[0]) + (cat_assets(
            s.drop_first().drop_last()) + enc_asset_entry(s.drop_first().last())));
    }
}

proof fn lemma_cat_pos_tiles_first(s: Seq<(Position, Tile)>)
    requires
        s.len() > 0,
    ensures
        cat_pos_tiles(s) == enc_pos_tile(s[0]) + cat_pos_tiles(s.drop_first()),
    decreases s.len(),
{
    if s.len() == 1 {
        assert(s.drop_last() =~= Seq::<(Position, Tile)>::empty());
        assert(s.drop_first() =~= Seq::<(Position, Tile)>::empty());
        assert(cat_pos_tiles(s) =~= enc_pos_tile(s[0]) + cat_pos_tiles(s.drop_first()));
    } else {
        lemma_cat_pos_tiles_first(s.drop_last());
        assert(s.drop_last().drop_first() =~= s.drop_first().drop_last());
        assert(s.drop_last()[0] == s[0]);
        assert(s.drop_first().last() == s.last());
        assert(cat_pos_tiles(s) == (enc_pos_tile(s[0]) + cat_pos_tiles(
            s.drop_first().drop_last())) + enc_pos_tile(s.last()));
        assert((enc_pos_tile(s[0]) + cat_pos_tiles(s.drop_first().drop_last())) + enc_pos_tile(
            s.last()) =~= enc_pos_tile(s[0]) + (cat_pos_tiles(s.drop_first().drop_last())
            + enc_pos_tile(s.drop_first().last())));
    }
}

proof fn lemma_cat_entity_entries_first(s: Seq<(EntityId, Entity)>)
    requires
        s.len() > 0,
    ensures
        cat_entity_entries(s) == enc_entity_entry(s[0]) + cat_entity_entries(s.drop_first()),
    decreases s.len(),
{
    if s.len() == 1 {
        assert(s.drop_last() =~= Seq::<(EntityId, Entity)>::empty());
        assert(s.drop_first() =~= Seq::<(EntityId, Entity)>::empty());
        assert(cat_entity_entries(s) =~= enc_entity_entry(s[0]) + cat_entity_entries(
            s.drop_first()));
    } else {
        lemma_cat_entity_entries_first(s.drop_last());
        assert(s.drop_last().drop_first() =~= s.drop_first().drop_last());
        assert(s.drop_last()[0] == s[0]);
        assert(s.drop_first().last() == s.last());
        assert(cat_entity_entries(s) == (enc_entity_entry(s[0]) + cat_entity_entries(
            s.drop_first().drop_last())) + enc_entity_entry(s.last()));
        assert((enc_entity_entry(s[0]) + cat_entity_entries(s.drop_first().drop_last()))
            + enc_entity_entry(s.last()) =~= enc_entity_entry(s[0]) + (cat_entity_entries(
            s.drop_first().drop_last()) + enc_entity_entry(s.drop_first().last())));
    }
}

proof fn lemma_dec_enc_asset_entry(v: (AssetId, Seq<u8>), s: Seq<u8>, i: int)
    requires
        0 <= i,
        v.1.len() <= usize::MAX,
        i + enc_asset_entry(v).len() <= s.len(),
        s.subrange(i, i + enc_asset_entry(v).len()) == enc_asset_entry(v),
    ensures
        dec_asset_entry(s, i) == Some((v, i + enc_asset_entry(v).len())),
{
    let e = enc_asset_entry(v);
    assert forall|m: int| i <= m < i + e.len() implies s[m] == e[m - i] by {
        assert(s.subrange(i, i + e.len() as int)[m - i] == e[m - i]);
    }
    lemma_enc_u64_len(v.0.0 as u64);
    lemma_enc_u64_len(v.1.len() as u64);
    assert(s.subrange(i, i + 8) =~= enc_u64(v.0.0 as u64));
    lemma_dec_enc_usize(v.0.0, s, i);
    assert(s.subrange(i + 8, i + e.len() as int) =~= enc_bytes(v.1));
    lemma_dec_enc_bytes(v.1, s, i + 8);
}

proof fn lemma_dec_enc_pos_tile(v: (Position, Tile), s: Seq<u8>, i: int)
    requires
        0 <= i,
        i + enc_pos_tile(v).len() <= s.len(),
        s.subrange(i, i + enc_pos_tile(v).len()) == enc_pos_tile(v),
    ensures
        dec_pos_tile(s, i) == Some((v, i + enc_pos_tile(v).len())),
{
    let e = enc_pos_tile(v);
    assert forall|m: int| i <= m < i + e.len() implies s[m] == e[m - i] by {
        assert(s.subrange(i, i + e.len() as int)[m - i] == e[m - i]);
    }
    lemma_enc_u32_len(v.0.x as u32);
    lemma_enc_u32_len(v.0.y as u32);
    lemma_enc_u64_len(v.1.asset_id.0 as u64);
    assert(s.subrange(i, i + 4) =~= enc_i32(v.0.x));
    lemma_dec_enc_i32(v.0.x, s, i);
    assert(s.subrange(i + 4, i + 8) =~= enc_i32(v.0.y));
    lemma_dec_enc_i32(v.0.y, s, i + 4);
    assert(s.subrange(i + 8, i + 16) =~= enc_u64(v.1.asset_id.0 as u64));
    lemma_dec_enc_usize(v.1.asset_id.0, s, i + 8);
}

proof fn lemma_dec_enc_entity_entry(v: (EntityId, Entity), s: Seq<u8>, i: int)
    requires
        0 <= i,
        i + enc_entity_entry(v).len() <= s.len(),
        s.subrange(i, i + enc_entity_entry(v).len()) == enc_entity_entry(v),
    ensures
        dec_entity_entry(s, i) == Some((v, i + enc_entity_entry(v).len())),
{
    let e = enc_entity_entry(v);
    assert forall|m: int| i <= m < i + e.len() implies s[m] == e[m - i] by {
        assert(s.subrange(i, i + e.len() as int)[m - i] == e[m - i]);
    }
    lemma_enc_u64_len(v.0.0 as u64);
    lemma_enc_u64_len(v.1.asset_id.0 as u64);
    lemma_enc_u32_len(v.1.pos.x as u32);
    lemma_enc_u32_len(v.1.pos.y as u32);
    assert(s.subrange(i, i + 8) =~= enc_u64(v.0.0 as u64));
    lemma_dec_enc_usize(v.0.0, s, i);
    assert(s.subrange(i + 8, i + 16) =~= enc_u64(v.1.asset_id.0 as u64));
    lemma_dec_enc_usize(v.1.asset_id.0, s, i + 8);
    assert(s.subrange(i + 16, i + 20) =~= enc_i32(v.1.pos.x));
    lemma_dec_enc_i32(v.1.pos.x, s, i + 16);
    assert(s.subrange(i + 20, i + 24) =~= enc_i32(v.1.pos.y));
    lemma_dec_enc_i32(v.1.pos.y, s, i + 20);
}

proof fn lemma_dec_cat_assets(elems: Seq<(AssetId, Seq<u8>)>, s: Seq<u8>, i: int)
    requires
        0 <= i,
        forall|k: int| 0 <= k < elems.len() ==> (#[trigger] elems[k]).1.len() <= usize::MAX,
        i + cat_assets(elems).len() <= s.len(),
        s.subrange(i, i + cat_assets(elems).len()) == cat_assets(elems),
    ensures
        dec_assets(s, i, elems.len()) == Some((elems, i + cat_assets(elems).len())),
    decreases elems.len(),
{
    if elems.len() == 0 {
        assert(elems =~= Seq::<(AssetId, Seq<u8>)>::empty());
    } else {
        lemma_cat_assets_first(elems);
        let whole = cat_assets(elems);
        assert forall|m: int| i <= m < i + whole.len() implies s[m] == whole[m - i] by {
            assert(s.subrange(i, i + whole.len() as int)[m - i] == whole[m - i]);
        }
        let e0 = enc_asset_entry(elems[0]);
        let rest = elems.drop_first();
        assert(s.subrange(i, i + e0.len() as int) =~= e0);
        lemma_dec_enc_asset_entry(elems[0], s, i);
        let j = i + e0.len() as int;
        assert(s.subrange(j, j + cat_assets(rest).len() as int) =~= cat_assets(rest));
        assert forall|k: int| 0 <= k < rest.len() implies (#[trigger] rest[k]).1.len()
            <= usize::MAX by {
            assert(rest[k] == elems[k + 1]);
        }
        lemma_dec_cat_assets(rest, s, j);
        assert(rest.insert(0, elems[0]) =~= elems);
    }
}

proof fn lemma_dec_cat_pos_tiles(elems: Seq<(Position, Tile)>, s: Seq<u8>, i: int)
    requires
        0 <= i,
        i + cat_pos_tiles(elems).len() <= s.len(),
        s.subrange(i, i + cat_pos_tiles(elems).len()) == cat_pos_tiles(elems),
    ensures
        dec_pos_tiles(s, i, elems.len()) == Some((elems, i + cat_pos_tiles(elems).len())),
    decreases elems.len(),
{
    if elems.len() == 0 {
        assert(elems =~= Seq::<(Position, Tile)>::empty());
    } else {
        lemma_cat_pos_tiles_first(elems);
        let whole = cat_pos_tiles(elems);
        assert forall|m: int| i <= m < i + whole.len() implies s[m] == whole[m - i] by {
            assert(s.subrange(i, i + whole.len() as int)[m - i] == whole[m - i]);
        }
        let e0 = enc_pos_tile(elems[0]);
        let rest = elems.drop_first();
        assert(s.subrange(i, i + e0.len() as int) =~= e0);
        lemma_dec_enc_pos_tile(elems[0], s, i);
        let j = i + e0.len() as int;
        assert(s.subrange(j, j + cat_pos_tiles(rest).len() as int) =~= cat_pos_tiles(rest));
        lemma_dec_cat_pos_tiles(rest, s, j);
        assert(rest.insert(0, elems[0]) =~= elems);
    }
}

proof fn lemma_dec_cat_entity_entries(elems: Seq<(EntityId, Entity)>, s: Seq<u8>, i: int)
    requires
        0 <= i,
        i + cat_entity_entries(elems).len() <= s.len(),
        s.subrange(i, i + cat_entity_entries(elems).len()) == cat_entity_entries(elems),
    ensures
        dec_entity_entries(s, i, elems.len()) == Some(
            (elems, i + cat_entity_entries(elems).len()),
        ),
    decreases elems.len(),
{
    if elems.len() == 0 {
        assert(elems =~= Seq::<(EntityId, Entity)>::empty());
    } else {
        lemma_cat_entity_entries_first(elems);
        let whole = cat_entity_entries(elems);
        assert forall|m: int| i <= m < i + whole.len() implies s[m] == whole[m - i] by {
            assert(s.subrange(i, i + whole.len() as int)[m - i] == whole[m - i]);
        }
        let e0 = enc_entity_entry(elems[0]);
        let rest = elems.drop_first();
        assert(s.subrange(i, i + e0.len() as int) =~= e0);
        lemma_dec_enc_entity_entry(elems[0], s, i);
        let j = i + e0.len() as int;
        assert(s.subrange(j, j + cat_entity_entries(rest).len() as int) =~= cat_entity_entries(
            rest));
        lemma_dec_cat_entity_entries(rest, s, j);
        assert(rest.insert(0, elems[0]) =~= elems);
    }
}

} // verus!

verus! {

/// Round trip of the handshake message: decoding an encoded `Auth` at any
/// position of any buffer that carries it yields the original value and
/// consumes exactly its encoding.
pub proof fn lemma_auth_round_trip(m: AuthV, s: Seq<u8>, i: int)
    requires
        0 <= i,
        auth_wf(m),
        i + enc_auth(m).len() <= s.len(),
        s.subrange(i, i + enc_auth(m).len()) == enc_auth(m),
    ensures
        dec_auth(s, i) == Some((m, i + enc_auth(m).len())),
{
    lemma_dec_enc_str(m.username, s, i);
}

/// Round trip of an inbound player command.
pub proof fn lemma_signal_round_trip(m: PlayerSignal, s: Seq<u8>, i: int)
    requires
        0 <= i,
        i + enc_signal(m).len() <= s.len(),
        s.subrange(i, i + enc_signal(m).len()) == enc_signal(m),
    ensures
        dec_signal(s, i) == Some((m, i + enc_signal(m).len())),
{
    match m {
        PlayerSignal::ReloadServer => {
            lemma_enc_u32_len(0);
            lemma_dec_enc_u32(0, s, i);
        },
    }
}

/// Round trip of a full world snapshot.
#[verifier::spinoff_prover]
#[verifier::rlimit(80)]
pub proof fn lemma_update_round_trip(u: ClientUpdateV, s: Seq<u8>, i: int)
    requires
        0 <= i,
        update_wf(u),
        i + enc_update(u).len() <= s.len(),
        s.subrange(i, i + enc_update(u).len()) == enc_update(u),
    ensures
        dec_update(s, i) == Some((u, i + enc_update(u).len())),
{
    let e = enc_update(u);
    assert forall|m: int| i <= m < i + e.len() implies s[m] == e[m - i] by {
        assert(s.subrange(i, i + e.len() as int)[m - i] == e[m - i]);
    }
    lemma_enc_u64_len(u.assets.len() as u64);
    lemma_enc_u64_len(u.floors.len() as u64);
    lemma_enc_u64_len(u.walls.len() as u64);
    lemma_enc_u64_len(u.entities.len() as u64);
    let la = cat_assets(u.assets).len() as int;
    let lf = cat_pos_tiles(u.floors).len() as int;
    let lw = cat_pos_tiles(u.walls).len() as int;
    let le = cat_entity_entries(u.entities).len() as int;
    let i1 = i + 8;
    let i2 = i1 + la;
    let i3 = i2 + 8;
    let i4 = i3 + lf;
    let i5 = i4 + 8;
    let i6 = i5 + lw;
    let i7 = i6 + 8;
    let i8 = i7 + le;
    assert(s.subrange(i, i1) =~= enc_u64(u.assets.len() as u64));
    lemma_dec_enc_usize(u.assets.len() as usize, s, i);
    assert(s.subrange(i1, i2) =~= cat_assets(u.assets));
    lemma_dec_cat_assets(u.assets, s, i1);
    assert(s.subrange(i2, i3) =~= enc_u64(u.floors.len() as u64));
    lemma_dec_enc_usize(u.floors.len() as usize, s, i2);
    assert(s.subrange(i3, i4) =~= cat_pos_tiles(u.floors));
    lemma_dec_cat_pos_tiles(u.floors, s, i3);
    assert(s.subrange(i4, i5) =~= enc_u64(u.walls.len() as u64));
    lemma_dec_enc_usize(u.walls.len() as usize, s, i4);
    assert(s.subrange(i5, i6) =~= cat_pos_tiles(u.walls));
    lemma_dec_cat_pos_tiles(u.walls, s, i5);
    assert(s.subrange(i6, i7) =~= enc_u64(u.entities.len() as u64));
    lemma_dec_enc_usize(u.entities.len() as usize, s, i6);
    assert(s.subrange(i7, i8) =~= cat_entity_entries(u.entities));
    lemma_dec_cat_entity_entries(u.entities, s, i7);
}

/// Round trip of the authorization answer.
pub proof fn lemma_authorized_round_trip(a: AuthorizedV, s: Seq<u8>, i: int)
    requires
        0 <= i,
        update_wf(a.update),
        i + enc_authorized(a).len() <= s.len(),
        s.subrange(i, i + enc_authorized(a).len()) == enc_authorized(a),
    ensures
        dec_authorized(s, i) == Some((a, i + enc_authorized(a).len())),
{
    let e = enc_authorized(a);
    assert forall|m: int| i <= m < i + e.len() implies s[m] == e[m - i] by {
        assert(s.subrange(i, i + e.len() as int)[m - i] == e[m - i]);
    }
    lemma_enc_u64_len(a.player_entity_id.0 as u64);
    assert(s.subrange(i, i + 8) =~= enc_u64(a.player_entity_id.0 as u64));
    lemma_dec_enc_usize(a.player_entity_id.0, s, i);
    assert(s.subrange(i + 8, i + 8 + enc_update(a.update).len() as int) =~= enc_update(a.update));
    lemma_update_round_trip(a.update, s, i + 8);
}

} // verus!

verus! {

/// Relies on `String::from_utf8`: it returns `Ok` exactly when the bytes
/// are valid UTF-8, and the returned string holds those bytes; with vstd's
/// model of strings its characters are then their decoding.
#[verifier::external_body]
fn string_from_utf8(v: Vec<u8>) -> (r: Option<String>)
    ensures
        r is Some <==> vstd::utf8::valid_utf8(v@),
        r matches Some(s) ==> s@ == vstd::utf8::decode_utf8(v@),
{
    match String::from_utf8(v) {
        Ok(s) => Some(s),
        Err(_) => None,
    }
}

fn write_u64(out: &mut Vec<u8>, x: u64)
    ensures
        final(out)@ == old(out)@ + enc_u64(x),
{
    let mut b = u64_to_le_bytes(x);
    out.append(&mut b);
}

fn write_u32(out: &mut Vec<u8>, x: u32)
    ensures
        final(out)@ == old(out)@ + enc_u32(x),
{
    let mut b = u32_to_le_bytes(x);
    out.append(&mut b);
}

fn write_i32(out: &mut Vec<u8>, x: i32)
    ensures
        final(out)@ == old(out)@ + enc_i32(x),
{
    write_u32(out, #[verifier::truncate] (x as u32));
}

fn write_bytes(out: &mut Vec<u8>, b: &Vec<u8>)
    ensures
        final(out)@ == old(out)@ + enc_bytes(b@),
        b@.len() <= usize::MAX,
{
    write_u64(out, b.len() as u64);
    let mut c = slice_to_vec(b.as_slice());
    out.append(&mut c);
    proof {
        assert(final(out)@ =~= old(out)@ + enc_bytes(b@));
    }
}

fn write_str(out: &mut Vec<u8>, s: &String)
    ensures
        final(out)@ == old(out)@ + enc_str(s@),
        vstd::utf8::encode_utf8(s@).len() <= usize::MAX,
{
    let bytes = slice_to_vec(s.as_str().as_bytes());
    write_u64(out, bytes.len() as u64);
    let mut c = bytes;
    out.append(&mut c);
    proof {
        assert(final(out)@ =~= old(out)@ + enc_str(s@));
    }
}

/// Encodes the handshake message.
pub fn encode_auth(m: &Auth) -> (r: Vec<u8>)
    ensures
        r@ == enc_auth(m@),
        auth_wf(m@),
{
    let mut out: Vec<u8> = Vec::new();
    write_str(&mut out, &m.username);
    proof {
        assert(out@ =~= enc_auth(m@));
    }
    out
}

/// Encodes an inbound player command.
pub fn encode_signal(m: &PlayerSignal) -> (r: Vec<u8>)
    ensures
        r@ == enc_signal(*m),
{
    let mut out: Vec<u8> = Vec::new();
    match m {
        PlayerSignal::ReloadServer => write_u32(&mut out, 0),
    }
    proof {
        assert(out@ =~= enc_signal(*m));
    }
    out
}

/// Encodes a full world snapshot.
pub fn encode_update(m: &ClientUpdate) -> (r: Vec<u8>)
    ensures
        r@ == enc_update(m@),
        update_wf(m@),
{
    let mut out: Vec<u8> = Vec::new();
    write_u64(&mut out, m.assets.len() as u64);
    let ghost base_a = out@;
    let mut i: usize = 0;
    while i < m.assets.len()
        invariant
            i <= m.assets@.len(),
            out@ == base_a + cat_assets(m@.assets.take(i as int)),
            forall|k: int| 0 <= k < i ==> (#[trigger] m@.assets[k]).1.len() <= usize::MAX,
            base_a == enc_u64(m.assets@.len() as u64),
        decreases m.assets@.len() - i,
    {
        let entry = &m.assets[i];
        write_u64(&mut out, entry.0.0 as u64);
        write_bytes(&mut out, &entry.1);
        proof {
            assert(m@.assets[i as int] == (m.assets@[i as int].0, m.assets@[i as int].1@));
            assert(m@.assets.take(i as int + 1).drop_last() =~= m@.assets.take(i as int));
            assert(m@.assets.take(i as int + 1).last() == m@.assets[i as int]);
            assert(out@ =~= base_a + cat_assets(m@.assets.take(i as int + 1)));
        }
        i = i + 1;
    }
    proof {
        assert(m@.assets.take(m.assets@.len() as int) =~= m@.assets);
    }
    write_u64(&mut out, m.floors.len() as u64);
    let ghost base_f = out@;
    let mut i: usize = 0;
    while i < m.floors.len()
        invariant
            i <= m.floors@.len(),
            out@ == base_f + cat_pos_tiles(m@.floors.take(i as int)),
        decreases m.floors@.len() - i,
    {
        let entry = &m.floors[i];
        write_i32(&mut out, entry.0.x);
        write_i32(&mut out, entry.0.y);
        write_u64(&mut out, entry.1.asset_id.0 as u64);
        proof {
            assert(m@.floors.take(i as int + 1).drop_last() =~= m@.floors.take(i as int));
            assert(m@.floors.take(i as int + 1).last() == m@.floors[i as int]);
            assert(out@ =~= base_f + cat_pos_tiles(m@.floors.take(i as int + 1)));
        }
        i = i + 1;
    }
    proof {
        assert(m@.floors.take(m.floors@.len() as int) =~= m@.floors);
    }
    write_u64(&mut out, m.walls.len() as u64);
    let ghost base_w = out@;
    let mut i: usize = 0;
    while i < m.walls.len()
        invariant
            i <= m.walls@.len(),
            out@ == base_w + cat_pos_tiles(m@.walls.take(i as int)),
        decreases m.walls@.len() - i,
    {
        let entry = &m.walls[i];
        write_i32(&mut out, entry.0.x);
        write_i32(&mut out, entry.0.y);
        write_u64(&mut out, entry.1.asset_id.0 as u64);
        proof {
            assert(m@.walls.take(i as int + 1).drop_last() =~= m@.walls.take(i as int));
            assert(m@.walls.take(i as int + 1).last() == m@.walls[i as int]);
            assert(out@ =~= base_w + cat_pos_tiles(m@.walls.take(i as int + 1)));
        }
        i = i + 1;
    }
    proof {
        assert(m@.walls.take(m.walls@.len() as int) =~= m@.walls);
    }
    write_u64(&mut out, m.entities.len() as u64);
    let ghost base_e = out@;
    let mut i: usize = 0;
    while i < m.entities.len()
        invariant
            i <= m.entities@.len(),
            out@ == base_e + cat_entity_entries(m@.entities.take(i as int)),
        decreases m.entities@.len() - i,
    {
        let entry = &m.entities[i];
        write_u64(&mut out, entry.0.0 as u64);
        write_u64(&mut out, entry.1.asset_id.0 as u64);
        write_i32(&mut out, entry.1.pos.x);
        write_i32(&mut out, entry.1.pos.y);
        proof {
            assert(m@.entities.take(i as int + 1).drop_last() =~= m@.entities.take(i as int));
            assert(m@.entities.take(i as int + 1).last() == m@.entities[i as int]);
            assert(out@ =~= base_e + cat_entity_entries(m@.entities.take(i as int + 1)));
        }
        i = i + 1;
    }
    proof {
        assert(m@.entities.take(m.entities@.len() as int) =~= m@.entities);
        assert(out@ =~= enc_update(m@));
    }
    out
}

/// Encodes the authorization answer.
pub fn encode_authorized(m: &Authorized) -> (r: Vec<u8>)
    ensures
        r@ == enc_authorized(m@),
        update_wf(m@.update),
{
    let mut out: Vec<u8> = Vec::new();
    write_u64(&mut out, m.player_entity_id.0 as u64);
    let mut u = encode_update(&m.update);
    out.append(&mut u);
    proof {
        assert(out@ =~= enc_authorized(m@));
    }
    out
}

} // verus!

verus! {

fn read_u64(buf: &Vec<u8>, pos: usize) -> (r: Option<(u64, usize)>)
    ensures
        r is Some <==> dec_u64(buf@, pos as int) is Some,
        r matches Some((x, j)) ==> dec_u64(buf@, pos as int) == Some((x, j as int)),
{
    if pos <= buf.len() && buf.len() - pos >= 8 {
        let s = slice_subrange(buf.as_slice(), pos, pos + 8);
        Some((u64_from_le_bytes(s), pos + 8))
    } else {
        None
    }
}

fn read_u32(buf: &Vec<u8>, pos: usize) -> (r: Option<(u32, usize)>)
    ensures
        r is Some <==> dec_u32(buf@, pos as int) is Some,
        r matches Some((x, j)) ==> dec_u32(buf@, pos as int) == Some((x, j as int)),
{
    if pos <= buf.len() && buf.len() - pos >= 4 {
        let s = slice_subrange(buf.as_slice(), pos, pos + 4);
        Some((u32_from_le_bytes(s), pos + 4))
    } else {
        None
    }
}

fn read_i32(buf: &Vec<u8>, pos: usize) -> (r: Option<(i32, usize)>)
    ensures
        r is Some <==> dec_i32(buf@, pos as int) is Some,
        r matches Some((x, j)) ==> dec_i32(buf@, pos as int) == Some((x, j as int)),
{
    match read_u32(buf, pos) {
        Some((b, j)) => Some((#[verifier::truncate] (b as i32), j)),
        None => None,
    }
}

fn read_usize(buf: &Vec<u8>, pos: usize) -> (r: Option<(usize, usize)>)
    ensures
        r is Some <==> dec_usize(buf@, pos as int) is Some,
        r matches Some((x, j)) ==> dec_usize(buf@, pos as int) == Some((x, j as int)),
{
    match read_u64(buf, pos) {
        Some((x, j)) => if x <= usize::MAX as u64 {
            Some((x as usize, j))
        } else {
            None
        },
        None => None,
    }
}

fn read_bytes(buf: &Vec<u8>, pos: usize) -> (r: Option<(Vec<u8>, usize)>)
    ensures
        r is Some <==> dec_bytes(buf@, pos as int) is Some,
        r matches Some((b, j)) ==> dec_bytes(buf@, pos as int) == Some((b@, j as int)),
{
    match read_usize(buf, pos) {
        Some((n, j)) => {
            if n <= buf.len() && j <= buf.len() - n {
                let b = slice_to_vec(slice_subrange(buf.as_slice(), j, j + n));
                Some((b, j + n))
            } else {
                None
            }
        },
        None => None,
    }
}

fn read_str(buf: &Vec<u8>, pos: usize) -> (r: Option<(String, usize)>)
    ensures
        r is Some <==> dec_str(buf@, pos as int) is Some,
        r matches Some((s, j)) ==> dec_str(buf@, pos as int) == Some((s@, j as int)),
{
    match read_bytes(buf, pos) {
        Some((b, j)) => match string_from_utf8(b) {
            Some(s) => Some((s, j)),
            None => None,
        },
        None => None,
    }
}

fn read_asset_entry(buf: &Vec<u8>, pos: usize) -> (r: Option<((AssetId, Vec<u8>), usize)>)
    ensures
        r is Some <==> dec_asset_entry(buf@, pos as int) is Some,
        r matches Some((v, j)) ==> dec_asset_entry(buf@, pos as int) == Some(
            ((v.0, v.1@), j as int),
        ),
{
    match read_usize(buf, pos) {
        Some((id, j)) => match read_bytes(buf, j) {
            Some((b, k)) => Some(((AssetId(id), b), k)),
            None => None,
        },
        None => None,
    }
}

fn read_pos_tile(buf: &Vec<u8>, pos: usize) -> (r: Option<((Position, Tile), usize)>)
    ensures
        r is Some <==> dec_pos_tile(buf@, pos as int) is Some,
        r matches Some((v, j)) ==> dec_pos_tile(buf@, pos as int) == Some((v, j as int)),
{
    match read_i32(buf, pos) {
        Some((x, j)) => match read_i32(buf, j) {
            Some((y, k)) => match read_usize(buf, k) {
                Some((a, m)) => Some(((Position { x, y }, Tile { asset_id: AssetId(a) }), m)),
                None => None,
            },
            None => None,
        },
        None => None,
    }
}

fn read_entity_entry(buf: &Vec<u8>, pos: usize) -> (r: Option<((EntityId, Entity), usize)>)
    ensures
        r is Some <==> dec_entity_entry(buf@, pos as int) is Some,
        r matches Some((v, j)) ==> dec_entity_entry(buf@, pos as int) == Some((v, j as int)),
{
    match read_usize(buf, pos) {
        Some((id, j)) => match read_usize(buf, j) {
            Some((a, k)) => match read_i32(buf, k) {
                Some((x, m)) => match read_i32(buf, m) {
                    Some((y, n)) => Some(
                        (
                            (EntityId(id), Entity { asset_id: AssetId(a), pos: Position { x, y } }),
                            n,
                        ),
                    ),
                    None => None,
                },
                None => None,
            },
            None => None,
        },
        None => None,
    }
}

fn read_assets(buf: &Vec<u8>, pos: usize, n: u64) -> (r: Option<(Vec<(AssetId, Vec<u8>)>, usize)>)
    ensures
        r is Some <==> dec_assets(buf@, pos as int, n as nat) is Some,
        r matches Some((vs, j)) ==> dec_assets(buf@, pos as int, n as nat) == Some(
            (vs@.map_values(|a: (AssetId, AssetData)| (a.0, a.1@)), j as int),
        ),
    decreases n,
{
    if n == 0 {
        let vs: Vec<(AssetId, Vec<u8>)> = Vec::new();
        proof {
            assert(vs@.map_values(|a: (AssetId, AssetData)| (a.0, a.1@)) =~= Seq::<
                (AssetId, Seq<u8>),
            >::empty());
        }
        Some((vs, pos))
    } else {
        match read_asset_entry(buf, pos) {
            Some((v, j)) => match read_assets(buf, j, n - 1) {
                Some((mut vs, k)) => {
                    vs.insert(0, v);
                    proof {
                        assert(vs@.map_values(|a: (AssetId, AssetData)| (a.0, a.1@))
                            =~= vs@.drop_first().map_values(
                            |a: (AssetId, AssetData)| (a.0, a.1@),
                        ).insert(0, (v.0, v.1@)));
                    }
                    Some((vs, k))
                },
                None => None,
            },
            None => None,
        }
    }
}

fn read_pos_tiles(buf: &Vec<u8>, pos: usize, n: u64) -> (r: Option<
    (Vec<(Position, Tile)>, usize),
>)
    ensures
        r is Some <==> dec_pos_tiles(buf@, pos as int, n as nat) is Some,
        r matches Some((vs, j)) ==> dec_pos_tiles(buf@, pos as int, n as nat) == Some(
            (vs@, j as int),
        ),
    decreases n,
{
    if n == 0 {
        Some((Vec::new(), pos))
    } else {
        match read_pos_tile(buf, pos) {
            Some((v, j)) => match read_pos_tiles(buf, j, n - 1) {
                Some((mut vs, k)) => {
                    vs.insert(0, v);
                    Some((vs, k))
                },
                None => None,
            },
            None => None,
        }
    }
}

fn read_entity_entries(buf: &Vec<u8>, pos: usize, n: u64) -> (r: Option<
    (Vec<(EntityId, Entity)>, usize),
>)
    ensures
        r is Some <==> dec_entity_entries(buf@, pos as int, n as nat) is Some,
        r matches Some((vs, j)) ==> dec_entity_entries(buf@, pos as int, n as nat) == Some(
            (vs@, j as int),
        ),
    decreases n,
{
    if n == 0 {
        Some((Vec::new(), pos))
    } else {
        match read_entity_entry(buf, pos) {
            Some((v, j)) => match read_entity_entries(buf, j, n - 1) {
                Some((mut vs, k)) => {
                    vs.insert(0, v);
                    Some((vs, k))
                },
                None => None,
            },
            None => None,
        }
    }
}

/// Decodes one handshake message at the given position of a received
/// buffer; `None` when the bytes there do not yet (or do not) form one.
pub fn decode_auth(buf: &Vec<u8>, pos: usize) -> (r: Option<(Auth, usize)>)
    ensures
        r is Some <==> dec_auth(buf@, pos as int) is Some,
        r matches Some((m, j)) ==> dec_auth(buf@, pos as int) == Some((m@, j as int)),
{
    match read_str(buf, pos) {
        Some((u, j)) => Some((Auth { username: u }, j)),
        None => None,
    }
}

/// Decodes one inbound player command.
pub fn decode_signal(buf: &Vec<u8>, pos: usize) -> (r: Option<(PlayerSignal, usize)>)
    ensures
        r is Some <==> dec_signal(buf@, pos as int) is Some,
        r matches Some((m, j)) ==> dec_signal(buf@, pos as int) == Some((m, j as int)),
{
    match read_u32(buf, pos) {
        Some((d, j)) => if d == 0 {
            Some((PlayerSignal::ReloadServer, j))
        } else {
            None
        },
        None => None,
    }
}

/// Decodes one full world snapshot.
pub fn decode_update(buf: &Vec<u8>, pos: usize) -> (r: Option<(ClientUpdate, usize)>)
    ensures
        r is Some <==> dec_update(buf@, pos as int) is Some,
        r matches Some((m, j)) ==> dec_update(buf@, pos as int) == Some((m@, j as int)),
{
    let (na, i1) = match read_u64(buf, pos) {
        Some(v) => v,
        None => {
            return None;
        },
    };
    if na > usize::MAX as u64 {
        return None;
    }
    let (assets, i2) = match read_assets(buf, i1, na) {
        Some(v) => v,
        None => {
            return None;
        },
    };
    let (nf, i3) = match read_u64(buf, i2) {
        Some(v) => v,
        None => {
            return None;
        },
    };
    if nf > usize::MAX as u64 {
        return None;
    }
    let (floors, i4) = match read_pos_tiles(buf, i3, nf) {
        Some(v) => v,
        None => {
            return None;
        },
    };
    let (nw, i5) = match read_u64(buf, i4) {
        Some(v) => v,
        None => {
            return None;
        },
    };
    if nw > usize::MAX as u64 {
        return None;
    }
    let (walls, i6) = match read_pos_tiles(buf, i5, nw) {
        Some(v) => v,
        None => {
            return None;
        },
    };
    let (ne, i7) = match read_u64(buf, i6) {
        Some(v) => v,
        None => {
            return None;
        },
    };
    if ne > usize::MAX as u64 {
        return None;
    }
    let (entities, i8) = match read_entity_entries(buf, i7, ne) {
        Some(v) => v,
        None => {
            return None;
        },
    };
    Some((ClientUpdate { assets, floors, walls, entities }, i8))
}

/// Decodes one authorization answer.
pub fn decode_authorized(buf: &Vec<u8>, pos: usize) -> (r: Option<(Authorized, usize)>)
    ensures
        r is Some <==> dec_authorized(buf@, pos as int) is Some,
        r matches Some((m, j)) ==> dec_authorized(buf@, pos as int) == Some((m@, j as int)),
{
    match read_usize(buf, pos) {
        Some((id, j)) => match decode_update(buf, j) {
            Some((u, k)) => Some((Authorized { player_entity_id: EntityId(id), update: u }, k)),
            None => None,
        },
        None => None,
    }
}

} // verus!
