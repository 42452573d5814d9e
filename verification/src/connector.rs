//! The server side of the connection lifecycle: the roster of identified
//! players, the assignment of player entities to usernames, the full-world
//! snapshot sent on authorization, and the per-tick handling of inbound
//! reads.
//!
//! A connection is Unauthorized until one complete `Auth` message arrives,
//! then Authorized and bound to an entity id; on a terminal read it is
//! Disconnected, but the username keeps its entity claim so the same player
//! resumes the same entity on reconnection.

use crate::codec;
use crate::signals;
use crate::state::{Entity, EntityId, ObjectType, State, player_index_seq, player_type_index};
use vstd::prelude::*;

verus! {

broadcast use vstd::seq_lib::group_seq_lib_default, vstd::seq::group_seq_axioms, crate::state::lemma_entity_id_view_eq;

/// Conditions that end an authorization attempt or the run loop.
#[derive(Debug, Clone, Copy, PartialEq, Eq, Structural)]
pub enum AuthError {
    /// Every player-type entity is already claimed by some username; fatal,
    /// the new player cannot be given an identity.
    NoFreeIdentitySlot,
}

/// One identified player: the username it presented, whether its socket is
/// currently open, and the entity id claimed for it.  The claim outlives
/// the socket.
#[derive(Debug)]
pub struct Player {
    pub username: String,
    pub connected: bool,
    pub entity_id: EntityId,
}

/// One loaded asset: the name content refers to it by, the id it travels
/// under, and its bytes.
#[derive(Debug)]
pub struct AssetEntry {
    pub name: String,
    pub id: signals::AssetId,
    pub data: Vec<u8>,
}

/// The table of loaded assets, fixed at startup.
#[derive(Debug)]
pub struct AssetTable {
    pub entries: Vec<AssetEntry>,
}

/// The id of the first entry whose name matches, if any.
pub open spec fn lookup_asset(entries: Seq<AssetEntry>, name: Seq<char>) -> Option<signals::AssetId>
    decreases entries.len(),
{
    if entries.len() == 0 {
        None
    } else if entries[0].name@ == name {
        Some(entries[0].id)
    } else {
        lookup_asset(entries.drop_first(), name)
    }
}

impl AssetTable {
    /// Resolves an asset name to the id it travels under.
    pub fn asset_to_id(&self, name: &String) -> (r: Option<signals::AssetId>)
        ensures
            r == lookup_asset(self.entries@, name@),
    {
        let mut i: usize = 0;
        proof {
            assert(self.entries@.skip(0) =~= self.entries@);
        }
        while i < self.entries.len()
            invariant
                i <= self.entries@.len(),
                lookup_asset(self.entries@, name@) == lookup_asset(
                    self.entries@.skip(i as int),
                    name@,
                ),
            decreases self.entries@.len() - i,
        {
            proof {
                assert(self.entries@.skip(i as int)[0] == self.entries@[i as int]);
                assert(self.entries@.skip(i as int).drop_first() =~= self.entries@.skip(
                    i as int + 1,
                ));
            }
            if self.entries[i].name == *name {
                return Some(self.entries[i].id);
            }
            i = i + 1;
        }
        proof {
            assert(self.entries@.skip(self.entries@.len() as int) =~= Seq::<AssetEntry>::empty());
        }
        None
    }
}

/// The asset name an entity is rendered with: its own override when it has
/// one, else its type's default.
pub open spec fn entity_effective_asset(s: &State, e: Entity) -> Seq<char> {
    match e.asset {
        Some(a) => a@,
        None => s.entity_defs()[e.type_id@].asset@,
    }
}

/// Every asset name the snapshot of this store needs resolves in the table.
pub open spec fn snapshot_assets_resolvable(s: &State, entries: Seq<AssetEntry>) -> bool {
    &&& forall|i: int|
        0 <= i < s.floors_seq().len() ==> lookup_asset(
            entries,
            s.floor_defs()[(#[trigger] s.floors_seq()[i]).1.type_id@].asset@,
        ) is Some
    &&& forall|i: int|
        0 <= i < s.walls_seq().len() ==> lookup_asset(
            entries,
            s.wall_defs()[(#[trigger] s.walls_seq()[i]).1.type_id@].asset@,
        ) is Some
    &&& forall|i: int|
        0 <= i < s.entities_seq().len() ==> lookup_asset(
            entries,
            entity_effective_asset(s, #[trigger] s.entities_seq()[i]),
        ) is Some
}

/// The floor rows of the snapshot, in the store's placement order.
pub open spec fn snapshot_floors(s: &State, entries: Seq<AssetEntry>) -> Seq<
    (signals::Position, signals::Tile),
> {
    Seq::new(
        s.floors_seq().len(),
        |i: int|
            (
                signals::Position { x: s.floors_seq()[i].0.x, y: s.floors_seq()[i].0.y },
                signals::Tile {
                    asset_id: lookup_asset(
                        entries,
                        s.floor_defs()[s.floors_seq()[i].1.type_id@].asset@,
                    ).unwrap(),
                },
            ),
    )
}

/// The wall rows of the snapshot, in the store's placement order.
pub open spec fn snapshot_walls(s: &State, entries: Seq<AssetEntry>) -> Seq<
    (signals::Position, signals::Tile),
> {
    Seq::new(
        s.walls_seq().len(),
        |i: int|
            (
                signals::Position { x: s.walls_seq()[i].0.x, y: s.walls_seq()[i].0.y },
                signals::Tile {
                    asset_id: lookup_asset(
                        entries,
                        s.wall_defs()[s.walls_seq()[i].1.type_id@].asset@,
                    ).unwrap(),
                },
            ),
    )
}

/// The entity rows of the snapshot, one per live entity, under its id.
pub open spec fn snapshot_entities(s: &State, entries: Seq<AssetEntry>) -> Seq<
    (signals::EntityId, signals::Entity),
> {
    Seq::new(
        s.entities_seq().len(),
        |i: int|
            (
                signals::EntityId(i as usize),
                signals::Entity {
                    asset_id: lookup_asset(
                        entries,
                        entity_effective_asset(s, s.entities_seq()[i]),
                    ).unwrap(),
                    pos: signals::Position {
                        x: s.entities_seq()[i].pos.x,
                        y: s.entities_seq()[i].pos.y,
                    },
                },
            ),
    )
}

/// The full snapshot of a store under an asset table.
pub open spec fn snapshot_spec(s: &State, entries: Seq<AssetEntry>) -> signals::ClientUpdateV {
    signals::ClientUpdateV {
        assets: entries.map_values(|e: AssetEntry| (e.id, e.data@)),
        floors: snapshot_floors(s, entries),
        walls: snapshot_walls(s, entries),
        entities: snapshot_entities(s, entries),
    }
}

/// Builds the full world snapshot sent to a newly authorized client: every
/// loaded asset blob, every floor cell, every wall cell, every entity.
pub fn make_init_signal(s: &State, assets: &AssetTable) -> (r: signals::ClientUpdate)
    requires
        s.wf(),
        snapshot_assets_resolvable(s, assets.entries@),
    ensures
        r@ == snapshot_spec(s, assets.entries@),
{
    let mut asset_rows: Vec<(signals::AssetId, signals::AssetData)> = Vec::new();
    let mut i: usize = 0;
    while i < assets.entries.len()
        invariant
            i <= assets.entries@.len(),
            asset_rows@.len() == i as int,
            forall|k: int|
                0 <= k < i ==> (#[trigger] asset_rows@[k]).0 == assets.entries@[k].id
                    && asset_rows@[k].1@ == assets.entries@[k].data@,
        decreases assets.entries@.len() - i,
    {
        let entry = &assets.entries[i];
        let data = vstd::slice::slice_to_vec(entry.data.as_slice());
        asset_rows.push((entry.id, data));
        i = i + 1;
    }

    let floor_rows = snapshot_floor_rows(s, assets);
    let wall_rows = snapshot_wall_rows(s, assets);
    let entity_rows = snapshot_entity_rows(s, assets);
    let r = signals::ClientUpdate {
        assets: asset_rows,
        floors: floor_rows,
        walls: wall_rows,
        entities: entity_rows,
    };
    proof {
        assert forall|k: int| 0 <= k < assets.entries@.len() implies r@.assets[k]
            == assets.entries@.map_values(|e: AssetEntry| (e.id, e.data@))[k] by {
            assert(r@.assets[k] == (r.assets@[k].0, r.assets@[k].1@));
        }
        assert(r@.assets =~= assets.entries@.map_values(|e: AssetEntry| (e.id, e.data@)));
    }
    r
}

fn snapshot_floor_rows(s: &State, assets: &AssetTable) -> (r: Vec<(signals::Position, signals::Tile)>)
    requires
        s.wf(),
        snapshot_assets_resolvable(s, assets.entries@),
    ensures
        r@ == snapshot_floors(s, assets.entries@),
{
    let mut rows: Vec<(signals::Position, signals::Tile)> = Vec::new();
    let floors = s.floors();
    let mut i: usize = 0;
    while i < floors.len()
        invariant
            i <= floors@.len(),
            floors@ == s.floors_seq(),
            s.wf(),
            snapshot_assets_resolvable(s, assets.entries@),
            rows@ =~= snapshot_floors(s, assets.entries@).take(i as int),
        decreases floors@.len() - i,
    {
        let (pos, floor) = floors[i];
        proof {
            assert(s.floors_seq()[i as int].1.type_id@ < s.floor_defs().len());
        }
        let def = s.get_type(floor.type_id);
        let id = match assets.asset_to_id(&def.asset) {
            Some(id) => id,
            None => vstd::pervasive::unreached(),
        };
        rows.push(
            (signals::Position { x: pos.x, y: pos.y }, signals::Tile { asset_id: id }),
        );
        proof {
            assert(rows@ =~= snapshot_floors(s, assets.entries@).take(i as int + 1));
        }
        i = i + 1;
    }
    proof {
        assert(snapshot_floors(s, assets.entries@).take(floors@.len() as int) =~= snapshot_floors(
            s,
            assets.entries@,
        ));
    }
    rows
}

fn snapshot_wall_rows(s: &State, assets: &AssetTable) -> (r: Vec<(signals::Position, signals::Tile)>)
    requires
        s.wf(),
        snapshot_assets_resolvable(s, assets.entries@),
    ensures
        r@ == snapshot_walls(s, assets.entries@),
{
    let mut rows: Vec<(signals::Position, signals::Tile)> = Vec::new();
    let walls = s.walls();
    let mut i: usize = 0;
    while i < walls.len()
        invariant
            i <= walls@.len(),
            walls@ == s.walls_seq(),
            s.wf(),
            snapshot_assets_resolvable(s, assets.entries@),
            rows@ =~= snapshot_walls(s, assets.entries@).take(i as int),
        decreases walls@.len() - i,
    {
        let (pos, wall) = walls[i];
        proof {
            assert(s.walls_seq()[i as int].1.type_id@ < s.wall_defs().len());
        }
        let def = s.get_type(wall.type_id);
        let id = match assets.asset_to_id(&def.asset) {
            Some(id) => id,
            None => vstd::pervasive::unreached(),
        };
        rows.push(
            (signals::Position { x: pos.x, y: pos.y }, signals::Tile { asset_id: id }),
        );
        proof {
            assert(rows@ =~= snapshot_walls(s, assets.entries@).take(i as int + 1));
        }
        i = i + 1;
    }
    proof {
        assert(snapshot_walls(s, assets.entries@).take(walls@.len() as int) =~= snapshot_walls(
            s,
            assets.entries@,
        ));
    }
    rows
}

fn snapshot_entity_rows(s: &State, assets: &AssetTable) -> (r: Vec<
    (signals::EntityId, signals::Entity),
>)
    requires
        s.wf(),
        snapshot_assets_resolvable(s, assets.entries@),
    ensures
        r@ == snapshot_entities(s, assets.entries@),
{
    let mut rows: Vec<(signals::EntityId, signals::Entity)> = Vec::new();
    let entities = s.entities();
    let mut i: usize = 0;
    while i < entities.len()
        invariant
            i <= entities@.len(),
            entities@ == s.entities_seq(),
            s.wf(),
            snapshot_assets_resolvable(s, assets.entries@),
            rows@ =~= snapshot_entities(s, assets.entries@).take(i as int),
        decreases entities@.len() - i,
    {
        let entity = &entities[i];
        proof {
            assert(s.entities_seq()[i as int].type_id@ < s.entity_defs().len());
        }
        let id = match &entity.asset {
            Some(a) => match assets.asset_to_id(a) {
                Some(id) => id,
                None => vstd::pervasive::unreached(),
            },
            None => {
                let def = s.get_type(entity.type_id);
                match assets.asset_to_id(&def.asset) {
                    Some(id) => id,
                    None => vstd::pervasive::unreached(),
                }
            },
        };
        rows.push(
            (
                signals::EntityId(i),
                signals::Entity {
                    asset_id: id,
                    pos: signals::Position { x: entity.pos.x, y: entity.pos.y },
                },
            ),
        );
        proof {
            assert(rows@ =~= snapshot_entities(s, assets.entries@).take(i as int + 1));
        }
        i = i + 1;
    }
    proof {
        assert(snapshot_entities(s, assets.entries@).take(entities@.len() as int)
            =~= snapshot_entities(s, assets.entries@));
    }
    rows
}

} // verus!

verus! {

/// The entity id claimed by a username: that of the first roster record
/// carrying the username, if any.
pub open spec fn claim_of(players: Seq<Player>, username: Seq<char>) -> Option<EntityId>
    decreases players.len(),
{
    if players.len() == 0 {
        None
    } else if players[0].username@ == username {
        Some(players[0].entity_id)
    } else {
        claim_of(players.drop_first(), username)
    }
}

/// Whether some roster record claims the entity id.
pub open spec fn id_claimed(players: Seq<Player>, id: int) -> bool {
    exists|i: int| 0 <= i < players.len() && (#[trigger] players[i]).entity_id@ == id
}

/// A fresh identity assignment: the id is player-typed, unclaimed, and the
/// first such in id order — every smaller player-typed id is claimed.
pub open spec fn fresh_pick_ok(s: &State, players: Seq<Player>, id: EntityId) -> bool {
    let pool = player_index_seq(s.entities_seq());
    &&& exists|k: int| 0 <= k < pool.len() && #[trigger] pool[k] == id@
    &&& !id_claimed(players, id@)
    &&& forall|k: int| 0 <= k < pool.len() && #[trigger] pool[k] < id@ ==> id_claimed(players, pool[k])
}

/// A record may join the roster only if it agrees with every existing
/// record: same username exactly where same entity id.
pub open spec fn record_compatible(players: Seq<Player>, username: Seq<char>, id: int) -> bool {
    forall|i: int|
        0 <= i < players.len() ==> (((#[trigger] players[i]).username@ == username) <==> (
        players[i].entity_id@ == id))
}

/// What one authorization attempt on an Unauthorized connection decided.
#[derive(Debug)]
pub enum AuthAttempt {
    /// The bytes received so far do not yet form a complete handshake
    /// message; the connection stays Unauthorized and is retried next tick.
    Pending,
    /// The handshake arrived but no player-type entity is left to claim;
    /// fatal.
    NoFreeIdentity,
    /// The handshake arrived and an identity was resolved: the entity id to
    /// record for the username, the encoded answer to send back, and how
    /// many input bytes the handshake consumed.
    Accepted { entity_id: EntityId, response: Vec<u8>, consumed: usize },
}

/// What reading one Authorized connection this tick produced; how the
/// socket's condition maps onto these is the caller's concern.
#[derive(Debug, Clone, Copy, PartialEq, Eq, Structural)]
pub enum SignalRead {
    /// One complete inbound command.
    Signal(signals::PlayerSignal),
    /// Nothing arrived this tick; not an error.
    WouldBlock,
    /// The connection ended (reset, aborted, or closed); terminal.
    Closed,
    /// Some other read failure; reported and left as it was.
    Failed,
}

/// Owns the identified players and decides authorization; the sockets
/// themselves, and the listener, live with the caller that feeds this
/// type.
#[derive(Debug)]
pub struct ServerConnector {
    players: Vec<Player>,
}

impl ServerConnector {
    /// The roster records, in the order the players were first authorized.
    pub closed spec fn players_seq(&self) -> Seq<Player> {
        self.players@
    }

    /// Roster well-formedness: two records share a username exactly when
    /// they share an entity id, so a username maps to at most one entity
    /// and an entity belongs to at most one username.
    pub open spec fn wf(&self) -> bool {
        forall|i: int, j: int|
            0 <= i < j < self.players_seq().len() ==> (((#[trigger] self.players_seq()[i]).username@
                == (#[trigger] self.players_seq()[j]).username@) <==> (
            self.players_seq()[i].entity_id@ == self.players_seq()[j].entity_id@))
    }

    pub fn new() -> (c: Self)
        ensures
            c.wf(),
            c.players_seq() =~= Seq::<Player>::empty(),
    {
        Self { players: Vec::new() }
    }

    /// Read-only view of the roster.
    pub fn players(&self) -> (r: &Vec<Player>)
        ensures
            r@ == self.players_seq(),
    {
        &self.players
    }

    /// The entity id already claimed by this username, if it ever
    /// authorized before.
    pub fn get_player_entity(&self, username: &String) -> (r: Option<EntityId>)
        ensures
            r == claim_of(self.players_seq(), username@),
    {
        let mut i: usize = 0;
        proof {
            assert(self.players@.skip(0) =~= self.players@);
        }
        while i < self.players.len()
            invariant
                i <= self.players@.len(),
                claim_of(self.players@, username@) == claim_of(
                    self.players@.skip(i as int),
                    username@,
                ),
            decreases self.players@.len() - i,
        {
            proof {
                assert(self.players@.skip(i as int)[0] == self.players@[i as int]);
                assert(self.players@.skip(i as int).drop_first() =~= self.players@.skip(
                    i as int + 1,
                ));
            }
            if self.players[i].username == *username {
                return Some(self.players[i].entity_id);
            }
            i = i + 1;
        }
        proof {
            assert(self.players@.skip(self.players@.len() as int) =~= Seq::<Player>::empty());
        }
        None
    }

    /// Whether some record claims the id.
    fn id_is_claimed(&self, id: EntityId) -> (r: bool)
        ensures
            r == id_claimed(self.players_seq(), id@),
    {
        let mut i: usize = 0;
        while i < self.players.len()
            invariant
                i <= self.players@.len(),
                forall|k: int| 0 <= k < i ==> (#[trigger] self.players@[k]).entity_id@ != id@,
            decreases self.players@.len() - i,
        {
            if self.players[i].entity_id == id {
                return true;
            }
            i = i + 1;
        }
        false
    }

    /// Resolves an entity id for the username: the existing claim when the
    /// username authorized before, else the first player-type entity id
    /// not claimed by anyone.  Fails exactly when a new username arrives
    /// and no unclaimed player-type entity remains.
    pub fn get_or_pick_entity(&self, username: &String, s: &State) -> (r: Result<
        EntityId,
        AuthError,
    >)
        ensures
            match r {
                Ok(id) => match claim_of(self.players_seq(), username@) {
                    Some(c) => id == c,
                    None => fresh_pick_ok(s, self.players_seq(), id),
                },
                Err(e) => {
                    &&& e == AuthError::NoFreeIdentitySlot
                    &&& claim_of(self.players_seq(), username@) is None
                    &&& forall|k: int|
                        0 <= k < player_index_seq(s.entities_seq()).len() ==> id_claimed(
                            self.players_seq(),
                            #[trigger] player_index_seq(s.entities_seq())[k],
                        )
                },
            },
    {
        if let Some(entity_id) = self.get_player_entity(username) {
            return Ok(entity_id);
        }
        let ids = s.player_entity_ids();
        let ghost pool = player_index_seq(s.entities_seq());
        proof {
            crate::state::lemma_player_index_seq(s.entities_seq());
        }
        let mut k: usize = 0;
        while k < ids.len()
            invariant
                k <= ids@.len(),
                claim_of(self.players_seq(), username@) is None,
                ids@.map_values(|id: EntityId| id@) == pool,
                pool == player_index_seq(s.entities_seq()),
                forall|m: int| 0 <= m < k ==> id_claimed(self.players_seq(), #[trigger] pool[m]),
                forall|k1: int, k2: int|
                    0 <= k1 < k2 < pool.len() ==> #[trigger] pool[k1] < #[trigger] pool[k2],
            decreases ids@.len() - k,
        {
            proof {
                assert(pool[k as int] == ids@[k as int]@);
            }
            if !self.id_is_claimed(ids[k]) {
                let id = ids[k];
                proof {
                    assert(pool[k as int] == id@);
                    assert(exists|m: int| 0 <= m < pool.len() && #[trigger] pool[m] == id@);
                    assert forall|m: int|
                        0 <= m < pool.len() && #[trigger] pool[m] < id@ implies id_claimed(
                        self.players_seq(),
                        pool[m],
                    ) by {
                        if m >= k as int {
                            if m > k as int {
                                assert(pool[k as int] < pool[m]);
                            }
                            assert(false);
                        }
                    }
                }
                return Ok(id);
            }
            k = k + 1;
        }
        Err(AuthError::NoFreeIdentitySlot)
    }

    /// Records a freshly authorized player against its username, after the
    /// answer was sent.  The record is added only when it is compatible
    /// with the roster's identity discipline; the result says whether it
    /// was.
    pub fn record_player(&mut self, username: String, entity_id: EntityId) -> (r: bool)
        requires
            old(self).wf(),
        ensures
            final(self).wf(),
            r == record_compatible(old(self).players_seq(), username@, entity_id@),
            r ==> final(self).players_seq() == old(self).players_seq().push(
                Player { username, connected: true, entity_id },
            ),
            !r ==> final(self).players_seq() == old(self).players_seq(),
    {
        let mut i: usize = 0;
        while i < self.players.len()
            invariant
                i <= self.players@.len(),
                old(self).wf(),
                self.players@ == old(self).players@,
                forall|k: int|
                    0 <= k < i ==> (((#[trigger] old(self).players@[k]).username@ == username@)
                        <==> (old(self).players@[k].entity_id@ == entity_id@)),
            decreases self.players@.len() - i,
        {
            let name_matches = self.players[i].username == username;
            let id_matches = self.players[i].entity_id == entity_id;
            if name_matches != id_matches {
                proof {
                    let p = old(self).players@[i as int];
                    assert((p.entity_id@ == entity_id@) <==> (p.entity_id == entity_id));
                    assert(!((p.username@ == username@) <==> (p.entity_id@ == entity_id@)));
                }
                return false;
            }
            i = i + 1;
        }
        self.players.push(Player { username, connected: true, entity_id });
        proof {
            let post = self.players@;
            let pre = old(self).players@;
            assert forall|a: int, b: int| 0 <= a < b < post.len() implies (((
            #[trigger] post[a]).username@ == (#[trigger] post[b]).username@) <==> (post[a].entity_id@
                == post[b].entity_id@)) by {
                if b < post.len() - 1 {
                    assert(post[a] == pre[a]);
                    assert(post[b] == pre[b]);
                    assert(((old(self).players_seq()[a].username@
                        == old(self).players_seq()[b].username@) <==> (
                    old(self).players_seq()[a].entity_id@
                        == old(self).players_seq()[b].entity_id@)));
                } else {
                    assert(post[a] == pre[a]);
                    assert(post[b].username@ == username@);
                    assert(post[b].entity_id@ == entity_id@);
                    assert(((old(self).players@[a].username@ == username@) <==> (
                    old(self).players@[a].entity_id@ == entity_id@)));
                }
            }
        }
        true
    }

    /// One authorization attempt for one Unauthorized connection, against
    /// the bytes received from it so far.  Decides only; recording the
    /// player (after the caller has sent the answer) is `record_player`.
    pub fn try_auth(&self, s: &State, assets: &AssetTable, input: &Vec<u8>) -> (r: AuthAttempt)
        requires
            s.wf(),
            snapshot_assets_resolvable(s, assets.entries@),
        ensures
            match r {
                AuthAttempt::Pending => codec::dec_auth(input@, 0) is None,
                AuthAttempt::NoFreeIdentity => codec::dec_auth(input@, 0) matches Some((a, n))
                    && claim_of(self.players_seq(), a.username) is None && (forall|k: int|
                    0 <= k < player_index_seq(s.entities_seq()).len() ==> id_claimed(
                        self.players_seq(),
                        #[trigger] player_index_seq(s.entities_seq())[k],
                    )),
                AuthAttempt::Accepted { entity_id, response, consumed } => codec::dec_auth(
                    input@,
                    0,
                ) matches Some((a, n)) && {
                    &&& n == consumed
                    &&& match claim_of(self.players_seq(), a.username) {
                        Some(c) => entity_id == c,
                        None => fresh_pick_ok(s, self.players_seq(), entity_id),
                    }
                    &&& response@ == codec::enc_authorized(
                        signals::AuthorizedV {
                            player_entity_id: signals::EntityId(entity_id@ as usize),
                            update: snapshot_spec(s, assets.entries@),
                        },
                    )
                },
            },
    {
        let (auth, consumed) = match codec::decode_auth(input, 0) {
            Some(v) => v,
            None => {
                return AuthAttempt::Pending;
            },
        };
        let entity_id = match self.get_or_pick_entity(&auth.username, s) {
            Ok(id) => id,
            Err(AuthError::NoFreeIdentitySlot) => {
                return AuthAttempt::NoFreeIdentity;
            },
        };
        let update = make_init_signal(s, assets);
        let answer = signals::Authorized {
            player_entity_id: signals::EntityId(usize::from(entity_id)),
            update,
        };
        let response = codec::encode_authorized(&answer);
        AuthAttempt::Accepted { entity_id, response, consumed }
    }

    /// Applies the outcome of one non-blocking read on the Authorized
    /// connection at `index`.  A command is handed back for application; a
    /// would-block outcome means nothing happened this tick; a closed
    /// connection becomes Disconnected while the username keeps its entity
    /// claim; any other failure leaves the connection as it was.
    pub fn handle_client_read(&mut self, index: usize, read: SignalRead) -> (r: Option<
        signals::PlayerSignal,
    >)
        requires
            old(self).wf(),
            index < old(self).players_seq().len(),
        ensures
            final(self).wf(),
            final(self).players_seq().len() == old(self).players_seq().len(),
            match read {
                SignalRead::Signal(sig) => r == Some(sig) && final(self).players_seq() == old(
                    self,
                ).players_seq(),
                SignalRead::WouldBlock => r is None && final(self).players_seq() == old(
                    self,
                ).players_seq(),
                SignalRead::Closed => r is None && final(self).players_seq() == old(
                    self,
                ).players_seq().update(
                    index as int,
                    Player {
                        username: old(self).players_seq()[index as int].username,
                        connected: false,
                        entity_id: old(self).players_seq()[index as int].entity_id,
                    },
                ),
                SignalRead::Failed => r is None && final(self).players_seq() == old(
                    self,
                ).players_seq(),
            },
    {
        match read {
            SignalRead::Signal(sig) => Some(sig),
            SignalRead::WouldBlock => None,
            SignalRead::Closed => {
                let username = self.players[index].username.clone();
                let entity_id = self.players[index].entity_id;
                self.players[index] = Player { username, connected: false, entity_id };
                proof {
                    let post = self.players@;
                    let pre = old(self).players@;
                    assert forall|a: int, b: int| 0 <= a < b < post.len() implies (((
                    #[trigger] post[a]).username@ == (#[trigger] post[b]).username@) <==> (
                    post[a].entity_id@ == post[b].entity_id@)) by {
                        assert(post[a].username@ == pre[a].username@);
                        assert(post[b].username@ == pre[b].username@);
                        assert(post[a].entity_id@ == pre[a].entity_id@);
                        assert(post[b].entity_id@ == pre[b].entity_id@);
                    }
                }
                None
            },
            SignalRead::Failed => None,
        }
    }
}

} // verus!
