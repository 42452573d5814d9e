//! The wire messages exchanged between client and server, and the plain
//! data they carry.  Both directions use the same binary encoding (see the
//! codec module), so the two sides share no schema drift.

use vstd::prelude::*;

verus! {

/// Identity of a transferred asset blob.
#[derive(Debug, Clone, Copy, PartialEq, Eq, PartialOrd, Ord, Hash, Structural)]
pub struct AssetId(pub usize);

/// The raw bytes of one asset.
pub type AssetData = Vec<u8>;

/// Identity of an entity as spoken of on the wire.
#[derive(Debug, Clone, Copy, PartialEq, Eq, PartialOrd, Ord, Hash, Structural)]
pub struct EntityId(pub usize);

/// An integer 2D coordinate as spoken of on the wire.
#[derive(Debug, Clone, Copy, PartialEq, Eq, PartialOrd, Ord, Hash, Structural)]
pub struct Position {
    pub x: i32,
    pub y: i32,
}

impl Position {
    pub fn new(x: i32, y: i32) -> (p: Self)
        ensures
            p == (Position { x, y }),
    {
        Self { x, y }
    }
}

/// One tile of a snapshot: the asset to draw at its cell.
#[derive(Debug, Clone, Copy, PartialEq, Eq, Structural)]
pub struct Tile {
    pub asset_id: AssetId,
}

/// One entity of a snapshot: the asset to draw and where.
#[derive(Debug, Clone, Copy, PartialEq, Eq, Structural)]
pub struct Entity {
    pub asset_id: AssetId,
    pub pos: Position,
}

/// A full world snapshot: every loaded asset blob, every floor cell, every
/// wall cell, every entity.
#[derive(Debug)]
pub struct ClientUpdate {
    pub assets: Vec<(AssetId, AssetData)>,
    pub floors: Vec<(Position, Tile)>,
    pub walls: Vec<(Position, Tile)>,
    pub entities: Vec<(EntityId, Entity)>,
}

/// Mathematical value of a `ClientUpdate`.
pub struct ClientUpdateV {
    pub assets: Seq<(AssetId, Seq<u8>)>,
    pub floors: Seq<(Position, Tile)>,
    pub walls: Seq<(Position, Tile)>,
    pub entities: Seq<(EntityId, Entity)>,
}

impl View for ClientUpdate {
    type V = ClientUpdateV;

    open spec fn view(&self) -> ClientUpdateV {
        ClientUpdateV {
            assets: self.assets@.map_values(|a: (AssetId, AssetData)| (a.0, a.1@)),
            floors: self.floors@,
            walls: self.walls@,
            entities: self.entities@,
        }
    }
}

/// First message on a new connection, client to server: the player's
/// claimed identity.
#[derive(Debug)]
pub struct Auth {
    pub username: String,
}

/// Mathematical value of an `Auth`.
pub struct AuthV {
    pub username: Seq<char>,
}

impl View for Auth {
    type V = AuthV;

    open spec fn view(&self) -> AuthV {
        AuthV { username: self.username@ }
    }
}

/// Server's answer to a successful `Auth`: the entity id now bound to the
/// player, and a full snapshot of the world.
#[derive(Debug)]
pub struct Authorized {
    pub player_entity_id: EntityId,
    pub update: ClientUpdate,
}

/// Mathematical value of an `Authorized`.
pub struct AuthorizedV {
    pub player_entity_id: EntityId,
    pub update: ClientUpdateV,
}

impl View for Authorized {
    type V = AuthorizedV;

    open spec fn view(&self) -> AuthorizedV {
        AuthorizedV { player_entity_id: self.player_entity_id, update: self.update@ }
    }
}

/// An inbound player command, client to server, one tagged variant per
/// supported command.
#[derive(Debug, Clone, Copy, PartialEq, Eq, Structural)]
pub enum PlayerSignal {
    ReloadServer,
}

} // verus!
