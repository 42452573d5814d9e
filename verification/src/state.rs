//! Authoritative world state: type registries for floors, walls and entities,
//! and the placed instances that reference them.
//!
//! Each of the three type families has its own identity space: registration
//! hands out consecutive integer ids, never reused and never recycled, and a
//! registered definition is immutable afterwards.  Instances (placed floors
//! and walls, spawned entities) may only reference ids that the owning
//! registry has issued.

use vstd::prelude::*;

verus! {

/// An integer 2D coordinate.  The coordinate space is unbounded at this
/// layer; bounding the world is a concern of the content, not of the store.
#[derive(Debug, Clone, Copy, PartialEq, Eq, Structural)]
pub struct Vec2 {
    pub x: i32,
    pub y: i32,
}

pub fn vec2(x: i32, y: i32) -> (v: Vec2)
    ensures
        v == (Vec2 { x, y }),
{
    Vec2 { x, y }
}

/// The pair of mathematical integers denoted by a coordinate; used as the
/// key of the per-layer maps in specifications.
pub open spec fn pos_key(p: Vec2) -> (int, int) {
    (p.x as int, p.y as int)
}

/// Identity of a registered floor type; only the floor registry that issued
/// it gives it meaning.
#[derive(Debug, Clone, Copy, PartialEq, Eq, PartialOrd, Ord, Hash, Structural)]
pub struct FloorTypeId(usize);

/// Identity of a registered wall type.
#[derive(Debug, Clone, Copy, PartialEq, Eq, PartialOrd, Ord, Hash, Structural)]
pub struct WallTypeId(usize);

/// Identity of a registered entity type.
#[derive(Debug, Clone, Copy, PartialEq, Eq, PartialOrd, Ord, Hash, Structural)]
pub struct EntityTypeId(usize);

impl View for FloorTypeId {
    type V = int;

    closed spec fn view(&self) -> int {
        self.0 as int
    }
}

impl View for WallTypeId {
    type V = int;

    closed spec fn view(&self) -> int {
        self.0 as int
    }
}

impl View for EntityTypeId {
    type V = int;

    closed spec fn view(&self) -> int {
        self.0 as int
    }
}

/// Kinds of tool a breakable wall may demand.
#[derive(Debug, Clone, Copy, PartialEq, Eq, Structural)]
pub enum ToolKind {
    Sword,
    Dagger,
    Scythe,
    Hammer,
    Whip,
    Bow,
    Crossbow,
    Pickaxe,
    Axe,
    Shovel,
}

/// Definition of a floor category: its asset name and whether entities may
/// walk on it.  Walkable defaults to true.
#[derive(Debug)]
pub struct FloorType {
    pub asset: String,
    pub walkable: bool,
}

impl FloorType {
    pub fn new(asset: String) -> (t: Self)
        ensures
            t.asset == asset,
            t.walkable == true,
    {
        Self { asset, walkable: true }
    }

    pub fn non_walkable(self) -> (t: Self)
        ensures
            t.asset == self.asset,
            t.walkable == false,
    {
        Self { walkable: false, ..self }
    }
}

/// A floor instance occupying one grid cell; it carries only the id of its
/// registered type.
#[derive(Debug, Clone, Copy, PartialEq, Eq, Structural)]
pub struct Floor {
    pub type_id: FloorTypeId,
}

impl FloorTypeId {
    pub fn instance(self) -> (f: Floor)
        ensures
            f.type_id == self,
    {
        Floor { type_id: self }
    }
}

/// How a wall may be destroyed: the tool kind required and the number of
/// hits it takes.
#[derive(Debug, Clone, Copy, PartialEq, Eq, Structural)]
pub struct Breakable {
    pub tool_kind: ToolKind,
    pub hits: usize,
}

/// Definition of a wall category: its asset name and an optional
/// breakability descriptor (absent means indestructible).
#[derive(Debug)]
pub struct WallType {
    pub asset: String,
    pub breakable: Option<Breakable>,
}

impl WallType {
    pub fn new(asset: String) -> (t: Self)
        ensures
            t.asset == asset,
            t.breakable is None,
    {
        Self { asset, breakable: None }
    }

    pub fn breakable(self, tool_kind: ToolKind, hits: usize) -> (t: Self)
        ensures
            t.asset == self.asset,
            t.breakable == Some(Breakable { tool_kind, hits }),
    {
        Self { breakable: Some(Breakable { tool_kind, hits }), ..self }
    }
}

/// A wall instance occupying one grid cell.
#[derive(Debug, Clone, Copy, PartialEq, Eq, Structural)]
pub struct Wall {
    pub type_id: WallTypeId,
}

impl WallTypeId {
    pub fn instance(self) -> (w: Wall)
        ensures
            w.type_id == self,
    {
        Wall { type_id: self }
    }
}

/// Definition of an entity category: its default asset name.
#[derive(Debug)]
pub struct EntityType {
    pub asset: String,
}

impl EntityType {
    pub fn new(asset: String) -> (t: Self)
        ensures
            t.asset == asset,
    {
        Self { asset }
    }
}

/// Identity of a spawned entity: globally unique within its store, assigned
/// monotonically and never reused.
#[derive(Debug, Clone, Copy, PartialEq, Eq, PartialOrd, Ord, Hash, Structural)]
pub struct EntityId(usize);

impl View for EntityId {
    type V = int;

    closed spec fn view(&self) -> int {
        self.0 as int
    }
}

impl From<EntityId> for usize {
    fn from(id: EntityId) -> (n: usize) {
        id.0
    }
}

impl vstd::std_specs::convert::FromSpecImpl<EntityId> for usize {
    open spec fn obeys_from_spec() -> bool {
        true
    }

    open spec fn from_spec(id: EntityId) -> usize {
        id@ as usize
    }
}

/// Two entity ids are the same exactly when they denote the same integer.
pub broadcast proof fn lemma_entity_id_view_eq(a: EntityId, b: EntityId)
    ensures
        #![trigger a@, b@]
        (a@ == b@) <==> (a == b),
{
}

/// A live entity: its registered type, its position (free, not tied to any
/// placed tile) and an optional asset override that takes precedence over
/// the type's default asset.
#[derive(Debug)]
pub struct Entity {
    pub type_id: EntityTypeId,
    pub pos: Vec2,
    pub asset: Option<String>,
}

impl EntityTypeId {
    pub fn instance(self, pos: Vec2) -> (e: Entity)
        ensures
            e.type_id == self,
            e.pos == pos,
            e.asset is None,
    {
        Entity { type_id: self, pos, asset: None }
    }
}

impl Entity {
    pub fn asset(self, asset: String) -> (e: Self)
        ensures
            e.type_id == self.type_id,
            e.pos == self.pos,
            e.asset == Some(asset),
    {
        Self { asset: Some(asset), ..self }
    }
}

/// Index of the reserved "player-controllable" entity type, registered by
/// every freshly created store before any other entity type.
pub open spec fn player_type_index() -> int {
    0
}

/// The reserved entity-type id whose entities form the pool of player
/// identities.
pub fn player_entity_type_id() -> (id: EntityTypeId)
    ensures
        id@ == player_type_index(),
{
    EntityTypeId(0)
}

/// The authoritative world-state store.  All world data is mutated through
/// the verified primitives of this type; no other channel exists.
#[derive(Debug)]
pub struct State {
    floor_types: Vec<FloorType>,
    wall_types: Vec<WallType>,
    entity_types: Vec<EntityType>,
    floors: Vec<(Vec2, Floor)>,
    walls: Vec<(Vec2, Wall)>,
    entities: Vec<Entity>,
}

/// The partial map denoted by an association list of placed tiles; a later
/// entry for the same cell overrides an earlier one.
pub open spec fn entries_map<T>(s: Seq<(Vec2, T)>) -> Map<(int, int), T>
    decreases s.len(),
{
    if s.len() == 0 {
        Map::empty()
    } else {
        entries_map(s.drop_last()).insert(pos_key(s.last().0), s.last().1)
    }
}

impl State {
    /// Registered floor definitions, indexed by issued id.
    pub closed spec fn floor_defs(&self) -> Seq<FloorType> {
        self.floor_types@
    }

    /// Registered wall definitions, indexed by issued id.
    pub closed spec fn wall_defs(&self) -> Seq<WallType> {
        self.wall_types@
    }

    /// Registered entity definitions, indexed by issued id.
    pub closed spec fn entity_defs(&self) -> Seq<EntityType> {
        self.entity_types@
    }

    /// The placed floor cells, in placement order, each cell at most once.
    pub closed spec fn floors_seq(&self) -> Seq<(Vec2, Floor)> {
        self.floors@
    }

    /// The placed wall cells, in placement order, each cell at most once.
    pub closed spec fn walls_seq(&self) -> Seq<(Vec2, Wall)> {
        self.walls@
    }

    /// The live entities, indexed by issued entity id.
    pub closed spec fn entities_seq(&self) -> Seq<Entity> {
        self.entities@
    }

    /// The floor layer as a map from cell to instance.
    pub open spec fn floor_map(&self) -> Map<(int, int), Floor> {
        entries_map(self.floors_seq())
    }

    /// The wall layer as a map from cell to instance.
    pub open spec fn wall_map(&self) -> Map<(int, int), Wall> {
        entries_map(self.walls_seq())
    }

    /// Well-formedness: the reserved player entity type exists, every
    /// instance references an issued type id, and each cell occurs at most
    /// once per layer.
    pub open spec fn wf(&self) -> bool {
        &&& self.entity_defs().len() >= 1
        &&& forall|i: int|
            0 <= i < self.floors_seq().len() ==> (#[trigger] self.floors_seq()[i]).1.type_id@
                < self.floor_defs().len()
        &&& forall|i: int|
            0 <= i < self.walls_seq().len() ==> (#[trigger] self.walls_seq()[i]).1.type_id@
                < self.wall_defs().len()
        &&& forall|i: int|
            0 <= i < self.entities_seq().len() ==> (#[trigger] self.entities_seq()[i]).type_id@
                < self.entity_defs().len()
        &&& forall|i: int, j: int|
            0 <= i < j < self.floors_seq().len() ==> pos_key(#[trigger] self.floors_seq()[i].0)
                != pos_key(#[trigger] self.floors_seq()[j].0)
        &&& forall|i: int, j: int|
            0 <= i < j < self.walls_seq().len() ==> pos_key(#[trigger] self.walls_seq()[i].0)
                != pos_key(#[trigger] self.walls_seq()[j].0)
    }
}

impl Default for State {
    /// A fresh store: no floors, walls or entities, no registrations except
    /// the reserved player entity type.
    fn default() -> (s: Self)
        ensures
            s.wf(),
            s.floor_defs() =~= Seq::<FloorType>::empty(),
            s.wall_defs() =~= Seq::<WallType>::empty(),
            s.entity_defs().len() == 1,
            s.entity_defs()[player_type_index()].asset@ =~= Seq::<char>::empty(),
            s.floors_seq() =~= Seq::<(Vec2, Floor)>::empty(),
            s.walls_seq() =~= Seq::<(Vec2, Wall)>::empty(),
            s.entities_seq() =~= Seq::<Entity>::empty(),
    {
        let mut entity_types: Vec<EntityType> = Vec::new();
        entity_types.push(EntityType { asset: String::new() });
        Self {
            floor_types: Vec::new(),
            wall_types: Vec::new(),
            entity_types,
            floors: Vec::new(),
            walls: Vec::new(),
            entities: Vec::new(),
        }
    }
}

/// Well-formedness only depends on the instances and on the registries'
/// sizes, so it survives any change that keeps the instances and does not
/// shrink a registry.
proof fn lemma_wf_preserved_on_defs_growth(pre: State, post: State)
    requires
        pre.wf(),
        post.floors_seq() == pre.floors_seq(),
        post.walls_seq() == pre.walls_seq(),
        post.entities_seq() == pre.entities_seq(),
        pre.floor_defs().len() <= post.floor_defs().len(),
        pre.wall_defs().len() <= post.wall_defs().len(),
        pre.entity_defs().len() <= post.entity_defs().len(),
    ensures
        post.wf(),
{
    assert forall|i: int| 0 <= i < post.floors_seq().len() implies (
    #[trigger] post.floors_seq()[i]).1.type_id@ < post.floor_defs().len() by {
        assert(pre.floors_seq()[i].1.type_id@ < pre.floor_defs().len());
    }
    assert forall|i: int| 0 <= i < post.walls_seq().len() implies (
    #[trigger] post.walls_seq()[i]).1.type_id@ < post.wall_defs().len() by {
        assert(pre.walls_seq()[i].1.type_id@ < pre.wall_defs().len());
    }
    assert forall|i: int| 0 <= i < post.entities_seq().len() implies (
    #[trigger] post.entities_seq()[i]).type_id@ < post.entity_defs().len() by {
        assert(pre.entities_seq()[i].type_id@ < pre.entity_defs().len());
    }
    assert forall|i: int, j: int| 0 <= i < j < post.floors_seq().len() implies pos_key(
    #[trigger] post.floors_seq()[i].0) != pos_key(#[trigger] post.floors_seq()[j].0) by {
        assert(pos_key(pre.floors_seq()[i].0) != pos_key(pre.floors_seq()[j].0));
    }
    assert forall|i: int, j: int| 0 <= i < j < post.walls_seq().len() implies pos_key(
    #[trigger] post.walls_seq()[i].0) != pos_key(#[trigger] post.walls_seq()[j].0) by {
        assert(pos_key(pre.walls_seq()[i].0) != pos_key(pre.walls_seq()[j].0));
    }
}

/// The registry interface shared by the three type families: `insert_type`
/// issues a fresh id for a definition, `resolve`-style `get_type` returns
/// the definition an id was issued for.
pub trait ObjectType<Type, TypeId> {
    /// The definitions issued so far, indexed by id.
    spec fn defs(&self) -> Seq<Type>;

    /// The integer denoted by an id of this family.
    spec fn type_id_view(id: TypeId) -> int;

    /// Registry well-formedness, preserved by every registration.
    spec fn reg_wf(&self) -> bool;

    /// Nothing outside this family's registry changed.
    spec fn only_defs_changed(pre: &Self, post: &Self) -> bool;

    /// Appends the definition and returns a freshly minted id: equal to the
    /// number of earlier registrations, hence unique and strictly larger
    /// than every id issued before.  Never fails.
    fn insert_type(&mut self, value: Type) -> (id: TypeId)
        requires
            old(self).reg_wf(),
        ensures
            final(self).reg_wf(),
            Self::type_id_view(id) == old(self).defs().len(),
            final(self).defs() == old(self).defs().push(value),
            Self::only_defs_changed(old(self), final(self)),
    ;

    /// Returns the definition the id was issued for.  An id never issued by
    /// this registry is a programmer error, unreachable in a correct
    /// system, and is excluded by the precondition.
    fn get_type(&self, type_id: TypeId) -> (t: &Type)
        requires
            Self::type_id_view(type_id) < self.defs().len(),
        ensures
            *t == self.defs()[Self::type_id_view(type_id)],
    ;
}

impl ObjectType<FloorType, FloorTypeId> for State {
    open spec fn defs(&self) -> Seq<FloorType> {
        self.floor_defs()
    }

    open spec fn type_id_view(id: FloorTypeId) -> int {
        id@
    }

    open spec fn reg_wf(&self) -> bool {
        self.wf()
    }

    open spec fn only_defs_changed(pre: &Self, post: &Self) -> bool {
        &&& post.wall_defs() == pre.wall_defs()
        &&& post.entity_defs() == pre.entity_defs()
        &&& post.floors_seq() == pre.floors_seq()
        &&& post.walls_seq() == pre.walls_seq()
        &&& post.entities_seq() == pre.entities_seq()
    }

    fn insert_type(&mut self, value: FloorType) -> (id: FloorTypeId) {
        let id = FloorTypeId(self.floor_types.len());
        self.floor_types.push(value);
        proof {
            lemma_wf_preserved_on_defs_growth(*old(self), *self);
        }
        id
    }

    fn get_type(&self, type_id: FloorTypeId) -> (t: &FloorType) {
        &self.floor_types[type_id.0]
    }
}

impl ObjectType<WallType, WallTypeId> for State {
    open spec fn defs(&self) -> Seq<WallType> {
        self.wall_defs()
    }

    open spec fn type_id_view(id: WallTypeId) -> int {
        id@
    }

    open spec fn reg_wf(&self) -> bool {
        self.wf()
    }

    open spec fn only_defs_changed(pre: &Self, post: &Self) -> bool {
        &&& post.floor_defs() == pre.floor_defs()
        &&& post.entity_defs() == pre.entity_defs()
        &&& post.floors_seq() == pre.floors_seq()
        &&& post.walls_seq() == pre.walls_seq()
        &&& post.entities_seq() == pre.entities_seq()
    }

    fn insert_type(&mut self, value: WallType) -> (id: WallTypeId) {
        let id = WallTypeId(self.wall_types.len());
        self.wall_types.push(value);
        proof {
            lemma_wf_preserved_on_defs_growth(*old(self), *self);
        }
        id
    }

    fn get_type(&self, type_id: WallTypeId) -> (t: &WallType) {
        &self.wall_types[type_id.0]
    }
}

impl ObjectType<EntityType, EntityTypeId> for State {
    open spec fn defs(&self) -> Seq<EntityType> {
        self.entity_defs()
    }

    open spec fn type_id_view(id: EntityTypeId) -> int {
        id@
    }

    open spec fn reg_wf(&self) -> bool {
        self.wf()
    }

    open spec fn only_defs_changed(pre: &Self, post: &Self) -> bool {
        &&& post.floor_defs() == pre.floor_defs()
        &&& post.wall_defs() == pre.wall_defs()
        &&& post.floors_seq() == pre.floors_seq()
        &&& post.walls_seq() == pre.walls_seq()
        &&& post.entities_seq() == pre.entities_seq()
    }

    fn insert_type(&mut self, value: EntityType) -> (id: EntityTypeId) {
        let id = EntityTypeId(self.entity_types.len());
        self.entity_types.push(value);
        proof {
            lemma_wf_preserved_on_defs_growth(*old(self), *self);
        }
        id
    }

    fn get_type(&self, type_id: EntityTypeId) -> (t: &EntityType) {
        &self.entity_types[type_id.0]
    }
}

} // verus!

use vstd::prelude::*;

verus! {

broadcast use vstd::seq_lib::group_seq_lib_default, vstd::seq::group_seq_axioms;

/// Whether a cell lies in the inclusive rectangle spanned by `min` and
/// `max` (empty when a minimum exceeds the corresponding maximum).
pub open spec fn in_rect(p: (int, int), min: Vec2, max: Vec2) -> bool {
    min.x as int <= p.0 <= max.x as int && min.y as int <= p.1 <= max.y as int
}

/// Whether a cell lies on the border drawn by `place_frame`: the top and
/// bottom rows in full, plus the left and right columns between them.
pub open spec fn on_frame(p: (int, int), min: Vec2, max: Vec2) -> bool {
    ||| ((p.1 == min.y as int || p.1 == max.y as int) && (min.x as int) <= p.0 <= (max.x as int))
    ||| ((p.0 == min.x as int || p.0 == max.x as int) && (min.y as int) < p.1 < (max.y as int))
}

/// Updating the entry that names a cell updates the layer map at that cell
/// and nowhere else.
proof fn lemma_entries_map_update<T>(s: Seq<(Vec2, T)>, i: int, p: Vec2, t: T)
    requires
        0 <= i < s.len(),
        pos_key(s[i].0) == pos_key(p),
        forall|a: int, b: int|
            0 <= a < b < s.len() ==> pos_key((#[trigger] s[a]).0) != pos_key((#[trigger] s[b]).0),
    ensures
        entries_map(s.update(i, (p, t))) =~= entries_map(s).insert(pos_key(p), t),
    decreases s.len(),
{
    let s2 = s.update(i, (p, t));
    if i == s.len() - 1 {
        assert(s2.drop_last() =~= s.drop_last());
        assert(s2.last() == (p, t));
    } else {
        assert(s2.drop_last() =~= s.drop_last().update(i, (p, t)));
        assert(s2.last() == s.last());
        assert(s.drop_last()[i] == s[i]);
        lemma_entries_map_update(s.drop_last(), i, p, t);
        assert(pos_key(s[i].0) != pos_key(s[s.len() - 1].0));
    }
}

/// Well-formedness after a change confined to the floor layer, given the
/// floor conditions hold of the new list.
proof fn lemma_wf_floors_changed(pre: State, post: State)
    requires
        pre.wf(),
        post.floor_defs() == pre.floor_defs(),
        post.wall_defs() == pre.wall_defs(),
        post.entity_defs() == pre.entity_defs(),
        post.walls_seq() == pre.walls_seq(),
        post.entities_seq() == pre.entities_seq(),
        forall|j: int|
            0 <= j < post.floors_seq().len() ==> (#[trigger] post.floors_seq()[j]).1.type_id@
                < post.floor_defs().len(),
        forall|a: int, b: int|
            0 <= a < b < post.floors_seq().len() ==> pos_key(#[trigger] post.floors_seq()[a].0)
                != pos_key(#[trigger] post.floors_seq()[b].0),
    ensures
        post.wf(),
{
    assert forall|i: int| 0 <= i < post.walls_seq().len() implies (
    #[trigger] post.walls_seq()[i]).1.type_id@ < post.wall_defs().len() by {
        assert(pre.walls_seq()[i].1.type_id@ < pre.wall_defs().len());
    }
    assert forall|i: int| 0 <= i < post.entities_seq().len() implies (
    #[trigger] post.entities_seq()[i]).type_id@ < post.entity_defs().len() by {
        assert(pre.entities_seq()[i].type_id@ < pre.entity_defs().len());
    }
    assert forall|i: int, j: int| 0 <= i < j < post.walls_seq().len() implies pos_key(
    #[trigger] post.walls_seq()[i].0) != pos_key(#[trigger] post.walls_seq()[j].0) by {
        assert(pos_key(pre.walls_seq()[i].0) != pos_key(pre.walls_seq()[j].0));
    }
}

/// Well-formedness after a change confined to the wall layer, given the
/// wall conditions hold of the new list.
proof fn lemma_wf_walls_changed(pre: State, post: State)
    requires
        pre.wf(),
        post.floor_defs() == pre.floor_defs(),
        post.wall_defs() == pre.wall_defs(),
        post.entity_defs() == pre.entity_defs(),
        post.floors_seq() == pre.floors_seq(),
        post.entities_seq() == pre.entities_seq(),
        forall|j: int|
            0 <= j < post.walls_seq().len() ==> (#[trigger] post.walls_seq()[j]).1.type_id@
                < post.wall_defs().len(),
        forall|a: int, b: int|
            0 <= a < b < post.walls_seq().len() ==> pos_key(#[trigger] post.walls_seq()[a].0)
                != pos_key(#[trigger] post.walls_seq()[b].0),
    ensures
        post.wf(),
{
    assert forall|i: int| 0 <= i < post.floors_seq().len() implies (
    #[trigger] post.floors_seq()[i]).1.type_id@ < post.floor_defs().len() by {
        assert(pre.floors_seq()[i].1.type_id@ < pre.floor_defs().len());
    }
    assert forall|i: int| 0 <= i < post.entities_seq().len() implies (
    #[trigger] post.entities_seq()[i]).type_id@ < post.entity_defs().len() by {
        assert(pre.entities_seq()[i].type_id@ < pre.entity_defs().len());
    }
    assert forall|i: int, j: int| 0 <= i < j < post.floors_seq().len() implies pos_key(
    #[trigger] post.floors_seq()[i].0) != pos_key(#[trigger] post.floors_seq()[j].0) by {
        assert(pos_key(pre.floors_seq()[i].0) != pos_key(pre.floors_seq()[j].0));
    }
}

/// The interface of the two placement layers (floors, walls): `place` binds
/// one cell to one instance, overwriting any previous occupant of that
/// layer.
pub trait Place<Tile> {
    /// The layer being placed into, as a map from cell to instance.
    spec fn layer(&self) -> Map<(int, int), Tile>;

    /// The layer's placement list, the order snapshots are built in: one
    /// entry per occupied cell, earlier placements first.
    spec fn layer_entries(&self) -> Seq<(Vec2, Tile)>;

    /// Store well-formedness, preserved by every placement.
    spec fn place_wf(&self) -> bool;

    /// The instance references an issued type id of its family.
    spec fn tile_type_ok(&self, tile: Tile) -> bool;

    /// Nothing outside this layer changed, including every registry.
    spec fn only_layer_changed(pre: &Self, post: &Self) -> bool;

    proof fn lemma_only_layer_changed_refl(a: &Self)
        ensures
            Self::only_layer_changed(a, a),
    ;

    proof fn lemma_only_layer_changed_trans(a: &Self, b: &Self, c: &Self)
        requires
            Self::only_layer_changed(a, b),
            Self::only_layer_changed(b, c),
        ensures
            Self::only_layer_changed(a, c),
    ;

    proof fn lemma_only_layer_changed_keeps_tile(a: &Self, b: &Self, tile: Tile)
        requires
            Self::only_layer_changed(a, b),
            a.tile_type_ok(tile),
        ensures
            b.tile_type_ok(tile),
    ;

    /// Binds the cell to the instance; the previous occupant of the cell on
    /// this layer, if any, is overwritten.
    fn place(&mut self, pos: Vec2, tile: Tile)
        requires
            old(self).place_wf(),
            old(self).tile_type_ok(tile),
        ensures
            final(self).place_wf(),
            final(self).layer() == old(self).layer().insert(pos_key(pos), tile),
            Self::only_layer_changed(old(self), final(self)),
            final(self).layer_entries().len() >= old(self).layer_entries().len(),
            forall|i: int|
                0 <= i < old(self).layer_entries().len() ==> (#[trigger] final(self).layer_entries()[i]).0
                    == old(self).layer_entries()[i].0 && (pos_key(old(self).layer_entries()[i].0)
                    != pos_key(pos) ==> final(self).layer_entries()[i] == old(self).layer_entries()[i]),
            forall|i: int|
                old(self).layer_entries().len() <= i < final(self).layer_entries().len()
                    ==> pos_key((#[trigger] final(self).layer_entries()[i]).0) == pos_key(pos),
    ;
}

/// First entry of the association list that names the cell, if any.
fn layer_index<T>(entries: &Vec<(Vec2, T)>, pos: Vec2) -> (r: Option<usize>)
    ensures
        match r {
            Some(i) => i < entries@.len() && pos_key(entries@[i as int].0) == pos_key(pos),
            None => forall|j: int|
                0 <= j < entries@.len() ==> pos_key((#[trigger] entries@[j]).0) != pos_key(pos),
        },
{
    let mut i: usize = 0;
    while i < entries.len()
        invariant
            i <= entries@.len(),
            forall|j: int| 0 <= j < i ==> pos_key((#[trigger] entries@[j]).0) != pos_key(pos),
        decreases entries@.len() - i,
    {
        if entries[i].0 == pos {
            return Some(i);
        }
        i = i + 1;
    }
    None
}

impl Place<Floor> for State {
    open spec fn layer(&self) -> Map<(int, int), Floor> {
        self.floor_map()
    }

    open spec fn layer_entries(&self) -> Seq<(Vec2, Floor)> {
        self.floors_seq()
    }

    open spec fn place_wf(&self) -> bool {
        self.wf()
    }

    open spec fn tile_type_ok(&self, tile: Floor) -> bool {
        tile.type_id@ < self.floor_defs().len()
    }

    open spec fn only_layer_changed(pre: &Self, post: &Self) -> bool {
        &&& post.floor_defs() == pre.floor_defs()
        &&& post.wall_defs() == pre.wall_defs()
        &&& post.entity_defs() == pre.entity_defs()
        &&& post.walls_seq() == pre.walls_seq()
        &&& post.entities_seq() == pre.entities_seq()
    }

    proof fn lemma_only_layer_changed_refl(a: &Self) {
    }

    proof fn lemma_only_layer_changed_trans(a: &Self, b: &Self, c: &Self) {
    }

    proof fn lemma_only_layer_changed_keeps_tile(a: &Self, b: &Self, tile: Floor) {
    }

    fn place(&mut self, pos: Vec2, tile: Floor) {
        match layer_index(&self.floors, pos) {
            Some(i) => {
                self.floors[i] = (pos, tile);
                proof {
                    lemma_entries_map_update(old(self).floors_seq(), i as int, pos, tile);
                    assert forall|j: int| 0 <= j < self.floors_seq().len() implies (
                    #[trigger] self.floors_seq()[j]).1.type_id@ < self.floor_defs().len() by {
                        if j != i as int {
                            assert(self.floors_seq()[j] == old(self).floors_seq()[j]);
                            assert(old(self).floors_seq()[j].1.type_id@
                                < old(self).floor_defs().len());
                        }
                    }
                    assert forall|a: int, b: int| 0 <= a < b < self.floors_seq().len() implies
                        pos_key((#[trigger] self.floors_seq()[a]).0) != pos_key((
                    #[trigger] self.floors_seq()[b]).0) by {
                        assert(pos_key(old(self).floors_seq()[a].0) != pos_key(
                            old(self).floors_seq()[b].0));
                        assert(pos_key(self.floors_seq()[a].0) == pos_key(
                            old(self).floors_seq()[a].0));
                        assert(pos_key(self.floors_seq()[b].0) == pos_key(
                            old(self).floors_seq()[b].0));
                    }
                }
                proof {
                    lemma_wf_floors_changed(*old(self), *self);
                }
            },
            None => {
                self.floors.push((pos, tile));
                proof {
                    assert(self.floors_seq().drop_last() =~= old(self).floors_seq());
                    assert forall|j: int| 0 <= j < self.floors_seq().len() implies (
                    #[trigger] self.floors_seq()[j]).1.type_id@ < self.floor_defs().len() by {
                        if j != self.floors_seq().len() - 1 {
                            assert(self.floors_seq()[j] == old(self).floors_seq()[j]);
                            assert(old(self).floors_seq()[j].1.type_id@
                                < old(self).floor_defs().len());
                        }
                    }
                    assert forall|a: int, b: int| 0 <= a < b < self.floors_seq().len() implies
                        pos_key((#[trigger] self.floors_seq()[a]).0) != pos_key((
                    #[trigger] self.floors_seq()[b]).0) by {
                        if b < self.floors_seq().len() - 1 {
                            assert(pos_key(old(self).floors_seq()[a].0) != pos_key(
                                old(self).floors_seq()[b].0));
                        } else {
                            assert(pos_key(old(self).floors_seq()[a].0) != pos_key(pos));
                        }
                    }
                }
                proof {
                    lemma_wf_floors_changed(*old(self), *self);
                }
            },
        }
    }
}

impl Place<Wall> for State {
    open spec fn layer(&self) -> Map<(int, int), Wall> {
        self.wall_map()
    }

    open spec fn layer_entries(&self) -> Seq<(Vec2, Wall)> {
        self.walls_seq()
    }

    open spec fn place_wf(&self) -> bool {
        self.wf()
    }

    open spec fn tile_type_ok(&self, tile: Wall) -> bool {
        tile.type_id@ < self.wall_defs().len()
    }

    open spec fn only_layer_changed(pre: &Self, post: &Self) -> bool {
        &&& post.floor_defs() == pre.floor_defs()
        &&& post.wall_defs() == pre.wall_defs()
        &&& post.entity_defs() == pre.entity_defs()
        &&& post.floors_seq() == pre.floors_seq()
        &&& post.entities_seq() == pre.entities_seq()
    }

    proof fn lemma_only_layer_changed_refl(a: &Self) {
    }

    proof fn lemma_only_layer_changed_trans(a: &Self, b: &Self, c: &Self) {
    }

    proof fn lemma_only_layer_changed_keeps_tile(a: &Self, b: &Self, tile: Wall) {
    }

    fn place(&mut self, pos: Vec2, tile: Wall) {
        match layer_index(&self.walls, pos) {
            Some(i) => {
                self.walls[i] = (pos, tile);
                proof {
                    lemma_entries_map_update(old(self).walls_seq(), i as int, pos, tile);
                    assert forall|j: int| 0 <= j < self.walls_seq().len() implies (
                    #[trigger] self.walls_seq()[j]).1.type_id@ < self.wall_defs().len() by {
                        if j != i as int {
                            assert(self.walls_seq()[j] == old(self).walls_seq()[j]);
                            assert(old(self).walls_seq()[j].1.type_id@
                                < old(self).wall_defs().len());
                        }
                    }
                    assert forall|a: int, b: int| 0 <= a < b < self.walls_seq().len() implies
                        pos_key((#[trigger] self.walls_seq()[a]).0) != pos_key((
                    #[trigger] self.walls_seq()[b]).0) by {
                        assert(pos_key(old(self).walls_seq()[a].0) != pos_key(
                            old(self).walls_seq()[b].0));
                        assert(pos_key(self.walls_seq()[a].0) == pos_key(
                            old(self).walls_seq()[a].0));
                        assert(pos_key(self.walls_seq()[b].0) == pos_key(
                            old(self).walls_seq()[b].0));
                    }
                }
                proof {
                    lemma_wf_walls_changed(*old(self), *self);
                }
            },
            None => {
                self.walls.push((pos, tile));
                proof {
                    assert(self.walls_seq().drop_last() =~= old(self).walls_seq());
                    assert forall|j: int| 0 <= j < self.walls_seq().len() implies (
                    #[trigger] self.walls_seq()[j]).1.type_id@ < self.wall_defs().len() by {
                        if j != self.walls_seq().len() - 1 {
                            assert(self.walls_seq()[j] == old(self).walls_seq()[j]);
                            assert(old(self).walls_seq()[j].1.type_id@
                                < old(self).wall_defs().len());
                        }
                    }
                    assert forall|a: int, b: int| 0 <= a < b < self.walls_seq().len() implies
                        pos_key((#[trigger] self.walls_seq()[a]).0) != pos_key((
                    #[trigger] self.walls_seq()[b]).0) by {
                        if b < self.walls_seq().len() - 1 {
                            assert(pos_key(old(self).walls_seq()[a].0) != pos_key(
                                old(self).walls_seq()[b].0));
                        } else {
                            assert(pos_key(old(self).walls_seq()[a].0) != pos_key(pos));
                        }
                    }
                }
                proof {
                    lemma_wf_walls_changed(*old(self), *self);
                }
            },
        }
    }
}

} // verus!

verus! {

/// Cells of one horizontal run: row `y`, columns `x0` through `x1`.
spec fn row_cells(p: (int, int), y: int, x0: int, x1: int) -> bool {
    p.1 == y && x0 <= p.0 <= x1
}

/// Cells of one vertical run with open ends: column `x`, rows strictly
/// between `y0` and `y1`.
spec fn col_cells(p: (int, int), x: int, y0: int, y1: int) -> bool {
    p.0 == x && y0 < p.1 < y1
}

/// The layer a tile type selects, see `Place::layer`.
pub open spec fn layer_of<Tile>(s: &State) -> Map<(int, int), Tile> where State: Place<Tile> {
    <State as Place<Tile>>::layer(s)
}

/// See `Place::place_wf`.
pub open spec fn layer_wf<Tile>(s: &State) -> bool where State: Place<Tile> {
    <State as Place<Tile>>::place_wf(s)
}

/// See `Place::tile_type_ok`.
pub open spec fn layer_tile_ok<Tile>(s: &State, tile: Tile) -> bool where State: Place<Tile> {
    <State as Place<Tile>>::tile_type_ok(s, tile)
}

/// See `Place::only_layer_changed`.
pub open spec fn layer_only_changed<Tile>(a: &State, b: &State) -> bool where State: Place<Tile> {
    <State as Place<Tile>>::only_layer_changed(a, b)
}

/// The cell is bound to the tile on the selected layer.
pub open spec fn cell_is<Tile>(s: &State, p: (int, int), tile: Tile) -> bool where
    State: Place<Tile>,
 {
    layer_of::<Tile>(s).dom().contains(p) && layer_of::<Tile>(s)[p] == tile
}

/// The cell is bound (or unbound) exactly as it was in `pre`.
pub open spec fn cell_unchanged<Tile>(pre: &State, post: &State, p: (int, int)) -> bool where
    State: Place<Tile>,
 {
    (layer_of::<Tile>(post).dom().contains(p) <==> layer_of::<Tile>(pre).dom().contains(p))
        && (layer_of::<Tile>(pre).dom().contains(p) ==> layer_of::<Tile>(post)[p] == layer_of::<
        Tile,
    >(pre)[p])
}

/// See `Place::layer_entries`.
pub open spec fn entries_of<Tile>(s: &State) -> Seq<(Vec2, Tile)> where State: Place<Tile> {
    <State as Place<Tile>>::layer_entries(s)
}

/// How a run of placements confined to `region` relates the placement
/// list: every earlier entry keeps its index and cell, an entry whose cell
/// lies outside the region keeps its value too, and every appended entry
/// lies inside the region.
pub open spec fn entries_pinned<Tile>(
    pre: &State,
    post: &State,
    region: spec_fn((int, int)) -> bool,
) -> bool where State: Place<Tile> {
    &&& entries_of::<Tile>(post).len() >= entries_of::<Tile>(pre).len()
    &&& forall|i: int|
        0 <= i < entries_of::<Tile>(pre).len() ==> (#[trigger] entries_of::<Tile>(post)[i]).0
            == entries_of::<Tile>(pre)[i].0 && (!region(pos_key(entries_of::<Tile>(pre)[i].0))
            ==> entries_of::<Tile>(post)[i] == entries_of::<Tile>(pre)[i])
    &&& forall|i: int|
        entries_of::<Tile>(pre).len() <= i < entries_of::<Tile>(post).len() ==> region(
            pos_key((#[trigger] entries_of::<Tile>(post)[i]).0),
        )
}

/// Two pinned runs compose into one pinned to any region covering both.
proof fn lemma_entries_pinned_trans<Tile>(
    a: &State,
    b: &State,
    c: &State,
    r1: spec_fn((int, int)) -> bool,
    r2: spec_fn((int, int)) -> bool,
    r: spec_fn((int, int)) -> bool,
) where State: Place<Tile>
    requires
        entries_pinned::<Tile>(a, b, r1),
        entries_pinned::<Tile>(b, c, r2),
        forall|q: (int, int)| #[trigger] r1(q) ==> r(q),
        forall|q: (int, int)| #[trigger] r2(q) ==> r(q),
    ensures
        entries_pinned::<Tile>(a, c, r),
{
    let ea = entries_of::<Tile>(a);
    let eb = entries_of::<Tile>(b);
    let ec = entries_of::<Tile>(c);
    assert forall|i: int| 0 <= i < ea.len() implies (#[trigger] ec[i]).0 == ea[i].0 && (!r(
        pos_key(ea[i].0),
    ) ==> ec[i] == ea[i]) by {
        assert(eb[i].0 == ea[i].0);
        assert(ec[i].0 == eb[i].0);
    }
    assert forall|i: int| ea.len() <= i < ec.len() implies r(
        pos_key((#[trigger] ec[i]).0),
    ) by {
        if i < eb.len() {
            assert(r1(pos_key(eb[i].0)));
            assert(ec[i].0 == eb[i].0);
        } else {
            assert(r2(pos_key(ec[i].0)));
        }
    }
}

impl State {
    /// Places the tile on every cell of one row segment.
    fn place_row<Tile: Copy>(&mut self, y: i32, x0: i32, x1: i32, tile: Tile) where
        Self: Place<Tile>,

        requires
            layer_wf::<Tile>(old(self)),
            layer_tile_ok::<Tile>(old(self), tile),
        ensures
            layer_wf::<Tile>(final(self)),
            layer_tile_ok::<Tile>(final(self), tile),
            layer_only_changed::<Tile>(old(self), final(self)),
            forall|p: (int, int)|
                row_cells(p, y as int, x0 as int, x1 as int) ==> cell_is(final(self), p, tile),
            forall|p: (int, int)|
                !row_cells(p, y as int, x0 as int, x1 as int) ==> cell_unchanged::<Tile>(
                    old(self), final(self), p),
            entries_pinned::<Tile>(
                old(self),
                final(self),
                (|q: (int, int)| row_cells(q, y as int, x0 as int, x1 as int)),
            ),
    {
        proof {
            <State as Place<Tile>>::lemma_only_layer_changed_refl(old(self));
        }
        let ghost pre = *self;
        let mut x: i64 = x0 as i64;
        while x <= x1 as i64
            invariant
                (x0 as int) <= x,
                layer_wf::<Tile>(self),
                layer_tile_ok::<Tile>(self, tile),
                layer_only_changed::<Tile>(&pre, self),
                forall|p: (int, int)|
                    row_cells(p, y as int, x0 as int, x1 as int) && p.0 < x ==> cell_is(
                        self, p, tile),
                forall|p: (int, int)|
                    !(row_cells(p, y as int, x0 as int, x1 as int) && p.0 < x)
                        ==> cell_unchanged::<Tile>(&pre, self, p),
                entries_pinned::<Tile>(
                    &pre,
                    self,
                    (|q: (int, int)| row_cells(q, y as int, x0 as int, x1 as int)),
                ),
            decreases (x1 as int) + 1 - x,
        {
            let ghost mid = *self;
            <Self as Place<Tile>>::place(self, Vec2 { x: x as i32, y }, tile);
            proof {
                <State as Place<Tile>>::lemma_only_layer_changed_trans(&pre, &mid, self);
                <State as Place<Tile>>::lemma_only_layer_changed_keeps_tile(&mid, self, tile);
                lemma_entries_pinned_trans::<Tile>(
                    &pre,
                    &mid,
                    self,
                    |q: (int, int)| row_cells(q, y as int, x0 as int, x1 as int),
                    |q: (int, int)| q == pos_key(Vec2 { x: x as i32, y }),
                    |q: (int, int)| row_cells(q, y as int, x0 as int, x1 as int),
                );
            }
            x = x + 1;
        }
    }

    /// Places the tile on every cell of one column segment, both ends
    /// excluded.
    fn place_col<Tile: Copy>(&mut self, x: i32, y0: i32, y1: i32, tile: Tile) where
        Self: Place<Tile>,

        requires
            layer_wf::<Tile>(old(self)),
            layer_tile_ok::<Tile>(old(self), tile),
        ensures
            layer_wf::<Tile>(final(self)),
            layer_tile_ok::<Tile>(final(self), tile),
            layer_only_changed::<Tile>(old(self), final(self)),
            forall|p: (int, int)|
                col_cells(p, x as int, y0 as int, y1 as int) ==> cell_is(final(self), p, tile),
            forall|p: (int, int)|
                !col_cells(p, x as int, y0 as int, y1 as int) ==> cell_unchanged::<Tile>(
                    old(self), final(self), p),
            entries_pinned::<Tile>(
                old(self),
                final(self),
                (|q: (int, int)| col_cells(q, x as int, y0 as int, y1 as int)),
            ),
    {
        proof {
            <State as Place<Tile>>::lemma_only_layer_changed_refl(old(self));
        }
        let ghost pre = *self;
        let mut y: i64 = y0 as i64 + 1;
        while y < y1 as i64
            invariant
                (y0 as int) < y,
                layer_wf::<Tile>(self),
                layer_tile_ok::<Tile>(self, tile),
                layer_only_changed::<Tile>(&pre, self),
                forall|p: (int, int)|
                    col_cells(p, x as int, y0 as int, y1 as int) && p.1 < y ==> cell_is(
                        self, p, tile),
                forall|p: (int, int)|
                    !(col_cells(p, x as int, y0 as int, y1 as int) && p.1 < y)
                        ==> cell_unchanged::<Tile>(&pre, self, p),
                entries_pinned::<Tile>(
                    &pre,
                    self,
                    (|q: (int, int)| col_cells(q, x as int, y0 as int, y1 as int)),
                ),
            decreases (y1 as int) - y,
        {
            let ghost mid = *self;
            <Self as Place<Tile>>::place(self, Vec2 { x, y: y as i32 }, tile);
            proof {
                <State as Place<Tile>>::lemma_only_layer_changed_trans(&pre, &mid, self);
                <State as Place<Tile>>::lemma_only_layer_changed_keeps_tile(&mid, self, tile);
                lemma_entries_pinned_trans::<Tile>(
                    &pre,
                    &mid,
                    self,
                    |q: (int, int)| col_cells(q, x as int, y0 as int, y1 as int),
                    |q: (int, int)| q == pos_key(Vec2 { x, y: y as i32 }),
                    |q: (int, int)| col_cells(q, x as int, y0 as int, y1 as int),
                );
            }
            y = y + 1;
        }
    }

    /// Fills every cell of the inclusive rectangle `[min, max]` with the
    /// tile, by repeated placement; every other cell of the layer is left
    /// untouched.  An inverted rectangle is empty.
    #[verifier::spinoff_prover]
    #[verifier::rlimit(60)]
    pub fn place_rect<Tile: Copy>(&mut self, min: Vec2, max: Vec2, tile: Tile) where
        Self: Place<Tile>,

        requires
            layer_wf::<Tile>(old(self)),
            layer_tile_ok::<Tile>(old(self), tile),
        ensures
            layer_wf::<Tile>(final(self)),
            layer_only_changed::<Tile>(old(self), final(self)),
            forall|p: (int, int)| in_rect(p, min, max) ==> cell_is(final(self), p, tile),
            forall|p: (int, int)|
                !in_rect(p, min, max) ==> cell_unchanged::<Tile>(old(self), final(self), p),
            entries_pinned::<Tile>(old(self), final(self), (|q: (int, int)| in_rect(q, min, max))),
    {
        proof {
            <State as Place<Tile>>::lemma_only_layer_changed_refl(old(self));
        }
        let ghost pre = *self;
        let mut x: i64 = min.x as i64;
        while x <= max.x as i64
            invariant
                (min.x as int) <= x,
                layer_wf::<Tile>(self),
                layer_tile_ok::<Tile>(self, tile),
                layer_only_changed::<Tile>(&pre, self),
                forall|p: (int, int)|
                    in_rect(p, min, max) && p.0 < x ==> cell_is(self, p, tile),
                forall|p: (int, int)|
                    !(in_rect(p, min, max) && p.0 < x) ==> cell_unchanged::<Tile>(&pre, self, p),
                entries_pinned::<Tile>(&pre, self, (|q: (int, int)| in_rect(q, min, max))),
            decreases (max.x as int) + 1 - x,
        {
            let mut y: i64 = min.y as i64;
            while y <= max.y as i64
                invariant
                    (min.x as int) <= x <= (max.x as int),
                    (min.y as int) <= y,
                    layer_wf::<Tile>(self),
                    layer_tile_ok::<Tile>(self, tile),
                    layer_only_changed::<Tile>(&pre, self),
                    forall|p: (int, int)|
                        (in_rect(p, min, max) && (p.0 < x || (p.0 == x && p.1 < y))) ==> cell_is(
                            self, p, tile),
                    forall|p: (int, int)|
                        !(in_rect(p, min, max) && (p.0 < x || (p.0 == x && p.1 < y)))
                            ==> cell_unchanged::<Tile>(&pre, self, p),
                    entries_pinned::<Tile>(&pre, self, (|q: (int, int)| in_rect(q, min, max))),
                decreases (max.y as int) + 1 - y,
            {
                let ghost mid = *self;
                <Self as Place<Tile>>::place(self, Vec2 { x: x as i32, y: y as i32 }, tile);
                proof {
                    <State as Place<Tile>>::lemma_only_layer_changed_trans(&pre, &mid, self);
                    <State as Place<Tile>>::lemma_only_layer_changed_keeps_tile(&mid, self, tile);
                    lemma_entries_pinned_trans::<Tile>(
                        &pre,
                        &mid,
                        self,
                        |q: (int, int)| in_rect(q, min, max),
                        |q: (int, int)| q == pos_key(Vec2 { x: x as i32, y: y as i32 }),
                        |q: (int, int)| in_rect(q, min, max),
                    );
                }
                y = y + 1;
            }
            x = x + 1;
        }
    }

    /// Draws the border of the inclusive rectangle `[min, max]` with the
    /// tile: both outer rows in full, then both outer columns between them.
    /// Interior cells, and every cell off the border, are left untouched.
    pub fn place_frame<Tile: Copy>(&mut self, min: Vec2, max: Vec2, tile: Tile) where
        Self: Place<Tile>,

        requires
            layer_wf::<Tile>(old(self)),
            layer_tile_ok::<Tile>(old(self), tile),
        ensures
            layer_wf::<Tile>(final(self)),
            layer_only_changed::<Tile>(old(self), final(self)),
            forall|p: (int, int)| on_frame(p, min, max) ==> cell_is(final(self), p, tile),
            forall|p: (int, int)|
                !on_frame(p, min, max) ==> cell_unchanged::<Tile>(old(self), final(self), p),
            entries_pinned::<Tile>(old(self), final(self), (|q: (int, int)| on_frame(q, min, max))),
    {
        let ghost pre = *self;
        self.place_row(min.y, min.x, max.x, tile);
        let ghost s1 = *self;
        self.place_row(max.y, min.x, max.x, tile);
        let ghost s2 = *self;
        self.place_col(min.x, min.y, max.y, tile);
        let ghost s3 = *self;
        self.place_col(max.x, min.y, max.y, tile);
        proof {
            <State as Place<Tile>>::lemma_only_layer_changed_trans(&pre, &s1, &s2);
            <State as Place<Tile>>::lemma_only_layer_changed_trans(&pre, &s2, &s3);
            <State as Place<Tile>>::lemma_only_layer_changed_trans(&pre, &s3, self);
            lemma_entries_pinned_trans::<Tile>(
                &pre,
                &s1,
                &s2,
                |q: (int, int)| row_cells(q, min.y as int, min.x as int, max.x as int),
                |q: (int, int)| row_cells(q, max.y as int, min.x as int, max.x as int),
                |q: (int, int)| on_frame(q, min, max),
            );
            lemma_entries_pinned_trans::<Tile>(
                &pre,
                &s2,
                &s3,
                |q: (int, int)| on_frame(q, min, max),
                |q: (int, int)| col_cells(q, min.x as int, min.y as int, max.y as int),
                |q: (int, int)| on_frame(q, min, max),
            );
            lemma_entries_pinned_trans::<Tile>(
                &pre,
                &s3,
                self,
                |q: (int, int)| on_frame(q, min, max),
                |q: (int, int)| col_cells(q, max.x as int, min.y as int, max.y as int),
                |q: (int, int)| on_frame(q, min, max),
            );
            assert forall|p: (int, int)| on_frame(p, min, max) implies cell_is(
                self, p, tile) by {
                if col_cells(p, max.x as int, min.y as int, max.y as int) {
                } else if col_cells(p, min.x as int, min.y as int, max.y as int) {
                    assert(cell_is(&s3, p, tile));
                    assert(cell_unchanged::<Tile>(&s3, self, p));
                } else if row_cells(p, max.y as int, min.x as int, max.x as int) {
                    assert(cell_is(&s2, p, tile));
                    assert(cell_unchanged::<Tile>(&s2, &s3, p));
                    assert(cell_unchanged::<Tile>(&s3, self, p));
                } else {
                    assert(row_cells(p, min.y as int, min.x as int, max.x as int));
                    assert(cell_is(&s1, p, tile));
                    assert(cell_unchanged::<Tile>(&s1, &s2, p));
                    assert(cell_unchanged::<Tile>(&s2, &s3, p));
                    assert(cell_unchanged::<Tile>(&s3, self, p));
                }
            }
            assert forall|p: (int, int)| !on_frame(p, min, max) implies cell_unchanged::<Tile>(
                &pre, self, p) by {
                assert(!row_cells(p, min.y as int, min.x as int, max.x as int));
                assert(!row_cells(p, max.y as int, min.x as int, max.x as int));
                assert(!col_cells(p, min.x as int, min.y as int, max.y as int));
                assert(!col_cells(p, max.x as int, min.y as int, max.y as int));
                assert(cell_unchanged::<Tile>(&pre, &s1, p));
                assert(cell_unchanged::<Tile>(&s1, &s2, p));
                assert(cell_unchanged::<Tile>(&s2, &s3, p));
                assert(cell_unchanged::<Tile>(&s3, self, p));
            }
        }
    }
}

} // verus!

verus! {

/// Indices of the entities whose type is the reserved player type, in
/// increasing order.
pub open spec fn player_index_seq(s: Seq<Entity>) -> Seq<int>
    decreases s.len(),
{
    if s.len() == 0 {
        Seq::empty()
    } else if s.last().type_id@ == player_type_index() {
        player_index_seq(s.drop_last()).push(s.len() - 1)
    } else {
        player_index_seq(s.drop_last())
    }
}

/// What `player_index_seq` holds: exactly the player-typed indices, each
/// once, in increasing order.
pub proof fn lemma_player_index_seq(s: Seq<Entity>)
    ensures
        forall|k: int|
            0 <= k < player_index_seq(s).len() ==> 0 <= #[trigger] player_index_seq(s)[k]
                < s.len() && s[player_index_seq(s)[k]].type_id@ == player_type_index(),
        forall|i: int|
            0 <= i < s.len() && (#[trigger] s[i]).type_id@ == player_type_index()
                ==> player_index_seq(s).contains(i),
        forall|k1: int, k2: int|
            0 <= k1 < k2 < player_index_seq(s).len() ==> #[trigger] player_index_seq(s)[k1]
                < #[trigger] player_index_seq(s)[k2],
    decreases s.len(),
{
    if s.len() > 0 {
        lemma_player_index_seq(s.drop_last());
        let t = s.drop_last();
        assert forall|i: int|
            0 <= i < s.len() && (#[trigger] s[i]).type_id@ == player_type_index() implies
            player_index_seq(s).contains(i) by {
            if i < s.len() - 1 {
                assert(t[i] == s[i]);
                assert(player_index_seq(t).contains(i));
                let k = choose|k: int|
                    0 <= k < player_index_seq(t).len() && player_index_seq(t)[k] == i;
                if s.last().type_id@ == player_type_index() {
                    assert(player_index_seq(s)[k] == i);
                } else {
                    assert(player_index_seq(s)[k] == i);
                }
            } else {
                assert(player_index_seq(s).last() == i);
            }
        }
    }
}

impl State {
    /// Read-only view of the placed floor cells, for snapshotting.
    pub fn floors(&self) -> (r: &Vec<(Vec2, Floor)>)
        ensures
            r@ == self.floors_seq(),
    {
        &self.floors
    }

    /// Read-only view of the placed wall cells, for snapshotting.
    pub fn walls(&self) -> (r: &Vec<(Vec2, Wall)>)
        ensures
            r@ == self.walls_seq(),
    {
        &self.walls
    }

    /// Read-only view of the live entities, for snapshotting; the entity at
    /// index `i` is the one spawn issued id `i` for.
    pub fn entities(&self) -> (r: &Vec<Entity>)
        ensures
            r@ == self.entities_seq(),
    {
        &self.entities
    }

    /// Allocates the next entity id, stores the entity under it and returns
    /// it.  Ids count up from zero and are never reused, so the id equals
    /// the number of entities spawned before.  Never fails.
    pub fn spawn(&mut self, entity: Entity) -> (id: EntityId)
        requires
            old(self).wf(),
            entity.type_id@ < old(self).entity_defs().len(),
        ensures
            final(self).wf(),
            id@ == old(self).entities_seq().len(),
            final(self).entities_seq() == old(self).entities_seq().push(entity),
            final(self).floor_defs() == old(self).floor_defs(),
            final(self).wall_defs() == old(self).wall_defs(),
            final(self).entity_defs() == old(self).entity_defs(),
            final(self).floors_seq() == old(self).floors_seq(),
            final(self).walls_seq() == old(self).walls_seq(),
    {
        let id = EntityId(self.entities.len());
        self.entities.push(entity);
        proof {
            assert forall|i: int| 0 <= i < self.entities_seq().len() implies (
            #[trigger] self.entities_seq()[i]).type_id@ < self.entity_defs().len() by {
                if i < self.entities_seq().len() - 1 {
                    assert(self.entities_seq()[i] == old(self).entities_seq()[i]);
                    assert(old(self).entities_seq()[i].type_id@ < old(self).entity_defs().len());
                }
            }
            assert forall|i: int| 0 <= i < self.floors_seq().len() implies (
            #[trigger] self.floors_seq()[i]).1.type_id@ < self.floor_defs().len() by {
                assert(old(self).floors_seq()[i].1.type_id@ < old(self).floor_defs().len());
            }
            assert forall|i: int| 0 <= i < self.walls_seq().len() implies (
            #[trigger] self.walls_seq()[i]).1.type_id@ < self.wall_defs().len() by {
                assert(old(self).walls_seq()[i].1.type_id@ < old(self).wall_defs().len());
            }
            assert forall|a: int, b: int| 0 <= a < b < self.floors_seq().len() implies pos_key(
            #[trigger] self.floors_seq()[a].0) != pos_key(#[trigger] self.floors_seq()[b].0) by {
                assert(pos_key(old(self).floors_seq()[a].0) != pos_key(
                    old(self).floors_seq()[b].0));
            }
            assert forall|a: int, b: int| 0 <= a < b < self.walls_seq().len() implies pos_key(
            #[trigger] self.walls_seq()[a].0) != pos_key(#[trigger] self.walls_seq()[b].0) by {
                assert(pos_key(old(self).walls_seq()[a].0) != pos_key(old(self).walls_seq()[b].0));
            }
        }
        id
    }

    /// The ids of all entities of the reserved player type, in increasing
    /// id order; the pool from which connecting players are assigned
    /// identities.
    pub fn player_entity_ids(&self) -> (ids: Vec<EntityId>)
        ensures
            ids@.map_values(|id: EntityId| id@) == player_index_seq(self.entities_seq()),
    {
        let mut ids: Vec<EntityId> = Vec::new();
        let mut i: usize = 0;
        while i < self.entities.len()
            invariant
                i <= self.entities@.len(),
                ids@.map_values(|id: EntityId| id@) == player_index_seq(
                    self.entities_seq().take(i as int),
                ),
            decreases self.entities@.len() - i,
        {
            proof {
                assert(self.entities_seq().take(i as int + 1).drop_last() =~= self.entities_seq()
                    .take(i as int));
                assert(self.entities_seq().take(i as int + 1).last() == self.entities_seq()[
                    i as int]);
            }
            if self.entities[i].type_id.0 == 0 {
                ids.push(EntityId(i));
                proof {
                    assert(ids@.map_values(|id: EntityId| id@) =~= ids@.drop_last().map_values(
                        |id: EntityId| id@).push(i as int));
                }
            }
            i = i + 1;
        }
        proof {
            assert(self.entities_seq().take(self.entities_seq().len() as int)
                =~= self.entities_seq());
        }
        ids
    }
}

/// Law of registration, shared by the three type families and stated over
/// the registry model that `insert_type` ensures: once a registration on a
/// registry `defs1` has issued id `defs1.len()` for `d1`, any later
/// registration (performed on any extension `defs2` of the resulting
/// registry, and issuing id `defs2.len()` for `d2`) issues a strictly
/// larger id, and in the final registry both ids still resolve to exactly
/// the definitions they were issued for.
pub proof fn lemma_register_ids_law<T>(defs1: Seq<T>, d1: T, defs2: Seq<T>, d2: T)
    requires
        defs1.push(d1).is_prefix_of(defs2),
    ensures
        defs1.len() < defs2.len(),
        defs2.push(d2)[defs1.len() as int] == d1,
        defs2.push(d2)[defs2.len() as int] == d2,
{
    assert(defs1.push(d1)[defs1.len() as int] == d1);
    assert(defs2[defs1.len() as int] == defs1.push(d1)[defs1.len() as int]);
}

/// Law of placement: placing `a` and then `b` on the same cell of the same
/// layer leaves the cell bound to `b` — the last write wins.  The two
/// placements are given by the layer-map updates that `place` ensures.
pub proof fn lemma_place_last_write_wins<T>(layer0: Map<(int, int), T>, p: Vec2, a: T, b: T)
    ensures
        layer0.insert(pos_key(p), a).insert(pos_key(p), b)[pos_key(p)] == b,
        layer0.insert(pos_key(p), a).insert(pos_key(p), b) =~= layer0.insert(pos_key(p), b),
{
}

/// Law of spawning: an entity id issued by `spawn` equals the number of
/// entities spawned before it on that store, so once a spawn on `entities1`
/// has issued id `entities1.len()`, any later spawn (performed on any
/// extension `entities2` of the resulting store and issuing id
/// `entities2.len()`) returns a strictly larger id, never an earlier one.
pub proof fn lemma_spawn_ids_law(entities1: Seq<Entity>, e1: Entity, entities2: Seq<Entity>)
    requires
        entities1.push(e1).is_prefix_of(entities2),
    ensures
        entities1.len() < entities2.len(),
{
}

} // verus!
