//! The declarative content loaded at startup: the type families it
//! registers and the initial world it places.  This is the body of the
//! content plugin's `init` entry point; the loader's job is only to call
//! `init` once before serving, `handle_event` each tick, and `uninit`
//! exactly once on the way out.

use crate::state::{
    EntityType, EntityTypeId, Floor, FloorType, FloorTypeId, ObjectType, Place, State, ToolKind,
    Vec2, Wall, WallType, WallTypeId, cell_is, cell_unchanged, in_rect, layer_of, on_frame,
    player_entity_type_id,
    vec2,
};
use vstd::prelude::*;
use vstd::string::StringExecFns;

verus! {

/// The registered floor types.
pub struct FloorTypes {
    pub grass: FloorTypeId,
    pub planks: FloorTypeId,
}

impl FloorTypes {
    /// Registers the floor family: grass, then planks, both walkable.
    pub fn new(state: &mut State) -> (t: Self)
        requires
            old(state).wf(),
        ensures
            final(state).wf(),
            t.grass@ == old(state).floor_defs().len(),
            t.planks@ == old(state).floor_defs().len() + 1,
            final(state).floor_defs().len() == old(state).floor_defs().len() + 2,
            final(state).floor_defs()[t.grass@].asset@ == "grass"@,
            final(state).floor_defs()[t.grass@].walkable,
            final(state).floor_defs()[t.planks@].asset@ == "planks"@,
            final(state).floor_defs()[t.planks@].walkable,
            forall|i: int|
                0 <= i < old(state).floor_defs().len() ==> #[trigger] final(state).floor_defs()[i]
                    == old(state).floor_defs()[i],
            final(state).wall_defs() == old(state).wall_defs(),
            final(state).entity_defs() == old(state).entity_defs(),
            final(state).floors_seq() == old(state).floors_seq(),
            final(state).walls_seq() == old(state).walls_seq(),
            final(state).entities_seq() == old(state).entities_seq(),
    {
        let grass = state.insert_type(FloorType::new(String::from_str("grass")));
        let planks = state.insert_type(FloorType::new(String::from_str("planks")));
        Self { grass, planks }
    }
}

/// The registered wall types.
pub struct WallTypes {
    pub bedrock: WallTypeId,
    pub planks: WallTypeId,
}

impl WallTypes {
    /// Registers the wall family: unbreakable bedrock, then plank walls
    /// that an axe breaks in two hits.
    pub fn new(state: &mut State) -> (t: Self)
        requires
            old(state).wf(),
        ensures
            final(state).wf(),
            t.bedrock@ == old(state).wall_defs().len(),
            t.planks@ == old(state).wall_defs().len() + 1,
            final(state).wall_defs().len() == old(state).wall_defs().len() + 2,
            final(state).wall_defs()[t.bedrock@].asset@ == "bedrock"@,
            final(state).wall_defs()[t.bedrock@].breakable is None,
            final(state).wall_defs()[t.planks@].asset@ == "planks"@,
            final(state).wall_defs()[t.planks@].breakable matches Some(b) && b.tool_kind
                == ToolKind::Axe && b.hits == 2,
            forall|i: int|
                0 <= i < old(state).wall_defs().len() ==> #[trigger] final(state).wall_defs()[i]
                    == old(state).wall_defs()[i],
            final(state).floor_defs() == old(state).floor_defs(),
            final(state).entity_defs() == old(state).entity_defs(),
            final(state).floors_seq() == old(state).floors_seq(),
            final(state).walls_seq() == old(state).walls_seq(),
            final(state).entities_seq() == old(state).entities_seq(),
    {
        let bedrock = state.insert_type(WallType::new(String::from_str("bedrock")));
        let planks = state.insert_type(
            WallType::new(String::from_str("planks")).breakable(ToolKind::Axe, 2),
        );
        Self { bedrock, planks }
    }
}

/// The registered entity types.
pub struct EntityTypes {
    pub skeleton: EntityTypeId,
}

impl EntityTypes {
    /// Registers the entity family: the skeleton.
    pub fn new(state: &mut State) -> (t: Self)
        requires
            old(state).wf(),
        ensures
            final(state).wf(),
            t.skeleton@ == old(state).entity_defs().len(),
            final(state).entity_defs().len() == old(state).entity_defs().len() + 1,
            final(state).entity_defs()[t.skeleton@].asset@ == "skeleton"@,
            forall|i: int|
                0 <= i < old(state).entity_defs().len() ==> #[trigger] final(state).entity_defs()[i]
                    == old(state).entity_defs()[i],
            final(state).floor_defs() == old(state).floor_defs(),
            final(state).wall_defs() == old(state).wall_defs(),
            final(state).floors_seq() == old(state).floors_seq(),
            final(state).walls_seq() == old(state).walls_seq(),
            final(state).entities_seq() == old(state).entities_seq(),
    {
        let skeleton = state.insert_type(EntityType::new(String::from_str("skeleton")));
        Self { skeleton }
    }
}

/// The state a loaded plugin keeps between its entry points: the ids of
/// the types it registered.
pub struct Plugin {
    pub floors: FloorTypes,
    pub walls: WallTypes,
    pub entities: EntityTypes,
}

/// The corner of the initial field with the least coordinates.
pub open spec fn field_min() -> Vec2 {
    Vec2 { x: -19i32, y: -12i32 }
}

/// The corner of the initial field with the greatest coordinates.
pub open spec fn field_max() -> Vec2 {
    Vec2 { x: 19i32, y: 12i32 }
}

/// Everything `init` does to the store it was handed: the ids it was
/// issued (consecutively, from the registries' previous sizes), the
/// definitions registered under them with every earlier registration kept,
/// the field carpeted with grass and framed with bedrock with every other
/// cell untouched, and the two player entities appended after every
/// earlier entity.
pub open spec fn populated(pre: State, post: State, p: Plugin) -> bool {
    &&& p.floors.grass@ == pre.floor_defs().len()
    &&& p.floors.planks@ == pre.floor_defs().len() + 1
    &&& p.walls.bedrock@ == pre.wall_defs().len()
    &&& p.walls.planks@ == pre.wall_defs().len() + 1
    &&& p.entities.skeleton@ == pre.entity_defs().len()
    &&& post.floor_defs().len() == pre.floor_defs().len() + 2
    &&& post.wall_defs().len() == pre.wall_defs().len() + 2
    &&& post.entity_defs().len() == pre.entity_defs().len() + 1
    &&& post.floor_defs()[p.floors.grass@].asset@ == "grass"@
    &&& post.floor_defs()[p.floors.grass@].walkable
    &&& post.floor_defs()[p.floors.planks@].asset@ == "planks"@
    &&& post.floor_defs()[p.floors.planks@].walkable
    &&& post.wall_defs()[p.walls.bedrock@].asset@ == "bedrock"@
    &&& post.wall_defs()[p.walls.bedrock@].breakable is None
    &&& post.wall_defs()[p.walls.planks@].asset@ == "planks"@
    &&& post.wall_defs()[p.walls.planks@].breakable matches Some(b) && b.tool_kind
        == ToolKind::Axe && b.hits == 2
    &&& post.entity_defs()[p.entities.skeleton@].asset@ == "skeleton"@
    &&& forall|i: int|
        0 <= i < pre.floor_defs().len() ==> #[trigger] post.floor_defs()[i]
            == pre.floor_defs()[i]
    &&& forall|i: int|
        0 <= i < pre.wall_defs().len() ==> #[trigger] post.wall_defs()[i] == pre.wall_defs()[i]
    &&& forall|i: int|
        0 <= i < pre.entity_defs().len() ==> #[trigger] post.entity_defs()[i]
            == pre.entity_defs()[i]
    &&& forall|q: (int, int)|
        in_rect(q, field_min(), field_max()) ==> cell_is(
            &post,
            q,
            Floor { type_id: p.floors.grass },
        )
    &&& forall|q: (int, int)|
        !in_rect(q, field_min(), field_max()) ==> cell_unchanged::<Floor>(&pre, &post, q)
    &&& forall|q: (int, int)|
        on_frame(q, field_min(), field_max()) ==> cell_is(
            &post,
            q,
            Wall { type_id: p.walls.bedrock },
        )
    &&& forall|q: (int, int)|
        !on_frame(q, field_min(), field_max()) ==> cell_unchanged::<Wall>(&pre, &post, q)
    &&& post.entities_seq().len() == pre.entities_seq().len() + 2
    &&& forall|i: int|
        0 <= i < pre.entities_seq().len() ==> #[trigger] post.entities_seq()[i]
            == pre.entities_seq()[i]
    &&& post.entities_seq()[pre.entities_seq().len() as int].type_id@
        == crate::state::player_type_index()
    &&& post.entities_seq()[pre.entities_seq().len() as int].pos == (Vec2 { x: -1i32, y: 0i32 })
    &&& post.entities_seq()[pre.entities_seq().len() as int].asset matches Some(a) && a@
        == "skins/suisei"@
    &&& post.entities_seq()[pre.entities_seq().len() as int + 1].type_id@
        == crate::state::player_type_index()
    &&& post.entities_seq()[pre.entities_seq().len() as int + 1].pos == (Vec2 { x: 1i32, y: 0i32 })
    &&& post.entities_seq()[pre.entities_seq().len() as int + 1].asset matches Some(a) && a@
        == "skins/ougi"@
}

impl Plugin {
    /// Populates a fresh store: registers the three type families, carpets
    /// the field with grass, frames it with bedrock, and spawns the two
    /// player-controllable entities beside its center.
    pub fn new(state: &mut State) -> (p: Self)
        requires
            old(state).wf(),
        ensures
            final(state).wf(),
            populated(*old(state), *final(state), p),
    {
        let floors = FloorTypes::new(state);
        let walls = WallTypes::new(state);
        let entities = EntityTypes::new(state);

        let min = vec2(-19, -12);
        let max = vec2(19, 12);
        let center = vec2((min.x + max.x) / 2, (min.y + max.y) / 2);

        let ghost s1 = *state;
        state.place_rect(min, max, floors.grass.instance());
        let ghost s2 = *state;
        state.place_frame(min, max, walls.bedrock.instance());
        let ghost s3 = *state;

        state.spawn(
            player_entity_type_id().instance(vec2(center.x - 1, center.y)).asset(
                String::from_str("skins/suisei"),
            ),
        );
        state.spawn(
            player_entity_type_id().instance(vec2(center.x + 1, center.y)).asset(
                String::from_str("skins/ougi"),
            ),
        );

        proof {
            let pre = *old(state);
            let post = *state;
            assert forall|q: (int, int)| in_rect(q, field_min(), field_max()) implies cell_is(
                &post,
                q,
                Floor { type_id: floors.grass },
            ) by {
                assert(cell_is(&s2, q, Floor { type_id: floors.grass }));
            }
            assert forall|q: (int, int)| !in_rect(q, field_min(), field_max()) implies
                cell_unchanged::<Floor>(&pre, &post, q) by {
                assert(cell_unchanged::<Floor>(&s1, &s2, q));
            }
            assert forall|q: (int, int)| on_frame(q, field_min(), field_max()) implies cell_is(
                &post,
                q,
                Wall { type_id: walls.bedrock },
            ) by {
                assert(cell_is(&s3, q, Wall { type_id: walls.bedrock }));
            }
            assert forall|q: (int, int)| !on_frame(q, field_min(), field_max()) implies
                cell_unchanged::<Wall>(&pre, &post, q) by {
                assert(cell_unchanged::<Wall>(&s2, &s3, q));
            }
            assert(post.entities_seq() =~= s3.entities_seq().push(
                post.entities_seq()[post.entities_seq().len() - 2],
            ).push(post.entities_seq().last()));
        }

        Self { floors, walls, entities }
    }

    /// The per-tick entry point; this content reacts to nothing yet.
    pub fn handle_event(&mut self, state: &mut State)
        ensures
            *final(state) == *old(state),
            *final(self) == *old(self),
    {
    }
}

/// Loads the content into the store and hands back the plugin's state;
/// called exactly once, before the server begins serving clients.
pub fn init(state: &mut State) -> (p: Box<Plugin>)
    requires
        old(state).wf(),
    ensures
        final(state).wf(),
        populated(*old(state), *final(state), *p),
{
    Box::new(Plugin::new(state))
}

/// Releases the plugin's state; called exactly once when the module is
/// unloaded, on every exit path once `init` succeeded.
pub fn uninit(p: Box<Plugin>) {
    let _ = p;
}

} // verus!
