//! Tile identifiers and the registry that says which tiles can be walked on.
use std::collections::HashMap;
use vstd::prelude::*;

verus! {

broadcast use vstd::std_specs::hash::group_hash_axioms;

/// Identifier of a kind of tile.
#[derive(Debug, Clone, Copy, PartialEq, Eq, Structural, Hash, Default)]
pub struct TileId(pub u32);

/// What the world knows about one kind of tile.
#[derive(Clone, Debug)]
pub struct TileDefinition {
    pub id: TileId,
    pub name: String,
    pub walkable: bool,
    /// Bit pattern of the tile's `f32` render height (`f32::to_bits`).
    pub height_bits: u32,
}

/// The tile definitions, keyed by the number inside their `TileId`.
pub struct TileRegistry {
    pub entries: HashMap<u32, TileDefinition>,
}

impl TileRegistry {
    /// The definitions, keyed by tile number.
    pub open spec fn defs(&self) -> Map<u32, TileDefinition> {
        self.entries@
    }

    /// Whether a tile may be walked on: an unregistered tile counts as open ground.
    pub open spec fn walkable_spec(&self, id: TileId) -> bool {
        !self.defs().contains_key(id.0) || self.defs()[id.0].walkable
    }

    /// An empty registry.
    pub fn new() -> (r: Self)
        ensures
            r.defs() == Map::<u32, TileDefinition>::empty(),
    {
        TileRegistry { entries: HashMap::new() }
    }

    /// Registers `definition` under its id, replacing any earlier definition with that id.
    pub fn register(&mut self, definition: TileDefinition)
        ensures
            final(self).defs() == old(self).defs().insert(definition.id.0, definition),
    {
        let key = definition.id.0;
        self.entries.insert(key, definition);
    }

    /// The definition registered under `id`, if any.
    pub fn get(&self, id: TileId) -> (r: Option<&TileDefinition>)
        ensures
            match r {
                Some(d) => self.defs().contains_key(id.0) && *d == self.defs()[id.0],
                None => !self.defs().contains_key(id.0),
            },
    {
        self.entries.get(&id.0)
    }

    /// Whether the tile `id` can be walked on; unknown tiles can.
    pub fn is_walkable(&self, id: TileId) -> (r: bool)
        ensures
            r == self.walkable_spec(id),
    {
        match self.get(id) {
            Some(def) => def.walkable,
            None => true,
        }
    }

    /// On an empty registry, registers the two built-in tiles: `Empty` (id 0, walkable, height
    /// 0.0) and `Wall` (id 1, blocking, height 1.0). A registry with entries is left alone.
    pub fn register_default_tiles(&mut self)
        ensures
            old(self).defs().dom().len() == 0 ==> {
                &&& final(self).defs().dom() == set![0u32, 1u32]
                &&& final(self).defs()[0].id == TileId(0)
                &&& final(self).defs()[0].name@ == "Empty"@
                &&& final(self).defs()[0].walkable
                &&& final(self).defs()[0].height_bits == 0
                &&& final(self).defs()[1].id == TileId(1)
                &&& final(self).defs()[1].name@ == "Wall"@
                &&& !final(self).defs()[1].walkable
                &&& final(self).defs()[1].height_bits == 0x3f80_0000
            },
            old(self).defs().dom().len() != 0 ==> final(self).defs() == old(self).defs(),
    {
        if self.entries.len() != 0 {
            return;
        }
        proof {
            assert(self.defs().dom().finite());
            if self.defs().dom().len() == 0 {
                assert(self.defs().dom() =~= Set::<u32>::empty());
            }
        }
        self.register(
            TileDefinition { id: TileId(0), name: "Empty".to_owned(), walkable: true, height_bits: 0 },
        );
        self.register(
            TileDefinition {
                id: TileId(1),
                name: "Wall".to_owned(),
                walkable: false,
                height_bits: 0x3f80_0000,
            },
        );
        proof {
            assert(self.defs().dom() =~= set![0u32, 1u32]);
        }
    }
}

/// Law: once a definition is registered, its id answers with it: `get` gives it back and
/// `is_walkable` reports its walkability. Other ids answer as before.
pub proof fn law_register_then_lookup(before: TileRegistry, after: TileRegistry, def: TileDefinition)
    requires
        after.defs() == before.defs().insert(def.id.0, def),
    ensures
        after.defs().contains_key(def.id.0) && after.defs()[def.id.0] == def,
        after.walkable_spec(def.id) == def.walkable,
        forall|id: TileId| id.0 != def.id.0 ==> #[trigger] after.walkable_spec(id) == before.walkable_spec(id),
{
}

} // verus!
