//! Biomes: named bands of terrain noise with their tint and ground tile.
use crate::tiles::TileId;
use vstd::prelude::*;

verus! {

/// A biome. Its noise band and tint are `f64`/`f32` values carried as their bit patterns.
#[derive(Clone, Debug)]
pub struct BiomeDefinition {
    pub name: String,
    pub noise_min_bits: u64,
    pub noise_max_bits: u64,
    pub tint_bits: [u32; 4],
    pub tile_id: TileId,
}

/// The biomes, in registration order.
pub struct BiomeRegistry {
    pub entries: Vec<BiomeDefinition>,
}

/// Index of the first biome of `entries` named `name`, if any.
pub open spec fn first_biome_named(entries: Seq<BiomeDefinition>, name: Seq<char>) -> Option<int> {
    if exists|i: int| 0 <= i < entries.len() && (#[trigger] entries[i]).name@ == name {
        Some(
            choose|i: int|
                0 <= i < entries.len() && (#[trigger] entries[i]).name@ == name && forall|j: int|
                    0 <= j < i ==> (#[trigger] entries[j]).name@ != name,
        )
    } else {
        None
    }
}

impl BiomeRegistry {
    /// No biome registered.
    pub fn new() -> (r: Self)
        ensures
            r.entries@ == Seq::<BiomeDefinition>::empty(),
    {
        BiomeRegistry { entries: Vec::new() }
    }

    /// Whether no biome is registered yet.
    pub fn is_empty(&self) -> (r: bool)
        ensures
            r == (self.entries@.len() == 0),
    {
        self.entries.len() == 0
    }

    /// Appends `definition`.
    pub fn register(&mut self, definition: BiomeDefinition)
        ensures
            final(self).entries@ == old(self).entries@.push(definition),
    {
        self.entries.push(definition);
    }

    /// The first biome registered under `name`.
    pub fn by_name(&self, name: &str) -> (r: Option<&BiomeDefinition>)
        ensures
            match first_biome_named(self.entries@, name@) {
                Some(i) => r == Some(&self.entries@[i]),
                None => r is None,
            },
    {
        let target = name.to_owned();
        let n = self.entries.len();
        let mut i: usize = 0;
        while i < n
            invariant
                n == self.entries@.len(),
                i <= n,
                target@ == name@,
                forall|j: int| 0 <= j < i ==> (#[trigger] self.entries@[j]).name@ != name@,
            decreases n - i,
        {
            if self.entries[i].name == target {
                proof {
                    let k = choose|k: int|
                        0 <= k < self.entries@.len() && (#[trigger] self.entries@[k]).name@ == name@
                            && forall|j: int| 0 <= j < k ==> (#[trigger] self.entries@[j]).name@ != name@;
                    assert(k == i as int) by {
                        if k < i {
                            assert(self.entries@[k].name@ != name@);
                        } else if k > i {
                            assert(self.entries@[i as int].name@ == name@);
                        }
                    }
                }
                return Some(&self.entries[i]);
            }
            i = i + 1;
        }
        None
    }
}

/// What `first_biome_named` gives: the first biome with the name, or `None` when no biome has
/// it.
pub proof fn lemma_first_biome_named(s: Seq<BiomeDefinition>, name: Seq<char>)
    ensures
        match first_biome_named(s, name) {
            Some(k) => 0 <= k < s.len() && s[k].name@ == name && forall|j: int| 0 <= j < k ==> (#[trigger] s[j]).name@ != name,
            None => forall|i: int| 0 <= i < s.len() ==> (#[trigger] s[i]).name@ != name,
        },
{
    if exists|i: int| 0 <= i < s.len() && (#[trigger] s[i]).name@ == name {
        let i = choose|i: int| 0 <= i < s.len() && (#[trigger] s[i]).name@ == name;
        lemma_first_biome_exists(s, name, i);
    }
}

proof fn lemma_first_biome_exists(s: Seq<BiomeDefinition>, name: Seq<char>, i: int)
    requires
        0 <= i < s.len(),
        s[i].name@ == name,
    ensures
        exists|k: int| 0 <= k < s.len() && (#[trigger] s[k]).name@ == name && forall|j: int| 0 <= j < k ==> (#[trigger] s[j]).name@ != name,
    decreases i,
{
    if exists|j: int| 0 <= j < i && (#[trigger] s[j]).name@ == name {
        let j = choose|j: int| 0 <= j < i && (#[trigger] s[j]).name@ == name;
        lemma_first_biome_exists(s, name, j);
    } else {
        assert(forall|j: int| 0 <= j < i ==> (#[trigger] s[j]).name@ != name);
    }
}

/// Law: a biome registered under a name no earlier biome has is what `by_name` finds under that
/// name; every other name is found as before.
pub proof fn law_register_then_find_biome(before: Seq<BiomeDefinition>, after: Seq<BiomeDefinition>, def: BiomeDefinition, name: Seq<char>)
    requires
        after == before.push(def),
        first_biome_named(before, def.name@) is None,
    ensures
        first_biome_named(after, def.name@) == Some(before.len() as int),
        name != def.name@ ==> first_biome_named(after, name) == first_biome_named(before, name),
{
    lemma_first_biome_named(before, def.name@);
    lemma_first_biome_named(after, def.name@);
    lemma_first_biome_named(before, name);
    lemma_first_biome_named(after, name);
    assert(after[before.len() as int] == def);
    assert forall|j: int| 0 <= j < before.len() implies after[j] == before[j] by {}
    match first_biome_named(after, def.name@) {
        Some(k) => {
            if k < before.len() {
                assert(after[k] == before[k]);
            }
        },
        None => {
            assert(after[before.len() as int].name@ == def.name@);
        },
    }
    if name != def.name@ {
        match (first_biome_named(after, name), first_biome_named(before, name)) {
            (Some(ka), Some(kb)) => {
                assert(after[kb] == before[kb]);
                if ka < kb {
                    assert(after[ka] == before[ka]);
                } else if kb < ka {
                    assert(after[kb].name@ == name);
                }
            },
            (Some(ka), None) => {
                if ka < before.len() {
                    assert(after[ka] == before[ka]);
                }
            },
            (None, Some(kb)) => {
                assert(after[kb] == before[kb]);
            },
            (None, None) => {},
        }
    }
}

} // verus!
