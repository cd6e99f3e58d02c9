//! Block catalog: a lookup table from a numeric block identifier to immutable
//! physical and render properties, with a guaranteed fallback entry.
//!
//! Identifier `0` is reserved for the empty/air sentinel and is registered
//! unconditionally at catalog construction, before anything else, so a lookup
//! with fallback can never come back empty.

use vstd::prelude::*;

verus! {

/// Numeric block identifier, the dense catalog key. `0` is the air sentinel.
#[derive(Debug, Clone, Copy, PartialEq, Eq, Structural, Hash)]
pub struct BlockId(pub u16);

/// Identifier of the empty/air sentinel block.
pub const AIR_ID: u16 = 0;

/// Identifier of the stone terrain block.
pub const STONE_ID: u16 = 1;

/// Identifier of the dirt terrain block.
pub const DIRT_ID: u16 = 2;

/// Identifier of the grass terrain block.
pub const GRASS_ID: u16 = 3;

/// Axis-aligned direction of a block face.
#[derive(Debug, Clone, Copy, PartialEq, Eq, Structural)]
pub enum Direction {
    North,
    South,
    East,
    West,
    Up,
    Down,
}

/// Tool category that harvests a block efficiently.
#[derive(Debug, Clone, Copy, PartialEq, Eq, Structural)]
pub enum ToolType {
    NoTool,
    Pickaxe,
    Shovel,
    Axe,
    Sword,
}

/// Placeholder flat debug color, one byte per channel.
#[derive(Debug, Clone, Copy, PartialEq, Eq, Structural)]
pub struct Rgba {
    pub r: u8,
    pub g: u8,
    pub b: u8,
    pub a: u8,
}

/// Immutable per-identifier block record. Registered once at startup and
/// read-only afterwards. Hardness is stored in tenths of a unit.
#[derive(Debug, Clone)]
pub struct BlockProperties {
    pub id: BlockId,
    pub name: String,
    pub hardness: u32,
    pub tool_type: ToolType,
    pub required_tool: Option<ToolType>,
    pub is_solid: bool,
    pub is_transparent: bool,
    pub can_contain_fluid: bool,
    pub is_multiblock_part: bool,
    pub is_multiblock_controller: bool,
    pub debug_color: Rgba,
}

/// The air record: empty, transparent, not solid.
pub open spec fn is_air_props(p: BlockProperties) -> bool {
    &&& p.id == BlockId(AIR_ID)
    &&& p.name@ == "Air"@
    &&& p.hardness == 0
    &&& p.tool_type == ToolType::NoTool
    &&& p.required_tool is None
    &&& !p.is_solid
    &&& p.is_transparent
    &&& !p.can_contain_fluid
    &&& !p.is_multiblock_part
    &&& !p.is_multiblock_controller
    &&& p.debug_color == (Rgba { r: 0, g: 0, b: 0, a: 0 })
}

/// The stone record: solid, mined with a pickaxe.
pub open spec fn is_stone_props(p: BlockProperties) -> bool {
    &&& p.id == BlockId(STONE_ID)
    &&& p.name@ == "Stone"@
    &&& p.hardness == 15
    &&& p.tool_type == ToolType::Pickaxe
    &&& p.required_tool == Some(ToolType::Pickaxe)
    &&& p.is_solid
    &&& !p.is_transparent
    &&& !p.can_contain_fluid
    &&& !p.is_multiblock_part
    &&& !p.is_multiblock_controller
    &&& p.debug_color == (Rgba { r: 128, g: 128, b: 128, a: 255 })
}

/// The dirt record: solid, dug with a shovel.
pub open spec fn is_dirt_props(p: BlockProperties) -> bool {
    &&& p.id == BlockId(DIRT_ID)
    &&& p.name@ == "Dirt"@
    &&& p.hardness == 5
    &&& p.tool_type == ToolType::Shovel
    &&& p.required_tool is None
    &&& p.is_solid
    &&& !p.is_transparent
    &&& !p.can_contain_fluid
    &&& !p.is_multiblock_part
    &&& !p.is_multiblock_controller
    &&& p.debug_color == (Rgba { r: 153, g: 102, b: 51, a: 255 })
}

/// The grass record: solid, dug with a shovel.
pub open spec fn is_grass_props(p: BlockProperties) -> bool {
    &&& p.id == BlockId(GRASS_ID)
    &&& p.name@ == "Grass"@
    &&& p.hardness == 6
    &&& p.tool_type == ToolType::Shovel
    &&& p.required_tool is None
    &&& p.is_solid
    &&& !p.is_transparent
    &&& !p.can_contain_fluid
    &&& !p.is_multiblock_part
    &&& !p.is_multiblock_controller
    &&& p.debug_color == (Rgba { r: 51, g: 204, b: 51, a: 255 })
}

impl Default for BlockProperties {
    /// The neutral record: air identifier, transparent, not solid, white debug color.
    fn default() -> (r: Self)
        ensures
            r.id == BlockId(AIR_ID),
            r.name@ == "Air"@,
            r.hardness == 0,
            r.tool_type == ToolType::NoTool,
            r.required_tool is None,
            !r.is_solid,
            r.is_transparent,
            !r.can_contain_fluid,
            !r.is_multiblock_part,
            !r.is_multiblock_controller,
            r.debug_color == (Rgba { r: 255, g: 255, b: 255, a: 255 }),
    {
        BlockProperties {
            id: BlockId(AIR_ID),
            name: "Air".to_string(),
            hardness: 0,
            tool_type: ToolType::NoTool,
            required_tool: None,
            is_solid: false,
            is_transparent: true,
            can_contain_fluid: false,
            is_multiblock_part: false,
            is_multiblock_controller: false,
            debug_color: Rgba { r: 255, g: 255, b: 255, a: 255 },
        }
    }
}

impl Default for BlockRegistry {
    /// A catalog with nothing registered; the air fallback is only guaranteed
    /// after [`BlockRegistry::new`] or an explicit air registration.
    fn default() -> (r: BlockRegistry)
        ensures
            r@ == Map::<u16, BlockProperties>::empty(),
    {
        BlockRegistry { blocks: Vec::new() }
    }
}

/// The catalog denoted by a registration sequence: later registrations of the
/// same identifier overwrite earlier ones (last write wins).
pub open spec fn catalog_of(s: Seq<BlockProperties>) -> Map<u16, BlockProperties>
    decreases s.len(),
{
    if s.len() == 0 {
        Map::empty()
    } else {
        catalog_of(s.drop_last()).insert(s.last().id.0, s.last())
    }
}

/// If the last registration of identifier `k` is at position `i`, the catalog
/// maps `k` to that record.
proof fn lemma_catalog_found(s: Seq<BlockProperties>, i: int, k: u16)
    requires
        0 <= i < s.len(),
        s[i].id.0 == k,
        forall|j: int| i < j < s.len() ==> (#[trigger] s[j]).id.0 != k,
    ensures
        catalog_of(s).contains_key(k),
        catalog_of(s)[k] == s[i],
    decreases s.len(),
{
    if i == s.len() - 1 {
    } else {
        lemma_catalog_found(s.drop_last(), i, k);
    }
}

/// An identifier never registered is absent from the catalog.
proof fn lemma_catalog_absent(s: Seq<BlockProperties>, k: u16)
    requires
        forall|j: int| 0 <= j < s.len() ==> (#[trigger] s[j]).id.0 != k,
    ensures
        !catalog_of(s).contains_key(k),
    decreases s.len(),
{
    if s.len() > 0 {
        lemma_catalog_absent(s.drop_last(), k);
    }
}

/// Lookup table from block identifier to properties. Its view is the map from
/// identifier to the most recently registered record for it.
pub struct BlockRegistry {
    blocks: Vec<BlockProperties>,
}

impl View for BlockRegistry {
    type V = Map<u16, BlockProperties>;

    closed spec fn view(&self) -> Map<u16, BlockProperties> {
        catalog_of(self.blocks@)
    }
}

impl BlockRegistry {
    /// A registry is well formed when the air fallback is registered.
    pub open spec fn wf(self) -> bool {
        self@.contains_key(AIR_ID)
    }

    /// The record a fallback lookup returns: the entry for `id`, or the air
    /// entry when `id` is unregistered.
    pub open spec fn lookup_spec(self, id: BlockId) -> BlockProperties {
        if self@.contains_key(id.0) {
            self@[id.0]
        } else {
            self@[AIR_ID]
        }
    }

    /// A fresh catalog holding exactly the default entries: air, stone, dirt
    /// and grass, with air registered first.
    pub fn new() -> (r: BlockRegistry)
        ensures
            r.wf(),
            r@.dom() =~= set![AIR_ID, STONE_ID, DIRT_ID, GRASS_ID],
            is_air_props(r@[AIR_ID]),
            is_stone_props(r@[STONE_ID]),
            is_dirt_props(r@[DIRT_ID]),
            is_grass_props(r@[GRASS_ID]),
    {
        let mut registry = BlockRegistry { blocks: Vec::new() };
        registry.register_default_blocks();
        registry
    }

    /// Insert or overwrite the record for `props.id`; no uniqueness error,
    /// the last write wins.
    pub fn register(&mut self, props: BlockProperties)
        ensures
            final(self)@ == old(self)@.insert(props.id.0, props),
    {
        let ghost s0 = self.blocks@;
        self.blocks.push(props);
        proof {
            assert(self.blocks@.drop_last() =~= s0);
        }
    }

    /// Direct lookup of the record registered for `id`, if any.
    pub fn get(&self, id: BlockId) -> (r: Option<&BlockProperties>)
        ensures
            match r {
                Some(p) => self@.contains_key(id.0) && *p == self@[id.0],
                None => !self@.contains_key(id.0),
            },
    {
        let mut i: usize = self.blocks.len();
        while i > 0
            invariant
                i <= self.blocks.len(),
                forall|j: int|
                    i <= j < self.blocks@.len() ==> (#[trigger] self.blocks@[j]).id.0 != id.0,
            decreases i,
        {
            i = i - 1;
            if self.blocks[i].id.0 == id.0 {
                proof {
                    lemma_catalog_found(self.blocks@, i as int, id.0);
                }
                return Some(&self.blocks[i]);
            }
        }
        proof {
            lemma_catalog_absent(self.blocks@, id.0);
        }
        None
    }

    /// Lookup that is guaranteed a result: falls back to the air entry when
    /// `id` is unregistered. The fallback itself can never be missing, because
    /// air is registered unconditionally at construction.
    pub fn get_or_air(&self, id: BlockId) -> (r: &BlockProperties)
        requires
            self.wf(),
        ensures
            *r == self.lookup_spec(id),
    {
        match self.get(id) {
            Some(p) => p,
            None => match self.get(BlockId(AIR_ID)) {
                Some(p) => p,
                None => vstd::pervasive::unreached(),
            },
        }
    }

    /// Register the built-in entries: air first, then the solid terrain blocks.
    fn register_default_blocks(&mut self)
        ensures
            final(self)@ == old(self)@
                .insert(AIR_ID, final(self)@[AIR_ID])
                .insert(STONE_ID, final(self)@[STONE_ID])
                .insert(DIRT_ID, final(self)@[DIRT_ID])
                .insert(GRASS_ID, final(self)@[GRASS_ID]),
            is_air_props(final(self)@[AIR_ID]),
            is_stone_props(final(self)@[STONE_ID]),
            is_dirt_props(final(self)@[DIRT_ID]),
            is_grass_props(final(self)@[GRASS_ID]),
    {
        self.register(
            BlockProperties {
                id: BlockId(AIR_ID),
                name: "Air".to_string(),
                is_transparent: true,
                debug_color: Rgba { r: 0, g: 0, b: 0, a: 0 },
                ..Default::default()
            },
        );
        self.register(
            BlockProperties {
                id: BlockId(STONE_ID),
                name: "Stone".to_string(),
                hardness: 15,
                tool_type: ToolType::Pickaxe,
                required_tool: Some(ToolType::Pickaxe),
                is_solid: true,
                is_transparent: false,
                debug_color: Rgba { r: 128, g: 128, b: 128, a: 255 },
                ..Default::default()
            },
        );
        self.register(
            BlockProperties {
                id: BlockId(DIRT_ID),
                name: "Dirt".to_string(),
                hardness: 5,
                tool_type: ToolType::Shovel,
                is_solid: true,
                is_transparent: false,
                debug_color: Rgba { r: 153, g: 102, b: 51, a: 255 },
                ..Default::default()
            },
        );
        self.register(
            BlockProperties {
                id: BlockId(GRASS_ID),
                name: "Grass".to_string(),
                hardness: 6,
                tool_type: ToolType::Shovel,
                is_solid: true,
                is_transparent: false,
                debug_color: Rgba { r: 51, g: 204, b: 51, a: 255 },
                ..Default::default()
            },
        );
    }
}

} // verus!
