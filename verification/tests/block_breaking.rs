use chunksync::block_breaking::{
    Block, BlockBreaking, BlockFamily, BlockKind, BreakEntryPartial, DropKind, DropQuantity, Item,
    ToolFamily, ToolKind,
};

fn entry(
    hardness: Option<u64>,
    drops: Option<DropKind>,
    min: Option<u32>,
    max: Option<u32>,
) -> BreakEntryPartial {
    BreakEntryPartial { hardness, drops, min, max }
}

/// A small break table covering exact, family and default rules, with
/// hardness in hundredths.
fn sample_table() -> BlockBreaking {
    let mut table = BlockBreaking::new();
    table.insert(
        ToolKind::Default,
        BlockKind::Family(BlockFamily::Stone),
        entry(Some(700), Some(DropKind::Item(Item::Rock)), Some(4), Some(6)),
    );
    table.insert(
        ToolKind::Default,
        BlockKind::Block(Block::Limestone),
        entry(Some(550), Some(DropKind::Item(Item::Lime)), Some(1), Some(2)),
    );
    table.insert(
        ToolKind::ToolFamily(ToolFamily::Pickaxe),
        BlockKind::Family(BlockFamily::Stone),
        entry(Some(250), Some(DropKind::Itself), None, None),
    );
    table.insert(
        ToolKind::Item(Item::IronPickaxe),
        BlockKind::Family(BlockFamily::Stone),
        entry(Some(100), None, None, None),
    );
    table
}

#[test]
fn correct_fallback() {
    let block_breaking = sample_table();
    assert_eq!(
        block_breaking.get(&Item::IronPickaxe, &Block::Limestone).drops,
        Some(Item::Block(Block::Limestone))
    );
    assert_eq!(block_breaking.get(&Item::IronPickaxe, &Block::Limestone).hardness, Some(100));
    assert_eq!(block_breaking.get(&Item::Stick, &Block::Limestone).drops, Some(Item::Lime));
    assert_eq!(block_breaking.get(&Item::Stick, &Block::Cobblestone).drops, Some(Item::Rock));
}

#[test]
fn quantity_comes_with_drops() {
    let block_breaking = sample_table();
    let lime = block_breaking.get(&Item::Stick, &Block::Limestone);
    assert!(matches!(lime.quantity, Some(DropQuantity::Range { min: 1, max: 2 })));
    let rock = block_breaking.get(&Item::Stick, &Block::Cobblestone);
    assert!(matches!(rock.quantity, Some(DropQuantity::Range { min: 4, max: 6 })));
    let own = block_breaking.get(&Item::IronPickaxe, &Block::Limestone);
    assert!(matches!(own.quantity, Some(DropQuantity::Fixed(1))));
}

#[test]
fn empty_table_resolves_nothing() {
    let table = BlockBreaking::new();
    let r = table.get(&Item::Stick, &Block::Dirt);
    assert_eq!(r.hardness, None);
    assert_eq!(r.drops, None);
    assert!(r.quantity.is_none());
}

#[test]
fn tool_family_efficiency_scales_hardness() {
    let mut table = BlockBreaking::new();
    table.insert(
        ToolKind::ToolFamily(ToolFamily::Pickaxe),
        BlockKind::Block(Block::Dirt),
        entry(Some(500), Some(DropKind::Itself), None, None),
    );
    let r = table.get(&Item::IronPickaxe, &Block::Dirt);
    assert_eq!(r.hardness, Some(250));
    assert_eq!(r.drops, Some(Item::Block(Block::Dirt)));
}

#[test]
fn later_rule_replaces_earlier() {
    let mut table = BlockBreaking::new();
    table.insert(
        ToolKind::Default,
        BlockKind::Block(Block::Dirt),
        entry(Some(300), Some(DropKind::Itself), None, None),
    );
    table.insert(
        ToolKind::Default,
        BlockKind::Block(Block::Dirt),
        entry(Some(120), Some(DropKind::Itself), None, None),
    );
    let r = table.get(&Item::Stick, &Block::Dirt);
    assert_eq!(r.hardness, Some(120));
}
