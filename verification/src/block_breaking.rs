use vstd::prelude::*;

verus! {

/// Hardness and efficiency are carried in hundredths, so the break table
/// stays in integer arithmetic; an efficiency of one is `EFF_UNIT`.
pub const EFF_UNIT: u64 = 100;

/// Largest hardness a break table entry may carry, in hundredths.
pub const HARDNESS_MAX: u64 = 0xffff_ffff;

#[derive(Clone, Copy, PartialEq, Eq, Hash, Debug, Structural)]
pub enum Block {
    Limestone,
    Cobblestone,
    Dirt,
}

#[derive(Clone, Copy, PartialEq, Eq, Hash, Debug, Structural)]
pub enum BlockFamily {
    Stone,
    Soil,
}

#[derive(Clone, Copy, PartialEq, Eq, Hash, Debug, Structural)]
pub enum ToolFamily {
    Pickaxe,
}

#[derive(Clone, Copy, PartialEq, Eq, Hash, Debug, Structural)]
pub enum Item {
    IronPickaxe,
    Stick,
    Lime,
    Rock,
    Block(Block),
}

/// A break-table row key on the tool side: an exact item, a whole tool
/// family, or the bare-hands default.
#[derive(Clone, Copy, PartialEq, Eq, Hash, Debug, Structural)]
pub enum ToolKind {
    Item(Item),
    ToolFamily(ToolFamily),
    Default,
}

/// A break-table column key on the block side: an exact block or a whole
/// block family.
#[derive(Clone, Copy, PartialEq, Eq, Hash, Debug, Structural)]
pub enum BlockKind {
    Block(Block),
    Family(BlockFamily),
}

/// What a broken block drops: the block itself or a fixed item.
#[derive(Clone, Copy, PartialEq, Eq, Hash, Debug, Structural)]
pub enum DropKind {
    Itself,
    Item(Item),
}

/// How many items a broken block drops.
#[derive(Clone, Copy, PartialEq, Eq, Hash, Debug, Structural)]
pub enum DropQuantity {
    Fixed(u32),
    Range { min: u32, max: u32 },
}

impl Block {
    pub open spec fn spec_families(self) -> Seq<BlockFamily> {
        match self {
            Block::Limestone => seq![BlockFamily::Stone],
            Block::Cobblestone => seq![BlockFamily::Stone],
            Block::Dirt => seq![BlockFamily::Soil],
        }
    }

    pub fn families(&self) -> (r: Vec<BlockFamily>)
        ensures
            r@ == self.spec_families(),
    {
        let mut v: Vec<BlockFamily> = Vec::new();
        match self {
            Block::Limestone => { v.push(BlockFamily::Stone); },
            Block::Cobblestone => { v.push(BlockFamily::Stone); },
            Block::Dirt => { v.push(BlockFamily::Soil); },
        }
        proof {
            assert(v@ =~= self.spec_families());
        }
        v
    }
}

impl Item {
    /// The family a tool belongs to, with the family's efficiency in
    /// hundredths, for items that are tools of some family.
    pub open spec fn spec_tool_family(self) -> Option<(ToolFamily, u64)> {
        match self {
            Item::IronPickaxe => Some((ToolFamily::Pickaxe, 200)),
            _ => None,
        }
    }

    pub fn tool_family(&self) -> (r: Option<(ToolFamily, u64)>)
        ensures
            r == self.spec_tool_family(),
            r matches Some(p) ==> 1 <= p.1,
    {
        match self {
            Item::IronPickaxe => Some((ToolFamily::Pickaxe, 200)),
            _ => None,
        }
    }
}

impl DropKind {
    pub open spec fn spec_item(self, block: Block) -> Item {
        match self {
            DropKind::Itself => Item::Block(block),
            DropKind::Item(item) => item,
        }
    }

    /// The concrete item this drop stands for when `block` is broken.
    pub fn item(self, block: Block) -> (r: Item)
        ensures
            r == self.spec_item(block),
    {
        match self {
            DropKind::Itself => Item::Block(block),
            DropKind::Item(item) => item,
        }
    }
}

/// One break-table entry while fallback lookups are still filling it:
/// either side may still be missing.
#[derive(Clone, Copy, Debug)]
pub struct BreakEntryPartial {
    pub hardness: Option<u64>,
    pub drops: Option<DropKind>,
    pub min: Option<u32>,
    pub max: Option<u32>,
}

impl Default for BreakEntryPartial {
    fn default() -> (r: Self)
        ensures
            r == (BreakEntryPartial { hardness: None, drops: None, min: None, max: None }),
    {
        BreakEntryPartial { hardness: None, drops: None, min: None, max: None }
    }
}

impl BreakEntryPartial {
    /// A drop range needs both ends, and the hardness stays small enough
    /// for efficiency scaling.
    pub open spec fn wf(self) -> bool {
        &&& self.min is Some ==> self.max is Some
        &&& self.hardness matches Some(h) ==> h <= HARDNESS_MAX
    }

    /// The entry with its missing sides filled from `other`: a missing
    /// hardness is taken scaled down by the efficiency, missing drops are
    /// taken together with their quantity range.
    pub open spec fn spec_complete_with(self, other: BreakEntryPartial, efficiency: u64) -> BreakEntryPartial {
        let hardness = if self.hardness is None {
            match other.hardness {
                Some(h) => Some(((h * EFF_UNIT) / efficiency as int) as u64),
                None => None,
            }
        } else {
            self.hardness
        };
        if self.drops is None {
            BreakEntryPartial { hardness, drops: other.drops, min: other.min, max: other.max }
        } else {
            BreakEntryPartial { hardness, drops: self.drops, min: self.min, max: self.max }
        }
    }

    pub fn complete_with(&mut self, other: &BreakEntryPartial, efficiency: u64)
        requires
            efficiency >= 1,
            other.wf(),
        ensures
            *final(self) == old(self).spec_complete_with(*other, efficiency),
    {
        if self.hardness.is_none() {
            self.hardness = match other.hardness {
                Some(h) => Some(h * EFF_UNIT / efficiency),
                None => None,
            };
        }
        if self.drops.is_none() {
            self.drops = other.drops;
            self.min = other.min;
            self.max = other.max;
        }
    }

    /// Both sides are known: the fallback search can stop.
    pub open spec fn spec_is_complete(self) -> bool {
        self.hardness is Some && self.drops is Some
    }

    pub fn is_complete(&self) -> (r: bool)
        ensures
            r == self.spec_is_complete(),
    {
        self.hardness.is_some() && self.drops.is_some()
    }

    /// The drop quantity: the stated range when one was given, one item
    /// otherwise.
    pub open spec fn spec_quantity(self) -> DropQuantity {
        match self.min {
            Some(mn) => DropQuantity::Range {
                min: mn,
                max: match self.max {
                    Some(mx) => mx,
                    None => 0,
                },
            },
            None => DropQuantity::Fixed(1),
        }
    }

    pub fn quantity(&self) -> (r: DropQuantity)
        requires
            self.min is Some ==> self.max is Some,
        ensures
            r == self.spec_quantity(),
    {
        match self.min {
            Some(mn) => DropQuantity::Range { min: mn, max: self.max.unwrap() },
            None => DropQuantity::Fixed(1),
        }
    }
}

/// A resolved break-table answer: how hard the block is for the tool, what
/// it drops and in what quantity; a side is `None` when no rule covers it.
#[derive(Clone, Copy, Debug)]
pub struct BreakEntry {
    pub hardness: Option<u64>,
    pub drops: Option<Item>,
    pub quantity: Option<DropQuantity>,
}

impl BreakEntry {
    pub open spec fn spec_from_partial(entry: BreakEntryPartial, block: Block) -> BreakEntry {
        BreakEntry {
            hardness: entry.hardness,
            quantity: if entry.drops is None {
                None
            } else {
                Some(entry.spec_quantity())
            },
            drops: match entry.drops {
                Some(d) => Some(d.spec_item(block)),
                None => None,
            },
        }
    }

    pub fn from_partial(entry: BreakEntryPartial, block: Block) -> (r: BreakEntry)
        requires
            entry.min is Some ==> entry.max is Some,
        ensures
            r == BreakEntry::spec_from_partial(entry, block),
    {
        BreakEntry {
            hardness: entry.hardness,
            quantity: if entry.drops.is_none() {
                None
            } else {
                Some(entry.quantity())
            },
            drops: match entry.drops {
                Some(d) => Some(d.item(block)),
                None => None,
            },
        }
    }
}

/// The break table: for each tool kind and block kind, the rule that
/// applies, looked up from the most specific pair to the default.
pub struct BlockBreaking {
    entries: Vec<((ToolKind, BlockKind), BreakEntryPartial)>,
}

/// The lookup cascade for a tool and a block, most specific first: the
/// exact pair, the block's families, then the same under the tool's
/// family with its efficiency, then under the bare-hands default.
pub open spec fn spec_candidates(tool: Item, block: Block) -> Seq<(ToolKind, BlockKind, u64)> {
    spec_group(ToolKind::Item(tool), block, EFF_UNIT as u64) + (match tool.spec_tool_family() {
        Some(p) => spec_group(ToolKind::ToolFamily(p.0), block, p.1),
        None => Seq::empty(),
    }) + spec_group(ToolKind::Default, block, EFF_UNIT as u64)
}

/// One cascade group: the exact block, then each of its families, all
/// under one tool kind and efficiency.
pub open spec fn spec_group(tk: ToolKind, block: Block, eff: u64) -> Seq<(ToolKind, BlockKind, u64)> {
    seq![(tk, BlockKind::Block(block), eff)] + block.spec_families().map_values(
        |f: BlockFamily| (tk, BlockKind::Family(f), eff),
    )
}

/// The partial entry after the remaining candidates have been applied in
/// order, stopping as soon as both sides are known.
pub open spec fn spec_resolve(
    table: BlockBreaking,
    partial: BreakEntryPartial,
    cands: Seq<(ToolKind, BlockKind, u64)>,
) -> BreakEntryPartial
    decreases cands.len(),
{
    if cands.len() == 0 || partial.spec_is_complete() {
        partial
    } else {
        let c = cands[0];
        let next = match table.spec_lookup(c.0, c.1) {
            Some(e) => partial.spec_complete_with(e, c.2),
            None => partial,
        };
        spec_resolve(table, next, cands.drop_first())
    }
}

/// The empty partial entry the cascade starts from.
pub open spec fn spec_empty_partial() -> BreakEntryPartial {
    BreakEntryPartial { hardness: None, drops: None, min: None, max: None }
}

impl BlockBreaking {
    /// A pair of kinds keys at most one rule, and every rule is well
    /// formed.
    pub closed spec fn wf(self) -> bool {
        &&& forall|i: int, j: int|
            0 <= i < j < self.entries@.len() ==> (#[trigger] self.entries@[i]).0 != (
            #[trigger] self.entries@[j]).0
        &&& forall|i: int| 0 <= i < self.entries@.len() ==> (#[trigger] self.entries@[i]).1.wf()
    }

    /// The rule for one tool kind and block kind, if the table has one.
    pub closed spec fn spec_lookup(self, tool: ToolKind, block: BlockKind) -> Option<
        BreakEntryPartial,
    > {
        if self.spec_has(tool, block) {
            Some(self.entries@[self.key_index(tool, block)].1)
        } else {
            None
        }
    }

    pub closed spec fn spec_has(self, tool: ToolKind, block: BlockKind) -> bool {
        exists|i: int| 0 <= i < self.entries@.len() && self.entries@[i].0 == (tool, block)
    }

    spec fn key_index(self, tool: ToolKind, block: BlockKind) -> int {
        choose|i: int| 0 <= i < self.entries@.len() && self.entries@[i].0 == (tool, block)
    }

    proof fn lemma_lookup_wf(self, tool: ToolKind, block: BlockKind)
        requires
            self.wf(),
        ensures
            self.spec_lookup(tool, block) matches Some(e) ==> e.wf(),
    {
        if self.spec_has(tool, block) {
            let i = self.key_index(tool, block);
            assert(0 <= i < self.entries@.len() && self.entries@[i].0 == (tool, block));
        }
    }

    pub fn new() -> (r: BlockBreaking)
        ensures
            r.wf(),
            forall|t: ToolKind, b: BlockKind| r.spec_lookup(t, b) is None,
    {
        BlockBreaking { entries: Vec::new() }
    }

    /// Adds one rule; a later rule for the same pair of kinds replaces the
    /// earlier one.
    pub fn insert(&mut self, tool: ToolKind, block: BlockKind, entry: BreakEntryPartial)
        requires
            old(self).wf(),
            entry.wf(),
        ensures
            final(self).wf(),
            final(self).spec_lookup(tool, block) == Some(entry),
            forall|t: ToolKind, b: BlockKind|
                (t, b) != (tool, block) ==> final(self).spec_lookup(t, b) == old(self).spec_lookup(
                    t,
                    b,
                ),
    {
        let ghost o = old(self).entries@;
        match self.find_key(tool, block) {
            Some(i) => {
                self.entries.remove(i);
                self.entries.insert(i, ((tool, block), entry));
                proof {
                    let n = self.entries@;
                    assert(n =~= o.update(i as int, ((tool, block), entry)));
                    assert forall|p: int, q: int| 0 <= p < q < n.len() implies (
                    #[trigger] n[p]).0 != (#[trigger] n[q]).0 by {
                        assert(o[p].0 != o[q].0);
                    }
                    assert(n[i as int].0 == (tool, block));
                    assert(self.spec_has(tool, block));
                    self.lemma_lookup_at(i as int);
                    assert forall|t: ToolKind, b: BlockKind| (t, b) != (tool, block) implies final(self).spec_lookup(t, b) == old(self).spec_lookup(t, b) by {
                        self.lemma_same_keys_elsewhere(*old(self), i as int, t, b);
                    }
                }
            },
            None => {
                self.entries.push(((tool, block), entry));
                proof {
                    let n = self.entries@;
                    assert(n == o.push(((tool, block), entry)));
                    assert forall|p: int, q: int| 0 <= p < q < n.len() implies (
                    #[trigger] n[p]).0 != (#[trigger] n[q]).0 by {
                        if q == o.len() {
                            assert(o[p].0 != (tool, block));
                        } else {
                            assert(o[p].0 != o[q].0);
                        }
                    }
                    self.lemma_lookup_at(o.len() as int);
                    assert forall|t: ToolKind, b: BlockKind| (t, b) != (tool, block) implies final(self).spec_lookup(t, b) == old(self).spec_lookup(t, b) by {
                        if old(self).spec_has(t, b) {
                            let j = old(self).key_index(t, b);
                            assert(0 <= j < o.len() && o[j].0 == (t, b));
                            assert(n[j].0 == (t, b));
                            self.lemma_lookup_at(j);
                            old(self).lemma_lookup_at(j);
                        }
                        if self.spec_has(t, b) {
                            let j = self.key_index(t, b);
                            assert(0 <= j < n.len() && n[j].0 == (t, b));
                            assert(j < o.len());
                            assert(o[j].0 == (t, b));
                            assert(old(self).spec_has(t, b));
                        }
                    }
                }
            },
        }
    }

    proof fn lemma_lookup_at(self, i: int)
        requires
            self.wf(),
            0 <= i < self.entries@.len(),
        ensures
            self.spec_lookup(self.entries@[i].0.0, self.entries@[i].0.1) == Some(
                self.entries@[i].1,
            ),
    {
        let k = self.entries@[i].0;
        assert(self.entries@[i].0 == (k.0, k.1));
        assert(self.spec_has(k.0, k.1));
        let j = self.key_index(k.0, k.1);
        assert(0 <= j < self.entries@.len() && self.entries@[j].0 == (k.0, k.1));
        if j < i {
            assert(self.entries@[j].0 != self.entries@[i].0);
        } else if i < j {
            assert(self.entries@[i].0 != self.entries@[j].0);
        }
    }

    proof fn lemma_same_keys_elsewhere(
        self,
        prev: BlockBreaking,
        i: int,
        t: ToolKind,
        b: BlockKind,
    )
        requires
            prev.wf(),
            self.wf(),
            0 <= i < prev.entries@.len(),
            self.entries@.len() == prev.entries@.len(),
            forall|k: int|
                0 <= k < self.entries@.len() && k != i ==> self.entries@[k] == prev.entries@[k],
            self.entries@[i].0 == prev.entries@[i].0,
            (t, b) != prev.entries@[i].0,
        ensures
            self.spec_lookup(t, b) == prev.spec_lookup(t, b),
    {
        if prev.spec_has(t, b) {
            let j = prev.key_index(t, b);
            assert(0 <= j < prev.entries@.len() && prev.entries@[j].0 == (t, b));
            assert(j != i);
            assert(self.entries@[j].0 == (t, b));
            self.lemma_lookup_at(j);
            prev.lemma_lookup_at(j);
        } else if self.spec_has(t, b) {
            let j = self.key_index(t, b);
            assert(0 <= j < self.entries@.len() && self.entries@[j].0 == (t, b));
            assert(j != i);
            assert(prev.entries@[j].0 == (t, b));
            assert(prev.spec_has(t, b));
        }
    }

    fn find_key(&self, tool: ToolKind, block: BlockKind) -> (r: Option<usize>)
        ensures
            match r {
                Some(i) => 0 <= i < self.entries@.len() && self.entries@[i as int].0 == (
                    tool,
                    block,
                ),
                None => !self.spec_has(tool, block),
            },
    {
        let mut i: usize = 0;
        while i < self.entries.len()
            invariant
                i <= self.entries@.len(),
                forall|j: int| 0 <= j < i ==> (#[trigger] self.entries@[j]).0 != (tool, block),
            decreases self.entries@.len() - i,
        {
            if self.entries[i].0.0 == tool && self.entries[i].0.1 == block {
                return Some(i);
            }
            i = i + 1;
        }
        None
    }

    fn lookup(&self, tool: ToolKind, block: BlockKind) -> (r: Option<BreakEntryPartial>)
        requires
            self.wf(),
        ensures
            r == self.spec_lookup(tool, block),
    {
        match self.find_key(tool, block) {
            Some(i) => {
                proof {
                    self.lemma_lookup_at(i as int);
                }
                Some(self.entries[i].1)
            },
            None => None,
        }
    }

    /// Fills the missing sides of `partial` from the rule for one pair of
    /// kinds, if the table has one.
    fn try_to_complete(
        &self,
        partial: &mut BreakEntryPartial,
        tool_kind: &ToolKind,
        block_kind: &BlockKind,
        efficiency: u64,
    )
        requires
            self.wf(),
            efficiency >= 1,
        ensures
            *final(partial) == match self.spec_lookup(*tool_kind, *block_kind) {
                Some(e) => old(partial).spec_complete_with(e, efficiency),
                None => *old(partial),
            },
    {
        proof {
            self.lemma_lookup_wf(*tool_kind, *block_kind);
        }
        match self.lookup(*tool_kind, *block_kind) {
            Some(entry) => {
                partial.complete_with(&entry, efficiency);
            },
            None => {},
        }
    }

    /// Resolves the rule for breaking `block` with `tool`, trying the
    /// cascade of candidate pairs from the most specific to the default
    /// and stopping once hardness and drops are both known.
    pub fn get(&self, tool: &Item, block: &Block) -> (r: BreakEntry)
        requires
            self.wf(),
        ensures
            r == BreakEntry::spec_from_partial(
                spec_resolve(*self, spec_empty_partial(), spec_candidates(*tool, *block)),
                *block,
            ),
    {
        let cands = candidates(tool, block);
        let mut partial = BreakEntryPartial::default();
        proof {
            assert(cands@.skip(0) =~= cands@);
            assert(partial == spec_empty_partial());
        }
        let mut i: usize = 0;
        while i < cands.len() && !partial.is_complete()
            invariant
                self.wf(),
                cands@ == spec_candidates(*tool, *block),
                forall|k: int| 0 <= k < cands@.len() ==> (#[trigger] cands@[k]).2 >= 1,
                i <= cands@.len(),
                partial.min is Some ==> partial.max is Some,
                spec_resolve(*self, partial, cands@.skip(i as int)) == spec_resolve(
                    *self,
                    spec_empty_partial(),
                    cands@,
                ),
            decreases cands@.len() - i,
        {
            let c = cands[i];
            let ghost pre = partial;
            proof {
                self.lemma_lookup_wf(c.0, c.1);
            }
            self.try_to_complete(&mut partial, &c.0, &c.1, c.2);
            proof {
                assert(cands@.skip(i as int)[0] == c);
                assert(cands@.skip(i as int).drop_first() =~= cands@.skip(i as int + 1));
                assert(spec_resolve(*self, partial, cands@.skip(i as int + 1)) == spec_resolve(
                    *self,
                    pre,
                    cands@.skip(i as int),
                ));
            }
            i = i + 1;
        }
        proof {
            if i == cands@.len() {
                assert(cands@.skip(i as int) =~= Seq::<(ToolKind, BlockKind, u64)>::empty());
            }
            assert(spec_resolve(*self, partial, cands@.skip(i as int)) == partial);
        }
        BreakEntry::from_partial(partial, *block)
    }
}

/// The cascade of candidate pairs for `tool` on `block`, in lookup order.
fn candidates(tool: &Item, block: &Block) -> (r: Vec<(ToolKind, BlockKind, u64)>)
    ensures
        r@ == spec_candidates(*tool, *block),
        forall|k: int| 0 <= k < r@.len() ==> (#[trigger] r@[k]).2 >= 1,
{
    let mut out: Vec<(ToolKind, BlockKind, u64)> = Vec::new();
    push_group(&mut out, ToolKind::Item(*tool), block, EFF_UNIT);
    match tool.tool_family() {
        Some(p) => {
            push_group(&mut out, ToolKind::ToolFamily(p.0), block, p.1);
        },
        None => {},
    }
    push_group(&mut out, ToolKind::Default, block, EFF_UNIT);
    proof {
        assert(out@ =~= spec_candidates(*tool, *block));
        assert forall|k: int| 0 <= k < out@.len() implies (#[trigger] out@[k]).2 >= 1 by {}
    }
    out
}

fn push_group(out: &mut Vec<(ToolKind, BlockKind, u64)>, tk: ToolKind, block: &Block, eff: u64)
    requires
        eff >= 1,
    ensures
        final(out)@ == old(out)@ + spec_group(tk, *block, eff),
        forall|k: int|
            old(out)@.len() <= k < final(out)@.len() ==> (#[trigger] final(out)@[k]).2 == eff,
{
    out.push((tk, BlockKind::Block(*block), eff));
    let fams = block.families();
    let mut i: usize = 0;
    while i < fams.len()
        invariant
            fams@ == block.spec_families(),
            i <= fams@.len(),
            out@ == old(out)@ + seq![(tk, BlockKind::Block(*block), eff)] + fams@.take(
                i as int,
            ).map_values(|f: BlockFamily| (tk, BlockKind::Family(f), eff)),
        decreases fams@.len() - i,
    {
        out.push((tk, BlockKind::Family(fams[i]), eff));
        proof {
            assert(fams@.take(i as int + 1) =~= fams@.take(i as int).push(fams@[i as int]));
            assert(out@ =~= old(out)@ + seq![(tk, BlockKind::Block(*block), eff)] + fams@.take(
                i as int + 1,
            ).map_values(|f: BlockFamily| (tk, BlockKind::Family(f), eff)));
        }
        i = i + 1;
    }
    proof {
        assert(fams@.take(fams@.len() as int) =~= fams@);
        assert(final(out)@ =~= old(out)@ + spec_group(tk, *block, eff));
    }
}

} // verus!
