use vstd::prelude::*;

verus! {

/// Identifier of an independent coordinate space. Columns in different
/// realms are never spatially comparable.
#[derive(Clone, Copy, PartialEq, Eq, Hash, Debug, Structural)]
pub struct RealmId(pub u32);

/// Coordinate of a column: a vertical stack of spatial units sharing an
/// (x, z) position inside one realm.
#[derive(Clone, Copy, PartialEq, Eq, Hash, Debug, Structural)]
pub struct ColumnCoord {
    pub realm: RealmId,
    pub x: i32,
    pub z: i32,
}

/// Number of vertical layers a column is split into for volumetric units.
pub const Y_LAYERS: u32 = 8;

/// Coordinate of a spatial unit: either a whole column (flat rendering) or
/// one vertical layer of a column (volumetric rendering).
#[derive(Clone, Copy, PartialEq, Eq, Hash, Debug, Structural)]
pub enum SpatialUnitCoord {
    Column { col: ColumnCoord },
    Chunk { col: ColumnCoord, layer: u32 },
}

impl SpatialUnitCoord {
    /// The column this unit belongs to.
    pub open spec fn spec_column(self) -> ColumnCoord {
        match self {
            SpatialUnitCoord::Column { col } => col,
            SpatialUnitCoord::Chunk { col, .. } => col,
        }
    }

    pub fn column(&self) -> (r: ColumnCoord)
        ensures
            r == self.spec_column(),
    {
        match self {
            SpatialUnitCoord::Column { col } => *col,
            SpatialUnitCoord::Chunk { col, .. } => *col,
        }
    }

    /// A chunk unit is well formed when its layer index is in range.
    pub open spec fn wf(self) -> bool {
        match self {
            SpatialUnitCoord::Column { .. } => true,
            SpatialUnitCoord::Chunk { layer, .. } => layer < Y_LAYERS,
        }
    }
}

pub open spec fn abs_diff(a: int, b: int) -> int {
    if a >= b {
        a - b
    } else {
        b - a
    }
}

/// Chebyshev distance between two columns, meaningful only within one realm.
pub open spec fn chebyshev(a: ColumnCoord, b: ColumnCoord) -> int {
    if abs_diff(a.x as int, b.x as int) >= abs_diff(a.z as int, b.z as int) {
        abs_diff(a.x as int, b.x as int)
    } else {
        abs_diff(a.z as int, b.z as int)
    }
}

impl ColumnCoord {
    /// Chebyshev distance to another column of the same realm.
    pub fn dist(&self, other: ColumnCoord) -> (r: u64)
        ensures
            r as int == chebyshev(*self, other),
    {
        let dx = (self.x as i64) - (other.x as i64);
        let dz = (self.z as i64) - (other.z as i64);
        let ax = if dx >= 0 { dx } else { -dx };
        let az = if dz >= 0 { dz } else { -dz };
        (if ax >= az { ax } else { az }) as u64
    }
}

/// All spatial units derived from one column: one chunk per vertical layer.
pub fn units_of_column(col: ColumnCoord) -> (r: Vec<SpatialUnitCoord>)
    ensures
        r@.len() == Y_LAYERS,
        forall|i: int|
            0 <= i < r@.len() ==> r@[i] == (SpatialUnitCoord::Chunk { col, layer: i as u32 }),
{
    let mut out: Vec<SpatialUnitCoord> = Vec::new();
    let mut layer: u32 = 0;
    while layer < Y_LAYERS
        invariant
            layer <= Y_LAYERS,
            out@.len() == layer,
            forall|i: int|
                0 <= i < out@.len() ==> out@[i] == (SpatialUnitCoord::Chunk {
                    col,
                    layer: i as u32,
                }),
        decreases Y_LAYERS - layer,
    {
        out.push(SpatialUnitCoord::Chunk { col, layer });
        layer = layer + 1;
    }
    out
}

} // verus!
