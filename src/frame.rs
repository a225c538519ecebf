use vstd::prelude::*;

verus! {

/// Number of layers (the `y` axis) of the cube.
pub const LAYERS: usize = 8;

/// Number of rows (the `x` axis) in one layer.
pub const ROWS: usize = 8;

/// Number of columns (the `z` axis) in one row.
pub const COLUMNS: usize = 8;

/// Number of voxels in one layer.
pub const LAYER_SIZE: usize = 64;

/// Number of voxels in the whole cube.
pub const VOXELS: usize = 512;

/// True when `(x, y, z)` addresses a voxel of the cube.
pub open spec fn in_cube(x: int, y: int, z: int) -> bool {
    0 <= x < 8 && 0 <= y < 8 && 0 <= z < 8
}

/// Position of voxel `(x, y, z)` in the buffer: layer `y`, then row `x`, then column `z`.
pub open spec fn voxel_index(x: int, y: int, z: int) -> int {
    y * 64 + x * 8 + z
}

/// The `x` coordinate (row) of buffer position `i`.
pub open spec fn row_of(i: int) -> int {
    (i / 8) % 8
}

/// The `y` coordinate (layer) of buffer position `i`.
pub open spec fn layer_of(i: int) -> int {
    i / 64
}

/// The `z` coordinate (column) of buffer position `i`.
pub open spec fn column_of(i: int) -> int {
    i % 8
}

/// The buffer `voxels` with voxel `(x, y, z)` replaced by `value`.
pub open spec fn with_voxel(voxels: Seq<u8>, x: int, y: int, z: int, value: u8) -> Seq<u8> {
    voxels.update(voxel_index(x, y, z), value)
}

/// A buffer with every voxel off.
pub open spec fn dark() -> Seq<u8> {
    Seq::new(512, |i: int| 0u8)
}

proof fn lemma_index_in_range(x: int, y: int, z: int)
    requires
        in_cube(x, y, z),
    ensures
        0 <= voxel_index(x, y, z) < 512,
        layer_of(voxel_index(x, y, z)) == y,
        row_of(voxel_index(x, y, z)) == x,
        column_of(voxel_index(x, y, z)) == z,
{
    assert(0 <= voxel_index(x, y, z) < 512) by (nonlinear_arith)
        requires
            in_cube(x, y, z),
    ;
    assert(layer_of(voxel_index(x, y, z)) == y) by (nonlinear_arith)
        requires
            in_cube(x, y, z),
    ;
    assert(row_of(voxel_index(x, y, z)) == x) by (nonlinear_arith)
        requires
            in_cube(x, y, z),
    ;
    assert(column_of(voxel_index(x, y, z)) == z) by (nonlinear_arith)
        requires
            in_cube(x, y, z),
    ;
}

/// Two distinct coordinates address two distinct buffer positions.
proof fn lemma_index_injective(x: int, y: int, z: int, a: int, b: int, c: int)
    requires
        in_cube(x, y, z),
        in_cube(a, b, c),
        (x, y, z) != (a, b, c),
    ensures
        voxel_index(x, y, z) != voxel_index(a, b, c),
{
    lemma_index_in_range(x, y, z);
    lemma_index_in_range(a, b, c);
}

/// The 8×8×8 voxel buffer, one brightness value (0 is off) per voxel.
pub struct Frame {
    voxels: Vec<u8>,
}

impl View for Frame {
    type V = Seq<u8>;

    closed spec fn view(&self) -> Seq<u8> {
        self.voxels@
    }
}

impl Frame {
    /// The buffer holds exactly one value per voxel.
    pub open spec fn wf(&self) -> bool {
        self@.len() == VOXELS
    }

    /// The value of voxel `(x, y, z)`.
    pub open spec fn voxel(&self, x: int, y: int, z: int) -> u8 {
        self@[voxel_index(x, y, z)]
    }

    /// A frame with every voxel off.
    pub fn new() -> (r: Frame)
        ensures
            r.wf(),
            r@ == dark(),
    {
        let mut voxels: Vec<u8> = Vec::with_capacity(VOXELS);
        let mut i: usize = 0;
        while i < VOXELS
            invariant
                i <= VOXELS,
                voxels@ == Seq::new(i as nat, |j: int| 0u8),
            decreases VOXELS - i,
        {
            voxels.push(0);
            i += 1;
        }
        assert(voxels@ =~= dark());
        Frame { voxels }
    }

    /// The value of voxel `(x, y, z)`; the coordinates must lie in the cube.
    pub fn get(&self, x: usize, y: usize, z: usize) -> (r: u8)
        requires
            self.wf(),
            in_cube(x as int, y as int, z as int),
        ensures
            r == self.voxel(x as int, y as int, z as int),
    {
        proof {
            lemma_index_in_range(x as int, y as int, z as int);
        }
        self.voxels[y * LAYER_SIZE + x * COLUMNS + z]
    }

    /// Sets voxel `(x, y, z)` to `val`; the coordinates must lie in the cube.
    pub fn set(&mut self, x: usize, y: usize, z: usize, val: u8)
        requires
            old(self).wf(),
            in_cube(x as int, y as int, z as int),
        ensures
            final(self).wf(),
            final(self)@ == with_voxel(old(self)@, x as int, y as int, z as int, val),
    {
        proof {
            lemma_index_in_range(x as int, y as int, z as int);
        }
        self.voxels.set(y * LAYER_SIZE + x * COLUMNS + z, val);
    }

    /// Turns every voxel off.
    pub fn zero(&mut self)
        ensures
            final(self).wf(),
            final(self)@ == dark(),
    {
        *self = Frame::new();
    }

    /// The whole buffer, layer after layer, each layer row after row.
    pub fn layers(&self) -> (r: &[u8])
        ensures
            r@ == self@,
    {
        self.voxels.as_slice()
    }

    /// Every voxel as `(x, y, z, value)`, in buffer order.
    pub fn pixels(&self) -> (r: Vec<(u8, u8, u8, u8)>)
        requires
            self.wf(),
        ensures
            r@.len() == VOXELS,
            forall|i: int|
                0 <= i < VOXELS ==> #[trigger] r@[i] == (
                    row_of(i) as u8,
                    layer_of(i) as u8,
                    column_of(i) as u8,
                    self@[i],
                ),
    {
        let mut r: Vec<(u8, u8, u8, u8)> = Vec::with_capacity(VOXELS);
        let mut i: usize = 0;
        while i < VOXELS
            invariant
                self.wf(),
                i <= VOXELS,
                r@.len() == i,
                forall|j: int|
                    0 <= j < i ==> #[trigger] r@[j] == (
                        row_of(j) as u8,
                        layer_of(j) as u8,
                        column_of(j) as u8,
                        self@[j],
                    ),
            decreases VOXELS - i,
        {
            let x = ((i / COLUMNS) % ROWS) as u8;
            let y = (i / LAYER_SIZE) as u8;
            let z = (i % COLUMNS) as u8;
            r.push((x, y, z, self.voxels[i]));
            i += 1;
        }
        r
    }

    /// Replaces each voxel's value by `f(x, y, z, value)`.
    pub fn pixels_mut<F: Fn(u8, u8, u8, u8) -> u8>(&mut self, f: F)
        requires
            old(self).wf(),
            forall|x: u8, y: u8, z: u8, v: u8|
                in_cube(x as int, y as int, z as int) ==> #[trigger] f.requires((x, y, z, v)),
        ensures
            final(self).wf(),
            forall|i: int|
                0 <= i < VOXELS ==> f.ensures(
                    (row_of(i) as u8, layer_of(i) as u8, column_of(i) as u8, old(self)@[i]),
                    #[trigger] final(self)@[i],
                ),
    {
        let ghost before = self@;
        let mut i: usize = 0;
        while i < VOXELS
            invariant
                self.wf(),
                i <= VOXELS,
                forall|x: u8, y: u8, z: u8, v: u8|
                    in_cube(x as int, y as int, z as int) ==> #[trigger] f.requires((x, y, z, v)),
                forall|j: int| i <= j < VOXELS ==> self@[j] == before[j],
                forall|j: int|
                    0 <= j < i ==> f.ensures(
                        (row_of(j) as u8, layer_of(j) as u8, column_of(j) as u8, before[j]),
                        #[trigger] self@[j],
                    ),
            decreases VOXELS - i,
        {
            let x = ((i / COLUMNS) % ROWS) as u8;
            let y = (i / LAYER_SIZE) as u8;
            let z = (i % COLUMNS) as u8;
            let v = f(x, y, z, self.voxels[i]);
            self.voxels.set(i, v);
            i += 1;
        }
    }
}

/// Setting a voxel and reading it back gives the value set, and leaves every
/// other voxel as it was.
pub proof fn lemma_set_then_get(f: Frame, x: int, y: int, z: int, value: u8, a: int, b: int, c: int)
    requires
        f.wf(),
        in_cube(x, y, z),
        in_cube(a, b, c),
    ensures
        with_voxel(f@, x, y, z, value)[voxel_index(x, y, z)] == value,
        (a, b, c) != (x, y, z) ==> with_voxel(f@, x, y, z, value)[voxel_index(a, b, c)]
            == f.voxel(a, b, c),
{
    lemma_index_in_range(x, y, z);
    lemma_index_in_range(a, b, c);
    if (a, b, c) != (x, y, z) {
        lemma_index_injective(x, y, z, a, b, c);
    }
}

/// After `zero`, every voxel of the cube is off.
pub proof fn lemma_zero_is_dark(x: int, y: int, z: int)
    requires
        in_cube(x, y, z),
    ensures
        dark()[voxel_index(x, y, z)] == 0,
{
    lemma_index_in_range(x, y, z);
}

} // verus!
