//! A dense box of voxels, one colour word per voxel.
//!
//! The voxel at `(x, y, z)` is stored at `x + z * size_x + y * size_x * size_z`:
//! x runs fastest, then z, and each value of y is one horizontal slab.

use vstd::arithmetic::div_mod::lemma_fundamental_div_mod_converse;
use vstd::prelude::*;

verus! {

/// A box of `size_x * size_y * size_z` voxels.
pub struct Lattice {
    pub data: Vec<u32>,
    size_x: usize,
    size_y: usize,
    size_z: usize,
}

/// The edge lengths of a lattice, in the layout in which a shader reads them.
#[derive(Debug, Copy, Clone, Default)]
pub struct LatticeHeaders {
    pub size_x: u32,
    pub size_y: u32,
    pub size_z: u32,
}

/// The four bytes of a word, the lowest first if `low_first`, else the highest first.
pub open spec fn word_bytes(word: u32, low_first: bool) -> Seq<u8> {
    let low = seq![
        (word % 0x100) as u8,
        (word / 0x100 % 0x100) as u8,
        (word / 0x1_0000 % 0x100) as u8,
        (word / 0x100_0000) as u8,
    ];
    if low_first {
        low
    } else {
        low.reverse()
    }
}

/// `bytes` holds `words` one after the other, four bytes each, in one byte order.
pub open spec fn holds_words(bytes: Seq<u8>, words: Seq<u32>, low_first: bool) -> bool {
    &&& bytes.len() == 4 * words.len()
    &&& forall|i: int, k: int|
        0 <= i < words.len() && 0 <= k < 4 ==> #[trigger] bytes[4 * i + k] == word_bytes(
            words[i],
            low_first,
        )[k]
}

/// `bytemuck::cast_slice` from words to bytes: the same memory, seen as
/// bytes. There are four bytes for each word, and they hold the word in the
/// byte order of the machine, which is one of the two.
#[verifier::external_body]
fn cast_words(words: &[u32]) -> (bytes: &[u8])
    ensures
        holds_words(bytes@, words@, true) || holds_words(bytes@, words@, false),
{
    bytemuck::cast_slice(words)
}

/// Where the voxel `(x, y, z)` of a lattice with the given edge lengths is stored.
pub open spec fn voxel_index(size_x: int, size_z: int, x: int, y: int, z: int) -> int {
    x + z * size_x + y * size_x * size_z
}

impl View for Lattice {
    type V = Seq<u32>;

    /// The colour words in storage order.
    closed spec fn view(&self) -> Seq<u32> {
        self.data@
    }
}

impl Lattice {
    /// The edge length along x.
    pub closed spec fn spec_size_x(&self) -> int {
        self.size_x as int
    }

    /// The edge length along y.
    pub closed spec fn spec_size_y(&self) -> int {
        self.size_y as int
    }

    /// The edge length along z.
    pub closed spec fn spec_size_z(&self) -> int {
        self.size_z as int
    }

    /// There is exactly one word per voxel.
    pub open spec fn wf(&self) -> bool {
        self@.len() == self.spec_size_x() * self.spec_size_y() * self.spec_size_z()
    }

    /// Where this lattice stores the voxel `(x, y, z)`.
    pub open spec fn index_of(&self, x: int, y: int, z: int) -> int {
        voxel_index(self.spec_size_x(), self.spec_size_z(), x, y, z)
    }

    /// The index of `(x, y, z)` can be computed in machine words and names a
    /// stored word. Inside the box this always holds, see
    /// `lemma_index_in_bounds`.
    pub open spec fn addressable(&self, x: int, y: int, z: int) -> bool {
        &&& y * self.spec_size_x() <= usize::MAX
        &&& self.index_of(x, y, z) < self@.len()
    }

    /// A lattice of the given edge lengths with every voxel zero.
    pub fn new(size_x: usize, size_y: usize, size_z: usize) -> (lattice: Self)
        requires
            size_x * size_y <= usize::MAX,
            size_x * size_y * size_z * 4 <= isize::MAX,
        ensures
            lattice.wf(),
            lattice.spec_size_x() == size_x,
            lattice.spec_size_y() == size_y,
            lattice.spec_size_z() == size_z,
            forall|i: int| 0 <= i < lattice@.len() ==> lattice@[i] == 0,
    {
        Self { data: vec![0; size_x * size_y * size_z], size_x, size_y, size_z }
    }

    /// The colour words as the bytes that a shader is handed: in storage
    /// order, each word in the byte order of the machine.
    pub fn as_bytes(&self) -> (bytes: &[u8])
        ensures
            holds_words(bytes@, self@, true) || holds_words(bytes@, self@, false),
    {
        cast_words(self.data.as_slice())
    }

    /// Gives the voxel `(x, y, z)` the colour `value`; every other voxel keeps its own.
    pub fn set(&mut self, x: usize, y: usize, z: usize, value: u32)
        requires
            old(self).addressable(x as int, y as int, z as int),
        ensures
            final(self)@ == old(self)@.update(
                old(self).index_of(x as int, y as int, z as int),
                value,
            ),
            final(self).spec_size_x() == old(self).spec_size_x(),
            final(self).spec_size_y() == old(self).spec_size_y(),
            final(self).spec_size_z() == old(self).spec_size_z(),
    {
        proof {
            lemma_index_terms(self.size_x as int, self.size_z as int, x as int, y as int, z as int);
            assert(self.data@.len() == self.data.len());
        }
        let index = x + (z * self.size_x) + (y * self.size_x * self.size_z);
        self.data[index] = value;
    }
}

/// The colour of the parity pattern at `(x, y, z)`: opacity `0xBB` in the top
/// byte, and below it full blue where z is even, full green where y is even
/// and full red where x is even.
pub open spec fn parity_colour(x: int, y: int, z: int) -> u32 {
    let red: u32 = if x % 2 == 0 { 0x0000_00FF } else { 0 };
    let green: u32 = if y % 2 == 0 { 0x0000_FF00 } else { 0 };
    let blue: u32 = if z % 2 == 0 { 0x00FF_0000 } else { 0 };
    (0xBB00_0000 + red + green + blue) as u32
}

/// Computes `parity_colour`.
pub fn colour_by_parity(x: usize, y: usize, z: usize) -> (colour: u32)
    ensures
        colour == parity_colour(x as int, y as int, z as int),
{
    let red: u32 = if x % 2 == 0 { 0x0000_00FF } else { 0 };
    let green: u32 = if y % 2 == 0 { 0x0000_FF00 } else { 0 };
    let blue: u32 = if z % 2 == 0 { 0x00FF_0000 } else { 0 };
    0xBB00_0000 + red + green + blue
}

impl Lattice {
    /// The voxel `(a, b, c)` comes before `(x, y, z)` where x is walked
    /// slowest and z fastest.
    pub open spec fn walked_before(a: int, b: int, c: int, x: int, y: int, z: int) -> bool {
        a < x || (a == x && b < y) || (a == x && b == y && c < z)
    }

    /// Every voxel inside the box that comes before `(x, y, z)` has its parity colour.
    pub open spec fn patterned_before(&self, x: int, y: int, z: int) -> bool {
        forall|a: int, b: int, c: int|
            0 <= a < self.spec_size_x() && 0 <= b < self.spec_size_y() && 0 <= c
                < self.spec_size_z() && Self::walked_before(a, b, c, x, y, z)
                ==> self@[#[trigger] self.index_of(a, b, c)] == parity_colour(a, b, c)
    }

    /// Every voxel inside the box has its parity colour.
    pub open spec fn patterned(&self) -> bool {
        forall|a: int, b: int, c: int|
            0 <= a < self.spec_size_x() && 0 <= b < self.spec_size_y() && 0 <= c
                < self.spec_size_z() ==> self@[#[trigger] self.index_of(a, b, c)]
                == parity_colour(a, b, c)
    }

    /// Paints the parity pattern over the whole box.
    pub fn paint_parity(&mut self)
        requires
            old(self).wf(),
        ensures
            final(self).wf(),
            final(self).patterned(),
            final(self).spec_size_x() == old(self).spec_size_x(),
            final(self).spec_size_y() == old(self).spec_size_y(),
            final(self).spec_size_z() == old(self).spec_size_z(),
    {
        let size_x = self.size_x;
        let size_y = self.size_y;
        let size_z = self.size_z;
        let mut x: usize = 0;
        while x < size_x
            invariant
                self.wf(),
                x <= size_x,
                size_x == self.size_x == old(self).size_x,
                size_y == self.size_y == old(self).size_y,
                size_z == self.size_z == old(self).size_z,
                self.patterned_before(x as int, 0, 0),
            decreases size_x - x,
        {
            let mut y: usize = 0;
            while y < size_y
                invariant
                    self.wf(),
                    x < size_x,
                    y <= size_y,
                    size_x == self.size_x == old(self).size_x,
                    size_y == self.size_y == old(self).size_y,
                    size_z == self.size_z == old(self).size_z,
                    self.patterned_before(x as int, y as int, 0),
                decreases size_y - y,
            {
                let mut z: usize = 0;
                while z < size_z
                    invariant
                        self.wf(),
                        x < size_x,
                        y < size_y,
                        z <= size_z,
                        size_x == self.size_x == old(self).size_x,
                        size_y == self.size_y == old(self).size_y,
                        size_z == self.size_z == old(self).size_z,
                        self.patterned_before(x as int, y as int, z as int),
                    decreases size_z - z,
                {
                    let ghost before = *self;
                    proof {
                        self.lemma_index_in_bounds(x as int, y as int, z as int);
                    }
                    self.set(x, y, z, colour_by_parity(x, y, z));
                    proof {
                        assert forall|a: int, b: int, c: int|
                            0 <= a < self.spec_size_x() && 0 <= b < self.spec_size_y() && 0 <= c
                                < self.spec_size_z() && Self::walked_before(
                                a,
                                b,
                                c,
                                x as int,
                                y as int,
                                z + 1,
                            ) implies self@[#[trigger] self.index_of(a, b, c)] == parity_colour(
                            a,
                            b,
                            c,
                        ) by {
                            before.lemma_index_in_bounds(a, b, c);
                            if a == x && b == y && c == z {
                            } else {
                                if before.index_of(a, b, c) == before.index_of(
                                    x as int,
                                    y as int,
                                    z as int,
                                ) {
                                    before.lemma_index_injective(a, b, c, x as int, y as int, z as int);
                                }
                                assert(self@[self.index_of(a, b, c)] == before@[before.index_of(
                                    a,
                                    b,
                                    c,
                                )]);
                            }
                        }
                    }
                    z += 1;
                }
                y += 1;
            }
            x += 1;
        }
    }

    /// Every voxel inside the box can be addressed.
    pub proof fn lemma_index_in_bounds(&self, x: int, y: int, z: int)
        requires
            self.wf(),
            0 <= x < self.spec_size_x(),
            0 <= y < self.spec_size_y(),
            0 <= z < self.spec_size_z(),
        ensures
            self.addressable(x, y, z),
            0 <= self.index_of(x, y, z),
    {
        assert(self.data@.len() == self.data.len());
        lemma_index_below_volume(
            self.size_x as int,
            self.size_y as int,
            self.size_z as int,
            x,
            y,
            z,
        );
    }

    /// Two voxels inside the box that are stored at the same place are the same voxel.
    pub proof fn lemma_index_injective(&self, x: int, y: int, z: int, u: int, v: int, w: int)
        requires
            0 <= x < self.spec_size_x(),
            0 <= u < self.spec_size_x(),
            0 <= y,
            0 <= v,
            0 <= z < self.spec_size_z(),
            0 <= w < self.spec_size_z(),
            self.index_of(x, y, z) == self.index_of(u, v, w),
        ensures
            x == u,
            y == v,
            z == w,
    {
        let sx = self.size_x as int;
        let sz = self.size_z as int;
        lemma_index_digits(sx, sz, x, y, z);
        lemma_index_digits(sx, sz, u, v, w);
    }
}

impl LatticeHeaders {
    /// The header of a lattice with the given edge lengths.
    pub fn new(size_x: u32, size_y: u32, size_z: u32) -> (headers: Self)
        ensures
            headers.size_x == size_x,
            headers.size_y == size_y,
            headers.size_z == size_z,
    {
        Self { size_x, size_y, size_z }
    }
}

/// No term of a voxel index is negative, so each is at most the index itself.
proof fn lemma_index_terms(size_x: int, size_z: int, x: int, y: int, z: int)
    by (nonlinear_arith)
    requires
        0 <= size_x,
        0 <= size_z,
        0 <= x,
        0 <= y,
        0 <= z,
    ensures
        0 <= z * size_x,
        0 <= y * size_x,
        0 <= y * size_x * size_z,
{
}

/// Inside the box an index is below the number of voxels, and so is each of
/// the products it is made of.
proof fn lemma_index_below_volume(size_x: int, size_y: int, size_z: int, x: int, y: int, z: int)
    by (nonlinear_arith)
    requires
        0 <= x < size_x,
        0 <= y < size_y,
        0 <= z < size_z,
    ensures
        0 <= y * size_x <= voxel_index(size_x, size_z, x, y, z),
        0 <= voxel_index(size_x, size_z, x, y, z) < size_x * size_y * size_z,
{
    assert(x + z * size_x <= size_x * size_z - 1) by {
        assert(z * size_x <= (size_z - 1) * size_x);
    }
    assert(y * size_x * size_z <= (size_y - 1) * (size_x * size_z)) by {
        assert(y * size_x * size_z == y * (size_x * size_z));
    }
    assert((size_y - 1) * (size_x * size_z) + size_x * size_z == size_x * size_y * size_z);
    assert(y * size_x <= y * size_x * size_z);
}

/// The coordinates can be read back off an index: x is its last digit to the
/// base `size_x`, z the next digit to the base `size_z`, and y what is left.
proof fn lemma_index_digits(size_x: int, size_z: int, x: int, y: int, z: int)
    requires
        0 <= x < size_x,
        0 <= z < size_z,
    ensures
        x == voxel_index(size_x, size_z, x, y, z) % size_x,
        z == (voxel_index(size_x, size_z, x, y, z) / size_x) % size_z,
        y == (voxel_index(size_x, size_z, x, y, z) / size_x) / size_z,
{
    let index = voxel_index(size_x, size_z, x, y, z);
    let rest = z + y * size_z;
    assert(index == rest * size_x + x) by (nonlinear_arith)
        requires
            index == x + z * size_x + y * size_x * size_z,
            rest == z + y * size_z,
    ;
    lemma_fundamental_div_mod_converse(index, size_x, rest, x);
    assert(rest == y * size_z + z);
    lemma_fundamental_div_mod_converse(rest, size_z, y, z);
}

} // verus!
