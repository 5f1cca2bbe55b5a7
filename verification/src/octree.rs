use vstd::prelude::*;

verus! {

/// Error that can occur when creating a voxel octree.
#[derive(Debug, Clone, Copy, PartialEq, Eq, Structural)]
pub enum VoxelOctreeCreationError {
    /// The size of the octree is not a power of 2.
    SizeNotPowerOfTwo,
}

/// Octree for storing any type of data.
#[derive(Debug)]
pub enum Octree<T> {
    /// Empty variant.
    Empty,
    /// A leaf node, only ever present at the finest subdivision level.
    Leaf(T),
    /// An interior node with 8 children.
    Node(Box<Octants<T>>),
}

/// The eight children of an interior node, one per octant.
///
/// The octant of a coordinate is selected by comparing each axis against
/// half the current extent: low/high x picks between even and odd children,
/// low/high y adds 2, low/high z adds 4.
#[derive(Debug)]
pub struct Octants<T> {
    pub c0: Octree<T>,
    pub c1: Octree<T>,
    pub c2: Octree<T>,
    pub c3: Octree<T>,
    pub c4: Octree<T>,
    pub c5: Octree<T>,
    pub c6: Octree<T>,
    pub c7: Octree<T>,
}

/// Whether `n` is a power of two.
pub open spec fn spec_is_pow2(n: nat) -> bool
    decreases n,
{
    if n == 0 {
        false
    } else if n == 1 {
        true
    } else {
        n % 2 == 0 && spec_is_pow2(n / 2)
    }
}

/// Which child of a node with half-extent `h` holds local coordinate
/// `(x, y, z)`.
pub open spec fn octant_index(x: int, y: int, z: int, h: int) -> int {
    (if x >= h { 1int } else { 0int }) + (if y >= h { 2int } else { 0int })
        + (if z >= h { 4int } else { 0int })
}

impl<T> Octants<T> {
    /// The child with the given octant index.
    pub open spec fn spec_child(self, i: int) -> Octree<T> {
        if i == 0 {
            self.c0
        } else if i == 1 {
            self.c1
        } else if i == 2 {
            self.c2
        } else if i == 3 {
            self.c3
        } else if i == 4 {
            self.c4
        } else if i == 5 {
            self.c5
        } else if i == 6 {
            self.c6
        } else {
            self.c7
        }
    }

    fn new_empty() -> (r: Octants<T>)
        ensures
            r.c0 == Octree::<T>::Empty,
            r.c1 == Octree::<T>::Empty,
            r.c2 == Octree::<T>::Empty,
            r.c3 == Octree::<T>::Empty,
            r.c4 == Octree::<T>::Empty,
            r.c5 == Octree::<T>::Empty,
            r.c6 == Octree::<T>::Empty,
            r.c7 == Octree::<T>::Empty,
    {
        Octants {
            c0: Octree::Empty,
            c1: Octree::Empty,
            c2: Octree::Empty,
            c3: Octree::Empty,
            c4: Octree::Empty,
            c5: Octree::Empty,
            c6: Octree::Empty,
            c7: Octree::Empty,
        }
    }
}

impl<T> Octree<T> {
    /// Create a new octree.
    pub fn new() -> (r: Self)
        ensures
            r == Octree::<T>::Empty,
    {
        Octree::Empty
    }

    /// Well-formedness of a subtree with extent `size`: leaves appear only
    /// at extent 1 and interior nodes only above it.
    pub open spec fn wf(self, size: nat) -> bool
        decreases self,
    {
        match self {
            Octree::Empty => true,
            Octree::Leaf(_) => size == 1,
            Octree::Node(b) => {
                &&& size >= 2
                &&& b.c0.wf(size / 2)
                &&& b.c1.wf(size / 2)
                &&& b.c2.wf(size / 2)
                &&& b.c3.wf(size / 2)
                &&& b.c4.wf(size / 2)
                &&& b.c5.wf(size / 2)
                &&& b.c6.wf(size / 2)
                &&& b.c7.wf(size / 2)
            },
        }
    }

    /// The value stored for local coordinate `(x, y, z)` in a subtree with
    /// extent `size`, or `None` where nothing was ever stored.
    pub open spec fn spec_get(self, size: nat, x: int, y: int, z: int) -> Option<T>
        decreases size, 0int,
    {
        match self {
            Octree::Empty => None,
            Octree::Leaf(v) => Some(v),
            Octree::Node(b) => {
                if size >= 2 {
                    octants_get(*b, size / 2, x, y, z)
                } else {
                    None
                }
            },
        }
    }
}

/// The value stored for `(x, y, z)` among eight children whose own extent
/// is `h`: descend into the octant of the coordinate with the coordinate
/// reduced to that octant.
pub open spec fn octants_get<T>(kids: Octants<T>, h: nat, x: int, y: int, z: int) -> Option<T>
    decreases h, 1int,
{
    let cx = if x >= h { x - h } else { x };
    let cy = if y >= h { y - h } else { y };
    let cz = if z >= h { z - h } else { z };
    kids.spec_child(octant_index(x, y, z, h as int)).spec_get(h, cx, cy, cz)
}

/// Replaces the value at `(x, y, z)` in a subtree, materializing interior
/// nodes lazily on the way down, and leaves every other coordinate alone.
fn insert_tree<T>(node: Octree<T>, size: usize, x: usize, y: usize, z: usize, value: T) -> (r:
    Octree<T>)
    requires
        node.wf(size as nat),
        spec_is_pow2(size as nat),
        x < size,
        y < size,
        z < size,
    ensures
        r.wf(size as nat),
        forall|qx: int, qy: int, qz: int|
            0 <= qx < size && 0 <= qy < size && 0 <= qz < size ==> r.spec_get(
                size as nat,
                qx,
                qy,
                qz,
            ) == (if qx == x && qy == y && qz == z {
                Some(value)
            } else {
                node.spec_get(size as nat, qx, qy, qz)
            }),
    decreases size, 0int,
{
    if size == 1 {
        return Octree::Leaf(value);
    }
    let h = size / 2;
    proof {
        assert(spec_is_pow2(h as nat));
        assert(size == 2 * h);
    }
    match node {
        Octree::Node(b) => {
            let kids = *b;
            let ghost old_kids = kids;
            proof {
                assert(node.wf(size as nat));
                assert(old_kids.c0.wf((size as nat) / 2) && old_kids.c1.wf((size as nat) / 2)
                    && old_kids.c2.wf((size as nat) / 2) && old_kids.c3.wf((size as nat) / 2)
                    && old_kids.c4.wf((size as nat) / 2) && old_kids.c5.wf((size as nat) / 2)
                    && old_kids.c6.wf((size as nat) / 2) && old_kids.c7.wf((size as nat) / 2));
                assert((size as nat) / 2 == h as nat);
                assert forall|qx: int, qy: int, qz: int|
                    0 <= qx < size && 0 <= qy < size && 0 <= qz < size implies node.spec_get(
                    size as nat,
                    qx,
                    qy,
                    qz,
                ) == octants_get(old_kids, h as nat, qx, qy, qz) by {}
            }
            let r = insert_octants(kids, h, x, y, z, value);
            let ghost gr = r;
            let result = Octree::Node(Box::new(r));
            proof {
                assert forall|qx: int, qy: int, qz: int|
                    0 <= qx < size && 0 <= qy < size && 0 <= qz < size implies result.spec_get(
                    size as nat,
                    qx,
                    qy,
                    qz,
                ) == octants_get(gr, h as nat, qx, qy, qz) by {}
            }
            result
        },
        _ => {
            proof {
                assert(node is Empty);
            }
            let kids = Octants::new_empty();
            let ghost old_kids = kids;
            proof {
                assert forall|qx: int, qy: int, qz: int|
                    0 <= qx < size && 0 <= qy < size && 0 <= qz < size implies node.spec_get(
                    size as nat,
                    qx,
                    qy,
                    qz,
                ) == octants_get(old_kids, h as nat, qx, qy, qz) by {
                    assert(old_kids.spec_child(octant_index(qx, qy, qz, h as int))
                        == Octree::<T>::Empty);
                }
            }
            let r = insert_octants(kids, h, x, y, z, value);
            let ghost gr = r;
            let result = Octree::Node(Box::new(r));
            proof {
                assert forall|qx: int, qy: int, qz: int|
                    0 <= qx < size && 0 <= qy < size && 0 <= qz < size implies result.spec_get(
                    size as nat,
                    qx,
                    qy,
                    qz,
                ) == octants_get(gr, h as nat, qx, qy, qz) by {}
            }
            result
        },
    }
}

/// Replaces the value at `(x, y, z)` among eight children of extent `h`,
/// recursing into the octant of the coordinate and leaving the seven other
/// children alone.
fn insert_octants<T>(kids: Octants<T>, h: usize, x: usize, y: usize, z: usize, value: T) -> (r:
    Octants<T>)
    requires
        spec_is_pow2(h as nat),
        kids.c0.wf(h as nat),
        kids.c1.wf(h as nat),
        kids.c2.wf(h as nat),
        kids.c3.wf(h as nat),
        kids.c4.wf(h as nat),
        kids.c5.wf(h as nat),
        kids.c6.wf(h as nat),
        kids.c7.wf(h as nat),
        x < 2 * h,
        y < 2 * h,
        z < 2 * h,
    ensures
        r.c0.wf(h as nat),
        r.c1.wf(h as nat),
        r.c2.wf(h as nat),
        r.c3.wf(h as nat),
        r.c4.wf(h as nat),
        r.c5.wf(h as nat),
        r.c6.wf(h as nat),
        r.c7.wf(h as nat),
        forall|qx: int, qy: int, qz: int|
            0 <= qx < 2 * h && 0 <= qy < 2 * h && 0 <= qz < 2 * h ==> octants_get(
                r,
                h as nat,
                qx,
                qy,
                qz,
            ) == (if qx == x && qy == y && qz == z {
                Some(value)
            } else {
                octants_get(kids, h as nat, qx, qy, qz)
            }),
    decreases h, 1int,
{
    let bx = x >= h;
    let by = y >= h;
    let bz = z >= h;
    let xr = if bx { x - h } else { x };
    let yr = if by { y - h } else { y };
    let zr = if bz { z - h } else { z };
    let ghost old_kids = kids;
    let Octants { mut c0, mut c1, mut c2, mut c3, mut c4, mut c5, mut c6, mut c7 } = kids;
    if !bx && !by && !bz {
        c0 = insert_tree(c0, h, xr, yr, zr, value);
    } else if bx && !by && !bz {
        c1 = insert_tree(c1, h, xr, yr, zr, value);
    } else if !bx && by && !bz {
        c2 = insert_tree(c2, h, xr, yr, zr, value);
    } else if bx && by && !bz {
        c3 = insert_tree(c3, h, xr, yr, zr, value);
    } else if !bx && !by && bz {
        c4 = insert_tree(c4, h, xr, yr, zr, value);
    } else if bx && !by && bz {
        c5 = insert_tree(c5, h, xr, yr, zr, value);
    } else if !bx && by && bz {
        c6 = insert_tree(c6, h, xr, yr, zr, value);
    } else {
        c7 = insert_tree(c7, h, xr, yr, zr, value);
    }
    let result = Octants { c0, c1, c2, c3, c4, c5, c6, c7 };
    proof {
        let idx = octant_index(x as int, y as int, z as int, h as int);
        assert forall|qx: int, qy: int, qz: int|
            0 <= qx < 2 * h && 0 <= qy < 2 * h && 0 <= qz < 2 * h implies octants_get(
            result,
            h as nat,
            qx,
            qy,
            qz,
        ) == (if qx == x && qy == y && qz == z {
            Some(value)
        } else {
            octants_get(old_kids, h as nat, qx, qy, qz)
        }) by {
            let qi = octant_index(qx, qy, qz, h as int);
            let cqx = if qx >= h { qx - h } else { qx };
            let cqy = if qy >= h { qy - h } else { qy };
            let cqz = if qz >= h { qz - h } else { qz };
            assert(octants_get(result, h as nat, qx, qy, qz) == result.spec_child(qi).spec_get(
                h as nat,
                cqx,
                cqy,
                cqz,
            ));
            assert(octants_get(old_kids, h as nat, qx, qy, qz) == old_kids.spec_child(qi).spec_get(
                h as nat,
                cqx,
                cqy,
                cqz,
            ));
            assert(0 <= cqx < h && 0 <= cqy < h && 0 <= cqz < h);
            if qi == idx {
                if !(qx == x && qy == y && qz == z) {
                    assert(!(cqx == xr && cqy == yr && cqz == zr));
                }
            } else {
                assert(result.spec_child(qi) == old_kids.spec_child(qi));
            }
        }
    }
    result
}

/// Reads the value at `(x, y, z)` from a subtree, mirroring the descent of
/// `insert_tree`.
fn get_tree<'a, T>(node: &'a Octree<T>, size: usize, x: usize, y: usize, z: usize) -> (r: Option<
    &'a T,
>)
    requires
        node.wf(size as nat),
        spec_is_pow2(size as nat),
        x < size,
        y < size,
        z < size,
    ensures
        match r {
            Some(v) => node.spec_get(size as nat, x as int, y as int, z as int) == Some(*v),
            None => node.spec_get(size as nat, x as int, y as int, z as int) is None,
        },
    decreases size,
{
    if size == 1 {
        match node {
            Octree::Leaf(v) => Some(v),
            _ => None,
        }
    } else {
        let h = size / 2;
        proof {
            assert(spec_is_pow2(h as nat));
        }
        match node {
            Octree::Node(b) => {
                let bx = x >= h;
                let by = y >= h;
                let bz = z >= h;
                let xr = if bx { x - h } else { x };
                let yr = if by { y - h } else { y };
                let zr = if bz { z - h } else { z };
                if !bx && !by && !bz {
                    get_tree(&b.c0, h, xr, yr, zr)
                } else if bx && !by && !bz {
                    get_tree(&b.c1, h, xr, yr, zr)
                } else if !bx && by && !bz {
                    get_tree(&b.c2, h, xr, yr, zr)
                } else if bx && by && !bz {
                    get_tree(&b.c3, h, xr, yr, zr)
                } else if !bx && !by && bz {
                    get_tree(&b.c4, h, xr, yr, zr)
                } else if bx && !by && bz {
                    get_tree(&b.c5, h, xr, yr, zr)
                } else if !bx && by && bz {
                    get_tree(&b.c6, h, xr, yr, zr)
                } else {
                    get_tree(&b.c7, h, xr, yr, zr)
                }
            },
            _ => None,
        }
    }
}

/// Specialized octree for storing voxels: a cube of power-of-two extent,
/// addressed by local coordinates in `[0, size)` on each axis.
#[derive(Debug)]
pub struct VoxelOctree<T> {
    /// Size of the octree.
    size: usize,
    /// The root node of the octree.
    root: Octree<T>,
}

impl<T> VoxelOctree<T> {
    /// The tree is well-formed: a power-of-two extent and leaves only at
    /// extent 1.
    pub closed spec fn wf(self) -> bool {
        &&& self.root.wf(self.size as nat)
        &&& spec_is_pow2(self.size as nat)
    }

    /// The extent of the tree on each axis.
    pub closed spec fn spec_size(self) -> nat {
        self.size as nat
    }

    /// The contents as a map from in-range coordinates to stored values.
    pub closed spec fn as_map(self) -> Map<(int, int, int), T> {
        Map::new(
            |p: (int, int, int)|
                0 <= p.0 < self.size && 0 <= p.1 < self.size && 0 <= p.2 < self.size
                    && self.root.spec_get(self.size as nat, p.0, p.1, p.2) is Some,
            |p: (int, int, int)| self.root.spec_get(self.size as nat, p.0, p.1, p.2).unwrap(),
        )
    }

    /// Create a new octree; fails unless the size is a power of 2.
    pub fn new(size: usize) -> (r: Result<Self, VoxelOctreeCreationError>)
        ensures
            r is Ok <==> spec_is_pow2(size as nat),
            r is Err ==> r == Err::<Self, _>(VoxelOctreeCreationError::SizeNotPowerOfTwo),
            r matches Ok(t) ==> t.wf() && t.spec_size() == size && t@ == Map::<
                (int, int, int),
                T,
            >::empty(),
    {
        if !is_power_of_two(size) {
            Err(VoxelOctreeCreationError::SizeNotPowerOfTwo)
        } else {
            let t = VoxelOctree { size, root: Octree::Empty };
            proof {
                assert(t.as_map() =~= Map::<(int, int, int), T>::empty());
            }
            Ok(t)
        }
    }

    /// The extent of the tree on each axis.
    pub fn size(&self) -> (r: usize)
        ensures
            r == self.spec_size(),
    {
        self.size
    }

    /// Insert a value into the octree at the given position, dividing the
    /// octree as necessary. The position must be in range on every axis.
    pub fn insert(&mut self, x: usize, y: usize, z: usize, value: T)
        requires
            old(self).wf(),
            x < old(self).spec_size(),
            y < old(self).spec_size(),
            z < old(self).spec_size(),
        ensures
            final(self).wf(),
            final(self).spec_size() == old(self).spec_size(),
            final(self)@ == old(self)@.insert((x as int, y as int, z as int), value),
    {
        let mut root = Octree::Empty;
        core::mem::swap(&mut self.root, &mut root);
        self.root = insert_tree(root, self.size, x, y, z, value);
        proof {
            assert(self.as_map() =~= old(self).as_map().insert(
                (x as int, y as int, z as int),
                value,
            ));
        }
    }

    /// Get the value at the given position, which must be in range on every
    /// axis; `None` where nothing was ever stored.
    pub fn get_value(&self, x: usize, y: usize, z: usize) -> (r: Option<&T>)
        requires
            self.wf(),
            x < self.spec_size(),
            y < self.spec_size(),
            z < self.spec_size(),
        ensures
            match r {
                Some(v) => self@.contains_key((x as int, y as int, z as int)) && self@[
                    (x as int, y as int, z as int)
                ] == *v,
                None => !self@.contains_key((x as int, y as int, z as int)),
            },
    {
        get_tree(&self.root, self.size, x, y, z)
    }
}

impl<T> View for VoxelOctree<T> {
    type V = Map<(int, int, int), T>;

    open spec fn view(&self) -> Map<(int, int, int), T> {
        self.as_map()
    }
}

/// Whether `n` is a power of two, by repeated halving.
fn is_power_of_two(n: usize) -> (r: bool)
    ensures
        r == spec_is_pow2(n as nat),
{
    if n == 0 {
        return false;
    }
    let mut m = n;
    while m > 1
        invariant
            m >= 1,
            spec_is_pow2(n as nat) == spec_is_pow2(m as nat),
        decreases m,
    {
        if m % 2 == 1 {
            return false;
        }
        m = m / 2;
    }
    true
}

/// Writing a value at a coordinate and then reading gives exactly that
/// value back; every other coordinate is unaffected by the write, and a
/// coordinate never written reads as absent. Together with the contracts of
/// `insert` and `get_value` this pins down the store under any order of
/// insertions.
pub proof fn lemma_store_round_trip<T>(m: Map<(int, int, int), T>, p: (int, int, int), v: T, q: (
    int,
    int,
    int,
))
    ensures
        m.insert(p, v).contains_key(p),
        m.insert(p, v)[p] == v,
        q != p ==> m.insert(p, v).contains_key(q) == m.contains_key(q),
        q != p && m.contains_key(q) ==> m.insert(p, v)[q] == m[q],
        !Map::<(int, int, int), T>::empty().contains_key(q),
{
}

} // verus!
