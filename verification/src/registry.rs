use vstd::prelude::*;

use crate::chunk::{spec_dist2, Chunk, ChunkPosition, CHUNK_SIZE};
use crate::generator::WorldGeneratorConfig;
use crate::util::WorldVec;

verus! {

/// The set of grid positions that a list holds.
pub open spec fn pos_set(s: Seq<ChunkPosition>) -> Set<(int, int, int)> {
    Set::new(|t: (int, int, int)| exists|i: int| 0 <= i < s.len() && s[i]@ == t)
}

/// No grid position appears twice in the list.
pub open spec fn pos_distinct(s: Seq<ChunkPosition>) -> bool {
    forall|i: int, j: int| 0 <= i < j < s.len() ==> s[i]@ != s[j]@
}

/// The map from grid positions to values that an association list holds.
pub open spec fn assoc_map<V>(s: Seq<(ChunkPosition, V)>) -> Map<(int, int, int), V> {
    Map::new(
        |t: (int, int, int)| exists|i: int| 0 <= i < s.len() && s[i].0@ == t,
        |t: (int, int, int)|
            s[choose|i: int| 0 <= i < s.len() && s[i].0@ == t].1,
    )
}

/// No key appears twice in the association list.
pub open spec fn assoc_distinct<V>(s: Seq<(ChunkPosition, V)>) -> bool {
    forall|i: int, j: int| 0 <= i < j < s.len() ==> s[i].0@ != s[j].0@
}

/// Whether the list holds the given grid position.
pub(crate) fn pos_contains(v: &Vec<ChunkPosition>, p: &ChunkPosition) -> (r: bool)
    ensures
        r == pos_set(v@).contains(p@),
{
    let mut i: usize = 0;
    while i < v.len()
        invariant
            i <= v@.len(),
            forall|j: int| 0 <= j < i ==> v@[j]@ != p@,
        decreases v@.len() - i,
    {
        if v[i].x == p.x && v[i].y == p.y && v[i].z == p.z {
            return true;
        }
        i += 1;
    }
    false
}

/// Add a grid position to the list if it is not already there.
pub(crate) fn pos_insert(v: &mut Vec<ChunkPosition>, p: ChunkPosition)
    requires
        pos_distinct(old(v)@),
    ensures
        pos_distinct(final(v)@),
        pos_set(final(v)@) == pos_set(old(v)@).insert(p@),
{
    if !pos_contains(v, &p) {
        v.push(p);
        proof {
            assert forall|t: (int, int, int)| #[trigger] pos_set(v@).contains(t) implies pos_set(
                old(v)@,
            ).insert(p@).contains(t) by {
                let i = choose|i: int| 0 <= i < v@.len() && v@[i]@ == t;
                if i < v@.len() - 1 {
                    assert(old(v)@[i]@ == t);
                }
            }
            assert forall|t: (int, int, int)| pos_set(old(v)@).insert(p@).contains(t) implies
                #[trigger] pos_set(v@).contains(t) by {
                if t == p@ {
                    assert(v@[v@.len() - 1]@ == t);
                } else {
                    let i = choose|i: int| 0 <= i < old(v)@.len() && old(v)@[i]@ == t;
                    assert(v@[i]@ == t);
                }
            }
            assert(pos_set(v@) =~= pos_set(old(v)@).insert(p@));
        }
    } else {
        proof {
            assert(pos_set(v@) =~= pos_set(old(v)@).insert(p@));
        }
    }
}

/// Remove a grid position from the list, keeping every other entry.
fn pos_remove(v: &mut Vec<ChunkPosition>, p: &ChunkPosition)
    requires
        pos_distinct(old(v)@),
    ensures
        pos_distinct(final(v)@),
        pos_set(final(v)@) == pos_set(old(v)@).remove(p@),
{
    let mut kept: Vec<ChunkPosition> = Vec::new();
    let mut i: usize = 0;
    while i < v.len()
        invariant
            i <= v@.len(),
            pos_distinct(v@),
            forall|k: int|
                0 <= k < kept@.len() ==> exists|j: int|
                    0 <= j < i && v@[j]@ == #[trigger] kept@[k]@,
            forall|j: int|
                0 <= j < i && v@[j]@ != p@ ==> exists|k: int|
                    0 <= k < kept@.len() && kept@[k]@ == #[trigger] v@[j]@,
            forall|k: int| 0 <= k < kept@.len() ==> #[trigger] kept@[k]@ != p@,
            pos_distinct(kept@),
        decreases v@.len() - i,
    {
        if !(v[i].x == p.x && v[i].y == p.y && v[i].z == p.z) {
            let entry = v[i];
            proof {
                assert forall|k: int| 0 <= k < kept@.len() implies #[trigger] kept@[k]@ != entry@
                    by {
                    let j = choose|j: int| 0 <= j < i && v@[j]@ == kept@[k]@;
                    assert(v@[j]@ != v@[i as int]@);
                }
            }
            let ghost kept_before = kept@;
            kept.push(entry);
            proof {
                assert(kept@[kept@.len() - 1]@ == v@[i as int]@);
                assert forall|j: int| 0 <= j < i + 1 && v@[j]@ != p@ implies exists|k: int|
                    0 <= k < kept@.len() && kept@[k]@ == #[trigger] v@[j]@ by {
                    if j == i {
                        assert(kept@[kept@.len() - 1]@ == v@[j]@);
                    } else {
                        let k = choose|k: int|
                            0 <= k < kept_before.len() && kept_before[k]@ == v@[j]@;
                        assert(kept@[k]@ == v@[j]@);
                    }
                }
            }
        }
        i += 1;
    }
    proof {
        assert forall|t: (int, int, int)| #[trigger] pos_set(kept@).contains(t) implies pos_set(
            v@,
        ).remove(p@).contains(t) by {
            let k = choose|k: int| 0 <= k < kept@.len() && kept@[k]@ == t;
            let j = choose|j: int| 0 <= j < v@.len() && v@[j]@ == kept@[k]@;
        }
        assert forall|t: (int, int, int)| pos_set(v@).remove(p@).contains(t) implies
            #[trigger] pos_set(kept@).contains(t) by {
            let j = choose|j: int| 0 <= j < v@.len() && v@[j]@ == t;
        }
        assert(pos_set(kept@) =~= pos_set(v@).remove(p@));
    }
    *v = kept;
}

/// The index of the entry with the given key, if the list holds one.
fn assoc_find<V>(v: &Vec<(ChunkPosition, V)>, p: &ChunkPosition) -> (r: Option<usize>)
    ensures
        match r {
            Some(i) => i < v@.len() && v@[i as int].0@ == p@,
            None => !assoc_map(v@).contains_key(p@),
        },
{
    let mut i: usize = 0;
    while i < v.len()
        invariant
            i <= v@.len(),
            forall|j: int| 0 <= j < i ==> v@[j].0@ != p@,
        decreases v@.len() - i,
    {
        let key = v[i].0;
        if key.x == p.x && key.y == p.y && key.z == p.z {
            return Some(i);
        }
        i += 1;
    }
    proof {
        assert forall|j: int| 0 <= j < v@.len() implies v@[j].0@ != p@ by {}
    }
    None
}

/// The value stored for a key, if the list holds one.
fn assoc_get<'a, V>(v: &'a Vec<(ChunkPosition, V)>, p: &ChunkPosition) -> (r: Option<&'a V>)
    requires
        assoc_distinct(v@),
    ensures
        match r {
            Some(val) => assoc_map(v@).contains_key(p@) && assoc_map(v@)[p@] == *val,
            None => !assoc_map(v@).contains_key(p@),
        },
{
    match assoc_find(v, p) {
        Some(i) => {
            proof {
                let j = choose|j: int| 0 <= j < v@.len() && v@[j].0@ == p@;
                assert(j == i);
            }
            Some(&v[i].1)
        },
        None => None,
    }
}

/// Store a value for a key, replacing any value the list already holds for
/// it.
fn assoc_insert<V>(v: &mut Vec<(ChunkPosition, V)>, p: ChunkPosition, value: V)
    requires
        assoc_distinct(old(v)@),
    ensures
        assoc_distinct(final(v)@),
        assoc_map(final(v)@) == assoc_map(old(v)@).insert(p@, value),
{
    let found = assoc_find(v, &p);
    match found {
        Some(i) => {
            v[i] = (p, value);
            proof {
                assert forall|t: (int, int, int)|
                    assoc_map(v@).contains_key(t) == assoc_map(old(v)@).insert(
                        p@,
                        value,
                    ).contains_key(t) by {
                    if t == p@ {
                        assert(v@[i as int].0@ == t);
                    } else {
                        if exists|j: int| 0 <= j < old(v)@.len() && old(v)@[j].0@ == t {
                            let j = choose|j: int|
                                0 <= j < old(v)@.len() && old(v)@[j].0@ == t;
                            assert(v@[j].0@ == t);
                        }
                        if exists|j: int| 0 <= j < v@.len() && v@[j].0@ == t {
                            let j = choose|j: int| 0 <= j < v@.len() && v@[j].0@ == t;
                            assert(old(v)@[j].0@ == t);
                        }
                    }
                }
                assert forall|t: (int, int, int)|
                    #[trigger] assoc_map(v@).contains_key(t) implies assoc_map(v@)[t]
                    == assoc_map(old(v)@).insert(p@, value)[t] by {
                    let j = choose|j: int| 0 <= j < v@.len() && v@[j].0@ == t;
                    if t == p@ {
                        assert(j == i);
                    } else {
                        assert(j != i);
                        assert(old(v)@[j].0@ == t);
                        let j2 = choose|j2: int|
                            0 <= j2 < old(v)@.len() && old(v)@[j2].0@ == t;
                        assert(j2 == j);
                    }
                }
                assert(assoc_map(v@) =~= assoc_map(old(v)@).insert(p@, value));
            }
        },
        None => {
            v.push((p, value));
            proof {
                assert forall|t: (int, int, int)|
                    assoc_map(v@).contains_key(t) == assoc_map(old(v)@).insert(
                        p@,
                        value,
                    ).contains_key(t) by {
                    if t == p@ {
                        assert(v@[v@.len() - 1].0@ == t);
                    } else {
                        if exists|j: int| 0 <= j < old(v)@.len() && old(v)@[j].0@ == t {
                            let j = choose|j: int|
                                0 <= j < old(v)@.len() && old(v)@[j].0@ == t;
                            assert(v@[j].0@ == t);
                        }
                        if exists|j: int| 0 <= j < v@.len() && v@[j].0@ == t {
                            let j = choose|j: int| 0 <= j < v@.len() && v@[j].0@ == t;
                            assert(j < v@.len() - 1);
                            assert(old(v)@[j].0@ == t);
                        }
                    }
                }
                assert forall|t: (int, int, int)|
                    #[trigger] assoc_map(v@).contains_key(t) implies assoc_map(v@)[t]
                    == assoc_map(old(v)@).insert(p@, value)[t] by {
                    let j = choose|j: int| 0 <= j < v@.len() && v@[j].0@ == t;
                    if t == p@ {
                        assert(forall|k: int| 0 <= k < old(v)@.len() ==> old(v)@[k].0@ != t);
                        assert(j == v@.len() - 1);
                    } else {
                        assert(j < v@.len() - 1);
                        let j2 = choose|j2: int|
                            0 <= j2 < old(v)@.len() && old(v)@[j2].0@ == t;
                        assert(j2 == j);
                    }
                }
                assert(assoc_map(v@) =~= assoc_map(old(v)@).insert(p@, value));
            }
        },
    }
}

/// Remove the entry with the given key, keeping every other entry.
fn assoc_remove<V>(v: &mut Vec<(ChunkPosition, V)>, p: &ChunkPosition)
    requires
        assoc_distinct(old(v)@),
    ensures
        assoc_distinct(final(v)@),
        assoc_map(final(v)@) == assoc_map(old(v)@).remove(p@),
{
    match assoc_find(v, p) {
        Some(i) => {
            v.remove(i);
            proof {
                assert forall|t: (int, int, int)|
                    assoc_map(v@).contains_key(t) == assoc_map(old(v)@).remove(
                        p@,
                    ).contains_key(t) by {
                    if exists|j: int| 0 <= j < v@.len() && v@[j].0@ == t {
                        let j = choose|j: int| 0 <= j < v@.len() && v@[j].0@ == t;
                        if j < i {
                            assert(old(v)@[j].0@ == t);
                        } else {
                            assert(old(v)@[j + 1].0@ == t);
                        }
                    }
                    if t != p@ && exists|j: int| 0 <= j < old(v)@.len() && old(v)@[j].0@ == t {
                        let j = choose|j: int| 0 <= j < old(v)@.len() && old(v)@[j].0@ == t;
                        assert(j != i);
                        if j < i {
                            assert(v@[j].0@ == t);
                        } else {
                            assert(v@[j - 1].0@ == t);
                        }
                    }
                }
                assert forall|t: (int, int, int)|
                    #[trigger] assoc_map(v@).contains_key(t) implies assoc_map(v@)[t]
                    == assoc_map(old(v)@).remove(p@)[t] by {
                    let j = choose|j: int| 0 <= j < v@.len() && v@[j].0@ == t;
                    let j0: int = if j < i { j } else { j + 1 };
                    assert(old(v)@[j0].0@ == t);
                    let j2 = choose|j2: int| 0 <= j2 < old(v)@.len() && old(v)@[j2].0@ == t;
                    assert(j2 == j0);
                }
                assert(assoc_map(v@) =~= assoc_map(old(v)@).remove(p@));
            }
        },
        None => {
            proof {
                assert(assoc_map(v@) =~= assoc_map(old(v)@).remove(p@));
            }
        },
    }
}

/// The registry of the streaming world: which chunks are loaded, which are
/// on their way through generation or meshing, which meshes exist, and
/// which chunks the last visibility walk found. It is the only mutable
/// state of the system; every lifecycle step is a method on it.
#[derive(Debug)]
pub struct ChunkData {
    /// Keeps track of chunk meshes by a handle chosen by the caller.
    meshes: Vec<(ChunkPosition, u64)>,
    /// Chunks whose voxel data is present, keyed by their position.
    loaded: Vec<(ChunkPosition, Chunk)>,
    /// Chunks that a visibility walk asked for but whose generation has not
    /// been handed out yet.
    awaiting_generation: Vec<ChunkPosition>,
    /// Chunks whose generation has been handed out and has not completed.
    generating: Vec<ChunkPosition>,
    /// Chunks whose meshing has been handed out and has not completed.
    meshing: Vec<ChunkPosition>,
    /// Chunks whose meshing produced no visible surface; they are never
    /// meshed again.
    empty_meshes: Vec<ChunkPosition>,
    /// Chunks around the observer that the last visibility walk reached.
    visible: Vec<ChunkPosition>,
}

impl ChunkData {
    /// Every list of the registry holds each position at most once, and
    /// every loaded chunk is well-formed and filed under its own position.
    pub closed spec fn wf(self) -> bool {
        &&& assoc_distinct(self.meshes@)
        &&& assoc_distinct(self.loaded@)
        &&& pos_distinct(self.awaiting_generation@)
        &&& pos_distinct(self.generating@)
        &&& pos_distinct(self.meshing@)
        &&& pos_distinct(self.empty_meshes@)
        &&& pos_distinct(self.visible@)
        &&& forall|t: (int, int, int)|
            #[trigger] assoc_map(self.loaded@).contains_key(t) ==> assoc_map(self.loaded@)[t].wf()
                && assoc_map(self.loaded@)[t].spec_position()@ == t
    }

    /// The mesh handles the registry holds, keyed by chunk position.
    pub closed spec fn spec_meshes(self) -> Map<(int, int, int), u64> {
        assoc_map(self.meshes@)
    }

    /// The loaded chunks, keyed by their position.
    pub closed spec fn spec_loaded(self) -> Map<(int, int, int), Chunk> {
        assoc_map(self.loaded@)
    }

    /// The positions awaiting generation.
    pub closed spec fn spec_awaiting_generation(self) -> Set<(int, int, int)> {
        pos_set(self.awaiting_generation@)
    }

    /// The positions whose generation is in flight.
    pub closed spec fn spec_generating(self) -> Set<(int, int, int)> {
        pos_set(self.generating@)
    }

    /// The positions whose meshing is in flight.
    pub closed spec fn spec_meshing(self) -> Set<(int, int, int)> {
        pos_set(self.meshing@)
    }

    /// The positions known to produce no visible surface.
    pub closed spec fn spec_empty_meshes(self) -> Set<(int, int, int)> {
        pos_set(self.empty_meshes@)
    }

    /// The current visible set.
    pub closed spec fn spec_visible(self) -> Set<(int, int, int)> {
        pos_set(self.visible@)
    }
}

impl ChunkData {
    /// The loaded chunk at a position, if there is one.
    pub fn get_loaded(&self, position: &ChunkPosition) -> (r: Option<&Chunk>)
        requires
            self.wf(),
        ensures
            match r {
                Some(c) => self.spec_loaded().contains_key(position@) && self.spec_loaded()[
                    position@
                ] == *c && c.wf() && c.spec_position()@ == position@,
                None => !self.spec_loaded().contains_key(position@),
            },
    {
        assoc_get(&self.loaded, position)
    }

    /// The mesh handle stored for a position, if there is one.
    pub fn get_mesh(&self, position: &ChunkPosition) -> (r: Option<u64>)
        requires
            self.wf(),
        ensures
            match r {
                Some(h) => self.spec_meshes().contains_key(position@) && self.spec_meshes()[
                    position@
                ] == h,
                None => !self.spec_meshes().contains_key(position@),
            },
    {
        match assoc_get(&self.meshes, position) {
            Some(h) => Some(*h),
            None => None,
        }
    }

    /// Whether the last visibility walk reached the position.
    pub fn visible_contains(&self, position: &ChunkPosition) -> (r: bool)
        ensures
            r == self.spec_visible().contains(position@),
    {
        pos_contains(&self.visible, position)
    }

    /// Whether meshing the chunk at the position is known to produce no
    /// visible surface.
    pub fn is_known_empty(&self, position: &ChunkPosition) -> (r: bool)
        ensures
            r == self.spec_empty_meshes().contains(position@),
    {
        pos_contains(&self.empty_meshes, position)
    }

    /// The loaded chunk that contains a world position, if there is one.
    pub fn get_chunk_containing(&self, position: WorldVec) -> (r: Option<&Chunk>)
        requires
            self.wf(),
            i32::MIN * (CHUNK_SIZE as int) <= position.x < (i32::MAX + 1) * (CHUNK_SIZE as int),
            i32::MIN * (CHUNK_SIZE as int) <= position.y < (i32::MAX + 1) * (CHUNK_SIZE as int),
            i32::MIN * (CHUNK_SIZE as int) <= position.z < (i32::MAX + 1) * (CHUNK_SIZE as int),
        ensures
            match r {
                Some(c) => self.spec_loaded().contains_key(
                    crate::visibility::spec_chunk_of(position),
                ) && self.spec_loaded()[crate::visibility::spec_chunk_of(position)] == *c,
                None => !self.spec_loaded().contains_key(
                    crate::visibility::spec_chunk_of(position),
                ),
            },
    {
        let chunk_position = ChunkPosition::from_world_position(position);
        proof {
            crate::visibility::lemma_div16_unique(position.x as int, chunk_position.x as int);
            crate::visibility::lemma_div16_unique(position.y as int, chunk_position.y as int);
            crate::visibility::lemma_div16_unique(position.z as int, chunk_position.z as int);
        }
        self.get_loaded(&chunk_position)
    }

    /// Replace the visible set with the result of a visibility walk. The
    /// previous set is discarded, not patched.
    pub fn replace_visible(&mut self, chunks: Vec<ChunkPosition>)
        requires
            old(self).wf(),
            pos_distinct(chunks@),
        ensures
            final(self).wf(),
            final(self).spec_visible() == pos_set(chunks@),
            final(self).spec_meshes() == old(self).spec_meshes(),
            final(self).spec_loaded() == old(self).spec_loaded(),
            final(self).spec_awaiting_generation() == old(self).spec_awaiting_generation(),
            final(self).spec_generating() == old(self).spec_generating(),
            final(self).spec_meshing() == old(self).spec_meshing(),
            final(self).spec_empty_meshes() == old(self).spec_empty_meshes(),
    {
        self.visible = chunks;
    }

    /// Note that a visibility walk wants the chunk at a position: mark it
    /// as awaiting generation unless it is already present or already on
    /// its way.
    pub fn note_generation_request(&mut self, position: ChunkPosition)
        requires
            old(self).wf(),
        ensures
            final(self).wf(),
            final(self).spec_awaiting_generation() == (if !old(self).spec_loaded().contains_key(
                position@,
            ) && !old(self).spec_awaiting_generation().contains(position@) && !old(
                self,
            ).spec_generating().contains(position@) {
                old(self).spec_awaiting_generation().insert(position@)
            } else {
                old(self).spec_awaiting_generation()
            }),
            final(self).spec_meshes() == old(self).spec_meshes(),
            final(self).spec_loaded() == old(self).spec_loaded(),
            final(self).spec_generating() == old(self).spec_generating(),
            final(self).spec_meshing() == old(self).spec_meshing(),
            final(self).spec_empty_meshes() == old(self).spec_empty_meshes(),
            final(self).spec_visible() == old(self).spec_visible(),
    {
        let present = match assoc_find(&self.loaded, &position) {
            Some(_) => true,
            None => false,
        };
        if !present && !pos_contains(&self.awaiting_generation, &position) && !pos_contains(
            &self.generating,
            &position,
        ) {
            pos_insert(&mut self.awaiting_generation, position);
        }
    }
}

/// Appending a position to a list adds exactly it to the set of positions
/// held.
pub(crate) proof fn lemma_pos_set_push(s: Seq<ChunkPosition>, p: ChunkPosition)
    ensures
        pos_set(s.push(p)) == pos_set(s).insert(p@),
{
    assert forall|t: (int, int, int)| #[trigger] pos_set(s.push(p)).contains(t) implies pos_set(
        s,
    ).insert(p@).contains(t) by {
        let i = choose|i: int| 0 <= i < s.push(p).len() && s.push(p)[i]@ == t;
        if i < s.len() {
            assert(s[i]@ == t);
        }
    }
    assert forall|t: (int, int, int)| pos_set(s).insert(p@).contains(t) implies #[trigger] pos_set(
        s.push(p),
    ).contains(t) by {
        if t == p@ {
            assert(s.push(p)[s.len() as int]@ == t);
        } else {
            let i = choose|i: int| 0 <= i < s.len() && s[i]@ == t;
            assert(s.push(p)[i]@ == t);
        }
    }
    assert(pos_set(s.push(p)) =~= pos_set(s).insert(p@));
}

impl ChunkData {
    /// Hand out every position awaiting generation, moving each to the
    /// in-flight state. The caller is responsible for generating a chunk
    /// for each returned position and installing the results.
    pub fn take_generation_requests(&mut self) -> (r: Vec<ChunkPosition>)
        requires
            old(self).wf(),
        ensures
            final(self).wf(),
            pos_distinct(r@),
            pos_set(r@) == old(self).spec_awaiting_generation(),
            final(self).spec_awaiting_generation() == Set::<(int, int, int)>::empty(),
            final(self).spec_generating() == old(self).spec_generating().union(pos_set(r@)),
            final(self).spec_meshes() == old(self).spec_meshes(),
            final(self).spec_loaded() == old(self).spec_loaded(),
            final(self).spec_meshing() == old(self).spec_meshing(),
            final(self).spec_empty_meshes() == old(self).spec_empty_meshes(),
            final(self).spec_visible() == old(self).spec_visible(),
    {
        let mut out: Vec<ChunkPosition> = Vec::new();
        core::mem::swap(&mut self.awaiting_generation, &mut out);
        proof {
            assert(pos_set(self.awaiting_generation@) =~= Set::<(int, int, int)>::empty());
        }
        let ghost old_generating = pos_set(self.generating@);
        let mut i: usize = 0;
        while i < out.len()
            invariant
                i <= out@.len(),
                old(self).wf(),
                pos_distinct(out@),
                pos_set(out@) == old(self).spec_awaiting_generation(),
                pos_distinct(self.generating@),
                pos_set(self.generating@) == old_generating.union(
                    pos_set(out@.subrange(0, i as int)),
                ),
                old_generating == old(self).spec_generating(),
                self.meshes@ == old(self).meshes@,
                self.loaded@ == old(self).loaded@,
                self.awaiting_generation@.len() == 0,
                self.meshing@ == old(self).meshing@,
                self.empty_meshes@ == old(self).empty_meshes@,
                self.visible@ == old(self).visible@,
            decreases out@.len() - i,
        {
            let p = out[i];
            pos_insert(&mut self.generating, p);
            proof {
                assert(out@.subrange(0, i + 1) =~= out@.subrange(0, i as int).push(
                    out@[i as int],
                ));
                lemma_pos_set_push(out@.subrange(0, i as int), p);
                assert(pos_set(self.generating@) =~= old_generating.union(
                    pos_set(out@.subrange(0, i + 1)),
                ));
            }
            i += 1;
        }
        proof {
            assert(out@.subrange(0, out@.len() as int) =~= out@);
        }
        out
    }

    /// Install a chunk that finished generating. If the position was
    /// evicted while generation was in flight, the result is silently
    /// discarded, never an error.
    pub fn install_generated_chunk(&mut self, chunk: Chunk)
        requires
            old(self).wf(),
            chunk.wf(),
        ensures
            final(self).wf(),
            final(self).spec_loaded() == (if old(self).spec_generating().contains(
                chunk.spec_position()@,
            ) {
                old(self).spec_loaded().insert(chunk.spec_position()@, chunk)
            } else {
                old(self).spec_loaded()
            }),
            final(self).spec_generating() == old(self).spec_generating().remove(
                chunk.spec_position()@,
            ),
            final(self).spec_awaiting_generation() == (if old(self).spec_generating().contains(
                chunk.spec_position()@,
            ) {
                old(self).spec_awaiting_generation().remove(chunk.spec_position()@)
            } else {
                old(self).spec_awaiting_generation()
            }),
            final(self).spec_meshes() == old(self).spec_meshes(),
            final(self).spec_meshing() == old(self).spec_meshing(),
            final(self).spec_empty_meshes() == old(self).spec_empty_meshes(),
            final(self).spec_visible() == old(self).spec_visible(),
    {
        let position = chunk.position();
        if pos_contains(&self.generating, &position) {
            pos_remove(&mut self.generating, &position);
            pos_remove(&mut self.awaiting_generation, &position);
            assoc_insert(&mut self.loaded, position, chunk);
        } else {
            proof {
                assert(pos_set(self.generating@) =~= pos_set(self.generating@).remove(
                    position@,
                ));
            }
        }
    }

    /// Install the result of a meshing task: a mesh handle, or `None` for a
    /// chunk with no visible surface, which is then never meshed again. A
    /// result for a position that is no longer being meshed is silently
    /// discarded.
    pub fn install_mesh(&mut self, position: ChunkPosition, mesh: Option<u64>)
        requires
            old(self).wf(),
        ensures
            final(self).wf(),
            final(self).spec_meshing() == old(self).spec_meshing().remove(position@),
            final(self).spec_meshes() == (if old(self).spec_meshing().contains(position@)
                && mesh is Some {
                old(self).spec_meshes().insert(position@, mesh.unwrap())
            } else {
                old(self).spec_meshes()
            }),
            final(self).spec_empty_meshes() == (if old(self).spec_meshing().contains(position@)
                && mesh is None {
                old(self).spec_empty_meshes().insert(position@)
            } else {
                old(self).spec_empty_meshes()
            }),
            final(self).spec_loaded() == old(self).spec_loaded(),
            final(self).spec_awaiting_generation() == old(self).spec_awaiting_generation(),
            final(self).spec_generating() == old(self).spec_generating(),
            final(self).spec_visible() == old(self).spec_visible(),
    {
        if pos_contains(&self.meshing, &position) {
            pos_remove(&mut self.meshing, &position);
            match mesh {
                Some(handle) => {
                    assoc_insert(&mut self.meshes, position, handle);
                },
                None => {
                    pos_insert(&mut self.empty_meshes, position);
                },
            }
        } else {
            proof {
                assert(pos_set(self.meshing@) =~= pos_set(self.meshing@).remove(position@));
            }
        }
    }

    /// Drop the pending generation requests of chunks that the last
    /// visibility walk no longer reaches; their generation would be wasted.
    pub fn unload_invisible_chunks(&mut self)
        requires
            old(self).wf(),
        ensures
            final(self).wf(),
            final(self).spec_awaiting_generation() == old(
                self,
            ).spec_awaiting_generation().intersect(old(self).spec_visible()),
            final(self).spec_meshes() == old(self).spec_meshes(),
            final(self).spec_loaded() == old(self).spec_loaded(),
            final(self).spec_generating() == old(self).spec_generating(),
            final(self).spec_meshing() == old(self).spec_meshing(),
            final(self).spec_empty_meshes() == old(self).spec_empty_meshes(),
            final(self).spec_visible() == old(self).spec_visible(),
    {
        let mut kept: Vec<ChunkPosition> = Vec::new();
        let mut i: usize = 0;
        while i < self.awaiting_generation.len()
            invariant
                i <= self.awaiting_generation@.len(),
                self.wf(),
                self == old(self),
                forall|k: int|
                    0 <= k < kept@.len() ==> exists|j: int|
                        0 <= j < i && self.awaiting_generation@[j]@ == #[trigger] kept@[k]@,
                forall|j: int|
                    0 <= j < i && pos_set(self.visible@).contains(
                        #[trigger] self.awaiting_generation@[j]@,
                    ) ==> exists|k: int|
                        0 <= k < kept@.len() && kept@[k]@ == self.awaiting_generation@[j]@,
                forall|k: int|
                    0 <= k < kept@.len() ==> pos_set(self.visible@).contains(
                        #[trigger] kept@[k]@,
                    ),
                pos_distinct(kept@),
            decreases self.awaiting_generation@.len() - i,
        {
            let p = self.awaiting_generation[i];
            if pos_contains(&self.visible, &p) {
                let ghost kept_before = kept@;
                proof {
                    assert forall|k: int| 0 <= k < kept@.len() implies #[trigger] kept@[k]@ != p@
                        by {
                        let j = choose|j: int|
                            0 <= j < i && self.awaiting_generation@[j]@ == kept@[k]@;
                        assert(self.awaiting_generation@[j]@
                            != self.awaiting_generation@[i as int]@);
                    }
                }
                kept.push(p);
                proof {
                    assert forall|j: int|
                        0 <= j < i + 1 && pos_set(self.visible@).contains(
                            #[trigger] self.awaiting_generation@[j]@,
                        ) implies exists|k: int|
                        0 <= k < kept@.len() && kept@[k]@ == self.awaiting_generation@[j]@ by {
                        if j == i {
                            assert(kept@[kept@.len() - 1]@ == self.awaiting_generation@[j]@);
                        } else {
                            let k = choose|k: int|
                                0 <= k < kept_before.len() && kept_before[k]@
                                    == self.awaiting_generation@[j]@;
                            assert(kept@[k]@ == self.awaiting_generation@[j]@);
                        }
                    }
                }
            }
            i += 1;
        }
        proof {
            assert forall|t: (int, int, int)| #[trigger] pos_set(kept@).contains(t) implies
                pos_set(self.awaiting_generation@).intersect(pos_set(self.visible@)).contains(
                t,
            ) by {
                let k = choose|k: int| 0 <= k < kept@.len() && kept@[k]@ == t;
                let j = choose|j: int|
                    0 <= j < self.awaiting_generation@.len() && self.awaiting_generation@[j]@
                        == kept@[k]@;
            }
            assert forall|t: (int, int, int)|
                pos_set(self.awaiting_generation@).intersect(pos_set(self.visible@)).contains(
                    t,
                ) implies #[trigger] pos_set(kept@).contains(t) by {
                let j = choose|j: int|
                    0 <= j < self.awaiting_generation@.len() && self.awaiting_generation@[j]@
                        == t;
            }
            assert(pos_set(kept@) =~= pos_set(self.awaiting_generation@).intersect(
                pos_set(self.visible@),
            ));
        }
        self.awaiting_generation = kept;
    }

    /// Remove every trace of a chunk position from the registry: its voxel
    /// data, its mesh, and any pending or in-flight work. A task result
    /// that arrives afterwards finds no entry and is discarded.
    pub fn forget(&mut self, chunk: ChunkPosition)
        requires
            old(self).wf(),
        ensures
            final(self).wf(),
            final(self).spec_meshes() == old(self).spec_meshes().remove(chunk@),
            final(self).spec_loaded() == old(self).spec_loaded().remove(chunk@),
            final(self).spec_awaiting_generation() == old(
                self,
            ).spec_awaiting_generation().remove(chunk@),
            final(self).spec_generating() == old(self).spec_generating().remove(chunk@),
            final(self).spec_meshing() == old(self).spec_meshing().remove(chunk@),
            final(self).spec_empty_meshes() == old(self).spec_empty_meshes().remove(chunk@),
            final(self).spec_visible() == old(self).spec_visible(),
    {
        assoc_remove(&mut self.meshes, &chunk);
        assoc_remove(&mut self.loaded, &chunk);
        pos_remove(&mut self.awaiting_generation, &chunk);
        pos_remove(&mut self.generating, &chunk);
        pos_remove(&mut self.meshing, &chunk);
        pos_remove(&mut self.empty_meshes, &chunk);
    }
}

/// Whether the chunk at `t` is due for meshing: loaded, in the visible
/// set, and with neither a mesh, a known-empty result, nor an in-flight
/// meshing task.
pub open spec fn needs_mesh(d: ChunkData, t: (int, int, int)) -> bool {
    &&& d.spec_loaded().contains_key(t)
    &&& d.spec_visible().contains(t)
    &&& !d.spec_meshes().contains_key(t)
    &&& !d.spec_empty_meshes().contains(t)
    &&& !d.spec_meshing().contains(t)
}

/// Whether the chunk at `t` is due for eviction: loaded, not in the
/// visible set, and strictly beyond the generation distance from the
/// observer's chunk.
pub open spec fn should_evict(
    d: ChunkData,
    observer: (int, int, int),
    generation_distance: int,
    t: (int, int, int),
) -> bool {
    &&& d.spec_loaded().contains_key(t)
    &&& !d.spec_visible().contains(t)
    &&& spec_dist2(t, observer) > generation_distance * generation_distance
}

impl ChunkData {
    /// Hand out every chunk that is due for meshing, moving each to the
    /// in-flight meshing state. The caller is responsible for meshing each
    /// returned position and installing the results.
    pub fn take_meshing_requests(&mut self) -> (r: Vec<ChunkPosition>)
        requires
            old(self).wf(),
        ensures
            final(self).wf(),
            pos_distinct(r@),
            forall|t: (int, int, int)|
                #[trigger] pos_set(r@).contains(t) == needs_mesh(*old(self), t),
            final(self).spec_meshing() == old(self).spec_meshing().union(pos_set(r@)),
            final(self).spec_meshes() == old(self).spec_meshes(),
            final(self).spec_loaded() == old(self).spec_loaded(),
            final(self).spec_awaiting_generation() == old(self).spec_awaiting_generation(),
            final(self).spec_generating() == old(self).spec_generating(),
            final(self).spec_empty_meshes() == old(self).spec_empty_meshes(),
            final(self).spec_visible() == old(self).spec_visible(),
    {
        let mut picked: Vec<ChunkPosition> = Vec::new();
        let mut i: usize = 0;
        while i < self.loaded.len()
            invariant
                i <= self.loaded@.len(),
                old(self).wf(),
                self.meshes@ == old(self).meshes@,
                self.loaded@ == old(self).loaded@,
                self.awaiting_generation@ == old(self).awaiting_generation@,
                self.generating@ == old(self).generating@,
                self.empty_meshes@ == old(self).empty_meshes@,
                self.visible@ == old(self).visible@,
                pos_distinct(picked@),
                pos_distinct(self.meshing@),
                forall|k: int|
                    0 <= k < picked@.len() ==> needs_mesh(*old(self), #[trigger] picked@[k]@),
                forall|j: int|
                    0 <= j < i && needs_mesh(*old(self), #[trigger] self.loaded@[j].0@)
                        ==> pos_set(picked@).contains(self.loaded@[j].0@),
                pos_set(self.meshing@) == old(self).spec_meshing().union(pos_set(picked@)),
            decreases self.loaded@.len() - i,
        {
            let key = self.loaded[i].0;
            let in_visible = pos_contains(&self.visible, &key);
            let has_mesh = match assoc_find(&self.meshes, &key) {
                Some(_) => true,
                None => false,
            };
            let known_empty = pos_contains(&self.empty_meshes, &key);
            let in_meshing = pos_contains(&self.meshing, &key);
            proof {
                if in_meshing && !old(self).spec_meshing().contains(key@) {
                    assert(pos_set(picked@).contains(key@));
                }
                if has_mesh {
                    assert(old(self).spec_meshes().contains_key(key@));
                }
                assert(self.loaded@[i as int].0@ == key@);
                assert(old(self).spec_loaded().contains_key(key@));
            }
            if in_visible && !has_mesh && !known_empty && !in_meshing {
                let ghost picked_before = picked@;
                proof {
                    assert forall|k: int| 0 <= k < picked@.len() implies #[trigger] picked@[k]@
                        != key@ by {
                        assert(pos_set(self.meshing@).contains(picked@[k]@));
                    }
                }
                picked.push(key);
                pos_insert(&mut self.meshing, key);
                proof {
                    lemma_pos_set_push(picked_before, key);
                    assert(pos_set(self.meshing@) =~= old(self).spec_meshing().union(
                        pos_set(picked@),
                    ));
                    assert forall|j: int|
                        0 <= j < i + 1 && needs_mesh(
                            *old(self),
                            #[trigger] self.loaded@[j].0@,
                        ) implies pos_set(picked@).contains(self.loaded@[j].0@) by {
                        if j == i {
                            assert(picked@[picked@.len() - 1]@ == key@);
                        } else {
                            assert(pos_set(picked_before).contains(self.loaded@[j].0@));
                        }
                    }
                }
            } else {
                proof {
                    if needs_mesh(*old(self), key@) {
                        assert(in_visible && !has_mesh && !known_empty);
                        assert(in_meshing);
                        assert(pos_set(self.meshing@).contains(key@));
                        assert(pos_set(picked@).contains(key@));
                    }
                }
            }
            i += 1;
        }
        proof {
            assert forall|t: (int, int, int)|
                #[trigger] pos_set(picked@).contains(t) == needs_mesh(*old(self), t) by {
                if pos_set(picked@).contains(t) {
                    let k = choose|k: int| 0 <= k < picked@.len() && picked@[k]@ == t;
                }
                if needs_mesh(*old(self), t) {
                    let j = choose|j: int|
                        0 <= j < self.loaded@.len() && self.loaded@[j].0@ == t;
                }
            }
        }
        picked
    }

    /// Evict every chunk that is due for it: release its voxel data, its
    /// mesh, and any in-flight work, and return the evicted positions so
    /// that the caller can release what it holds for them. Chunks in the
    /// visible set are never evicted, whatever their distance.
    pub fn garbage_collect_chunks(
        &mut self,
        observer_chunk: &ChunkPosition,
        config: &WorldGeneratorConfig,
    ) -> (r: Vec<ChunkPosition>)
        requires
            old(self).wf(),
        ensures
            final(self).wf(),
            pos_distinct(r@),
            forall|t: (int, int, int)|
                #[trigger] pos_set(r@).contains(t) == should_evict(
                    *old(self),
                    observer_chunk@,
                    config.generation_distance as int,
                    t,
                ),
            final(self).spec_loaded() == old(self).spec_loaded().remove_keys(pos_set(r@)),
            final(self).spec_meshes() == old(self).spec_meshes().remove_keys(pos_set(r@)),
            final(self).spec_awaiting_generation() == old(
                self,
            ).spec_awaiting_generation().difference(pos_set(r@)),
            final(self).spec_generating() == old(self).spec_generating().difference(
                pos_set(r@),
            ),
            final(self).spec_meshing() == old(self).spec_meshing().difference(pos_set(r@)),
            final(self).spec_empty_meshes() == old(self).spec_empty_meshes().difference(
                pos_set(r@),
            ),
            final(self).spec_visible() == old(self).spec_visible(),
    {
        let gd = config.generation_distance;
        proof {
            assert(0 <= (gd as int) * (gd as int) < 0x1_0000_0000_0000_0000_0000_0000_0000_0000)
                by (nonlinear_arith)
                requires
                    0 <= gd <= 0xffff_ffffu32,
            ;
        }
        let threshold: u128 = (gd as u128) * (gd as u128);
        let mut evict: Vec<ChunkPosition> = Vec::new();
        let mut i: usize = 0;
        while i < self.loaded.len()
            invariant
                i <= self.loaded@.len(),
                old(self).wf(),
                *self == *old(self),
                threshold == (gd as int) * (gd as int),
                gd == config.generation_distance,
                pos_distinct(evict@),
                forall|k: int|
                    0 <= k < evict@.len() ==> exists|j: int|
                        0 <= j < i && self.loaded@[j].0@ == #[trigger] evict@[k]@,
                forall|k: int|
                    0 <= k < evict@.len() ==> should_evict(
                        *old(self),
                        observer_chunk@,
                        gd as int,
                        #[trigger] evict@[k]@,
                    ),
                forall|j: int|
                    0 <= j < i && should_evict(
                        *old(self),
                        observer_chunk@,
                        gd as int,
                        #[trigger] self.loaded@[j].0@,
                    ) ==> pos_set(evict@).contains(self.loaded@[j].0@),
            decreases self.loaded@.len() - i,
        {
            let key = self.loaded[i].0;
            proof {
                assert(self.loaded@[i as int].0@ == key@);
                assert(old(self).spec_loaded().contains_key(key@));
            }
            let in_visible = pos_contains(&self.visible, &key);
            let far = key.distance_squared_to(observer_chunk) > threshold;
            if !in_visible && far {
                let ghost evict_before = evict@;
                proof {
                    assert forall|k: int| 0 <= k < evict@.len() implies #[trigger] evict@[k]@
                        != key@ by {
                        let j = choose|j: int|
                            0 <= j < i && self.loaded@[j].0@ == evict@[k]@;
                        assert(self.loaded@[j].0@ != self.loaded@[i as int].0@);
                    }
                }
                evict.push(key);
                proof {
                    lemma_pos_set_push(evict_before, key);
                    assert forall|j: int|
                        0 <= j < i + 1 && should_evict(
                            *old(self),
                            observer_chunk@,
                            gd as int,
                            #[trigger] self.loaded@[j].0@,
                        ) implies pos_set(evict@).contains(self.loaded@[j].0@) by {
                        if j == i {
                            assert(evict@[evict@.len() - 1]@ == key@);
                        } else {
                            assert(pos_set(evict_before).contains(self.loaded@[j].0@));
                        }
                    }
                }
            }
            i += 1;
        }
        proof {
            assert forall|t: (int, int, int)|
                #[trigger] pos_set(evict@).contains(t) == should_evict(
                    *old(self),
                    observer_chunk@,
                    gd as int,
                    t,
                ) by {
                if pos_set(evict@).contains(t) {
                    let k = choose|k: int| 0 <= k < evict@.len() && evict@[k]@ == t;
                }
                if should_evict(*old(self), observer_chunk@, gd as int, t) {
                    let j = choose|j: int|
                        0 <= j < self.loaded@.len() && self.loaded@[j].0@ == t;
                }
            }
        }
        let ghost evict_set = pos_set(evict@);
        let mut k: usize = 0;
        while k < evict.len()
            invariant
                k <= evict@.len(),
                self.wf(),
                pos_distinct(evict@),
                evict_set == pos_set(evict@),
                self.spec_loaded() == old(self).spec_loaded().remove_keys(
                    pos_set(evict@.subrange(0, k as int)),
                ),
                self.spec_meshes() == old(self).spec_meshes().remove_keys(
                    pos_set(evict@.subrange(0, k as int)),
                ),
                self.spec_awaiting_generation() == old(
                    self,
                ).spec_awaiting_generation().difference(
                    pos_set(evict@.subrange(0, k as int)),
                ),
                self.spec_generating() == old(self).spec_generating().difference(
                    pos_set(evict@.subrange(0, k as int)),
                ),
                self.spec_meshing() == old(self).spec_meshing().difference(
                    pos_set(evict@.subrange(0, k as int)),
                ),
                self.spec_empty_meshes() == old(self).spec_empty_meshes().difference(
                    pos_set(evict@.subrange(0, k as int)),
                ),
                self.spec_visible() == old(self).spec_visible(),
            decreases evict@.len() - k,
        {
            let p = evict[k];
            self.forget(p);
            proof {
                assert(evict@.subrange(0, k + 1) =~= evict@.subrange(0, k as int).push(
                    evict@[k as int],
                ));
                lemma_pos_set_push(evict@.subrange(0, k as int), p);
                let s0 = pos_set(evict@.subrange(0, k as int));
                let s1 = pos_set(evict@.subrange(0, k + 1));
                assert(s1 =~= s0.insert(p@));
                assert(self.spec_loaded() =~= old(self).spec_loaded().remove_keys(s1));
                assert(self.spec_meshes() =~= old(self).spec_meshes().remove_keys(s1));
                assert(self.spec_awaiting_generation() =~= old(
                    self,
                ).spec_awaiting_generation().difference(s1));
                assert(self.spec_generating() =~= old(self).spec_generating().difference(s1));
                assert(self.spec_meshing() =~= old(self).spec_meshing().difference(s1));
                assert(self.spec_empty_meshes() =~= old(self).spec_empty_meshes().difference(
                    s1,
                ));
            }
            k += 1;
        }
        proof {
            assert(evict@.subrange(0, evict@.len() as int) =~= evict@);
            assert(final(self).spec_loaded() =~= old(self).spec_loaded().remove_keys(
                pos_set(evict@),
            ));
            assert(final(self).spec_meshes() =~= old(self).spec_meshes().remove_keys(
                pos_set(evict@),
            ));
        }
        evict
    }
}

/// Whether eviction should run this frame: it is forced on the forced
/// cadence, and otherwise runs when the frame has spare time or on the
/// regular cadence, whichever comes first.
pub fn should_collect_garbage(
    frame_count: u32,
    ample_frame_time: bool,
    config: &WorldGeneratorConfig,
) -> (r: bool)
    requires
        config.collect_interval > 0,
        config.force_collect_interval > 0,
    ensures
        r == (frame_count as int % (config.force_collect_interval as int) == 0 || ample_frame_time
            || frame_count as int % (config.collect_interval as int) == 0),
{
    frame_count % config.force_collect_interval == 0 || ample_frame_time || frame_count
        % config.collect_interval == 0
}

impl Default for ChunkData {
    fn default() -> (r: ChunkData)
        ensures
            r.wf(),
            r.spec_meshes() == Map::<(int, int, int), u64>::empty(),
            r.spec_loaded() == Map::<(int, int, int), Chunk>::empty(),
            r.spec_awaiting_generation() == Set::<(int, int, int)>::empty(),
            r.spec_generating() == Set::<(int, int, int)>::empty(),
            r.spec_meshing() == Set::<(int, int, int)>::empty(),
            r.spec_empty_meshes() == Set::<(int, int, int)>::empty(),
            r.spec_visible() == Set::<(int, int, int)>::empty(),
    {
        let r = ChunkData {
            meshes: Vec::new(),
            loaded: Vec::new(),
            awaiting_generation: Vec::new(),
            generating: Vec::new(),
            meshing: Vec::new(),
            empty_meshes: Vec::new(),
            visible: Vec::new(),
        };
        proof {
            assert(r.spec_meshes() =~= Map::<(int, int, int), u64>::empty());
            assert(r.spec_loaded() =~= Map::<(int, int, int), Chunk>::empty());
            assert(r.spec_awaiting_generation() =~= Set::<(int, int, int)>::empty());
            assert(r.spec_generating() =~= Set::<(int, int, int)>::empty());
            assert(r.spec_meshing() =~= Set::<(int, int, int)>::empty());
            assert(r.spec_empty_meshes() =~= Set::<(int, int, int)>::empty());
            assert(r.spec_visible() =~= Set::<(int, int, int)>::empty());
        }
        r
    }
}

} // verus!
