use vstd::prelude::*;

use crate::chunk::{spec_dist2, spec_neighbor, Chunk, ChunkPosition, CHUNK_SIZE};
use crate::generator::WorldGeneratorConfig;
use crate::registry::{pos_set, ChunkData};
use crate::util::{Face, WorldVec};

verus! {

/// One clip plane of the view volume: the half-space of points `(x, y, z)`
/// with `a*x + b*y + c*z + d >= 0`, in world units.
#[derive(Debug, Clone, Copy, PartialEq, Eq, Structural)]
pub struct Plane {
    pub a: i64,
    pub b: i64,
    pub c: i64,
    pub d: i64,
}

/// The observer's view volume as an intersection of half-spaces. An empty
/// plane list admits everything.
#[derive(Debug)]
pub struct Frustum {
    pub planes: Vec<Plane>,
}

/// The observer's pose for one tick: world position, facing direction (any
/// nonzero scale), and view volume.
#[derive(Debug)]
pub struct Observer {
    pub position: WorldVec,
    pub forward: WorldVec,
    pub frustum: Frustum,
}

/// Everything one visibility walk depends on, as mathematical values: the
/// loaded chunks with their masks, the observer's pose and view volume, the
/// chunk the observer stands in, and the distance budgets.
pub struct WalkEnv {
    pub loaded: Map<(int, int, int), Chunk>,
    pub position: (int, int, int),
    pub forward: (int, int, int),
    pub planes: Seq<Plane>,
    pub origin: (int, int, int),
    pub generation_distance: int,
    pub near_distance_squared: int,
}

/// The chunk of the world grid that contains a world position.
pub open spec fn spec_chunk_of(p: WorldVec) -> (int, int, int) {
    ((p.x as int) / (CHUNK_SIZE as int), (p.y as int) / (CHUNK_SIZE as int), (p.z as int) / (
    CHUNK_SIZE as int))
}

/// The visibility walk's view of a registry, an observer and a
/// configuration.
pub open spec fn walk_env(d: ChunkData, o: Observer, c: WorldGeneratorConfig) -> WalkEnv {
    WalkEnv {
        loaded: d.spec_loaded(),
        position: (o.position.x as int, o.position.y as int, o.position.z as int),
        forward: (o.forward.x as int, o.forward.y as int, o.forward.z as int),
        planes: o.frustum.planes@,
        origin: spec_chunk_of(o.position),
        generation_distance: c.generation_distance as int,
        near_distance_squared: c.near_distance_squared as int,
    }
}

/// The world position of the center of one face of a chunk.
pub open spec fn spec_face_center(t: (int, int, int), f: Face) -> (int, int, int) {
    let half = (CHUNK_SIZE as int) / 2;
    let x0 = t.0 * CHUNK_SIZE;
    let y0 = t.1 * CHUNK_SIZE;
    let z0 = t.2 * CHUNK_SIZE;
    match f {
        Face::Left => (x0, y0 + half, z0 + half),
        Face::Right => (x0 + CHUNK_SIZE, y0 + half, z0 + half),
        Face::Bottom => (x0 + half, y0, z0 + half),
        Face::Top => (x0 + half, y0 + CHUNK_SIZE, z0 + half),
        Face::Back => (x0 + half, y0 + half, z0),
        Face::Front => (x0 + half, y0 + half, z0 + CHUNK_SIZE),
    }
}

/// Whether stepping through face `f` of chunk `t` moves roughly the way the
/// observer is facing: the view ray from the observer to that face's center
/// does not point against the facing direction.
pub open spec fn spec_direction_ok(
    position: (int, int, int),
    forward: (int, int, int),
    t: (int, int, int),
    f: Face,
) -> bool {
    let c = spec_face_center(t, f);
    forward.0 * (c.0 - position.0) + forward.1 * (c.1 - position.1) + forward.2 * (c.2
        - position.2) >= 0
}

/// Whether a clip plane admits any part of the chunk's bounding box: the
/// box corner farthest along the plane's normal is inside the half-space.
pub open spec fn spec_plane_admits(p: Plane, t: (int, int, int)) -> bool {
    let px = if p.a >= 0 {
        t.0 * CHUNK_SIZE + CHUNK_SIZE
    } else {
        t.0 * CHUNK_SIZE
    };
    let py = if p.b >= 0 {
        t.1 * CHUNK_SIZE + CHUNK_SIZE
    } else {
        t.1 * CHUNK_SIZE
    };
    let pz = if p.c >= 0 {
        t.2 * CHUNK_SIZE + CHUNK_SIZE
    } else {
        t.2 * CHUNK_SIZE
    };
    p.a * px + p.b * py + p.c * pz + p.d >= 0
}

/// Whether the chunk's bounding box meets the view volume: no clip plane
/// rejects it.
pub open spec fn spec_in_frustum(planes: Seq<Plane>, t: (int, int, int)) -> bool {
    forall|k: int| 0 <= k < planes.len() ==> spec_plane_admits(#[trigger] planes[k], t)
}

/// Whether the walk may expand the chunk at `t`: its data is present, or it
/// is so close to the observer that it is tentatively expanded anyway so
/// that exploration does not stall before generation catches up.
pub open spec fn spec_expandable(env: WalkEnv, t: (int, int, int)) -> bool {
    env.loaded.contains_key(t) || spec_dist2(t, env.origin) <= env.near_distance_squared
}

/// Whether the visibility walk passes from chunk `p` through its face `f`
/// to the neighbor on the other side: `p` may be expanded, the step goes
/// roughly the way the observer faces, the face is not reported fully
/// opaque, and the neighbor is within the generation distance and the view
/// volume.
pub open spec fn edge_ok(env: WalkEnv, p: (int, int, int), f: Face) -> bool {
    let q = spec_neighbor(p, f);
    &&& spec_expandable(env, p)
    &&& spec_direction_ok(env.position, env.forward, p, f)
    &&& (env.loaded.contains_key(p) ==> !env.loaded[p].spec_face_opaque(f))
    &&& spec_dist2(q, env.origin) <= env.generation_distance * env.generation_distance
    &&& spec_in_frustum(env.planes, q)
}

/// Whether the walk can step directly from chunk `a` to chunk `b`.
pub open spec fn step_ok(env: WalkEnv, a: (int, int, int), b: (int, int, int)) -> bool {
    exists|f: Face| b == spec_neighbor(a, f) && edge_ok(env, a, f)
}

/// Whether `path` is a walk from the observer's chunk along permitted
/// steps.
pub open spec fn path_ok(env: WalkEnv, path: Seq<(int, int, int)>) -> bool {
    &&& path.len() >= 1
    &&& path[0] == env.origin
    &&& forall|i: int| 0 <= i < path.len() - 1 ==> #[trigger] step_ok(env, path[i], path[i + 1])
}

/// Whether the visibility walk reaches chunk `t`: some walk from the
/// observer's chunk along permitted steps ends at it.
pub open spec fn reachable(env: WalkEnv, t: (int, int, int)) -> bool {
    exists|path: Seq<(int, int, int)>| path_ok(env, path) && path.last() == t
}

/// The product of a machine word with a bounded world coordinate fits the
/// widest integer with room for a few summands.
proof fn lemma_wide_mul_bound(a: int, b: int)
    requires
        -0x8000_0000_0000_0000 <= a <= 0x8000_0000_0000_0000,
        -0x1_0000_0000_0000 <= b <= 0x1_0000_0000_0000,
    ensures
        -0x8000_0000_0000_0000_0000_0000_0000 <= a * b <= 0x8000_0000_0000_0000_0000_0000_0000,
{
    assert(-0x8000_0000_0000_0000_0000_0000_0000 <= a * b
        <= 0x8000_0000_0000_0000_0000_0000_0000) by (nonlinear_arith)
        requires
            -0x8000_0000_0000_0000 <= a <= 0x8000_0000_0000_0000,
            -0x1_0000_0000_0000 <= b <= 0x1_0000_0000_0000,
    ;
}

/// A bound on a squared distance bounds each coordinate difference.
proof fn lemma_axis_bound(a: int, b: int, c: int, d: int)
    requires
        d >= 0,
        a * a + b * b + c * c <= d * d,
    ensures
        -d <= a <= d,
        -d <= b <= d,
        -d <= c <= d,
{
    assert(-d <= a <= d && -d <= b <= d && -d <= c <= d) by (nonlinear_arith)
        requires
            d >= 0,
            a * a + b * b + c * c <= d * d,
    ;
}

/// A packed base-`w` encoding of three digits below `w` is injective.
proof fn lemma_pack_unique(w: int, u1: int, v1: int, t1: int, u2: int, v2: int, t2: int)
    requires
        w >= 1,
        0 <= u1 < w,
        0 <= v1 < w,
        0 <= t1 < w,
        0 <= u2 < w,
        0 <= v2 < w,
        0 <= t2 < w,
        u1 + w * v1 + w * w * t1 == u2 + w * v2 + w * w * t2,
    ensures
        u1 == u2 && v1 == v2 && t1 == t2,
{
    assert(u1 == u2 && v1 == v2 && t1 == t2) by (nonlinear_arith)
        requires
            w >= 1,
            0 <= u1 < w,
            0 <= v1 < w,
            0 <= t1 < w,
            0 <= u2 < w,
            0 <= v2 < w,
            0 <= t2 < w,
            u1 + w * v1 + w * w * t1 == u2 + w * v2 + w * w * t2,
    ;
}

/// A packed base-`w` encoding of three digits below `w` lies below `w`
/// cubed.
proof fn lemma_pack_range(w: int, u: int, v: int, t: int)
    requires
        w >= 1,
        0 <= u < w,
        0 <= v < w,
        0 <= t < w,
    ensures
        0 <= u + w * v + w * w * t < w * w * w,
{
    assert(0 <= u + w * v + w * w * t < w * w * w) by (nonlinear_arith)
        requires
            w >= 1,
            0 <= u < w,
            0 <= v < w,
            0 <= t < w,
    ;
}

/// A list of distinct grid positions that all lie within distance `d` of
/// one center position can hold at most as many entries as the enclosing
/// box has cells.
proof fn lemma_distinct_in_ball(s: Seq<ChunkPosition>, center: (int, int, int), d: int)
    requires
        d >= 0,
        crate::registry::pos_distinct(s),
        forall|k: int|
            0 <= k < s.len() ==> #[trigger] s[k]@ == center || spec_dist2(s[k]@, center) <= d * d,
    ensures
        s.len() <= (2 * d + 1) * (2 * d + 1) * (2 * d + 1),
{
    let w = 2 * d + 1;
    let f = |c: ChunkPosition|
        (c@.0 - center.0 + d) + w * ((c@.1 - center.1 + d) + w * (c@.2 - center.2 + d));
    let idxs = s.map_values(f);
    assert forall|k: int| 0 <= k < s.len() implies -d <= #[trigger] s[k]@.0 - center.0 <= d && -d
        <= s[k]@.1 - center.1 <= d && -d <= s[k]@.2 - center.2 <= d by {
        if s[k]@ == center {
        } else {
            lemma_axis_bound(s[k]@.0 - center.0, s[k]@.1 - center.1, s[k]@.2 - center.2, d);
        }
    }
    assert forall|k: int| 0 <= k < idxs.len() implies 0 <= #[trigger] idxs[k] < w * w * w by {
        assert(idxs[k] == (s[k]@.0 - center.0 + d) + w * ((s[k]@.1 - center.1 + d) + w * (s[k]@.2
            - center.2 + d)));
        lemma_pack_range(w, s[k]@.0 - center.0 + d, s[k]@.1 - center.1 + d, s[k]@.2 - center.2 + d);
        assert(w * ((s[k]@.1 - center.1 + d) + w * (s[k]@.2 - center.2 + d)) == w * (s[k]@.1
            - center.1 + d) + w * w * (s[k]@.2 - center.2 + d)) by (nonlinear_arith);
    }
    assert(idxs.no_duplicates()) by {
        assert forall|i: int, j: int|
            0 <= i < idxs.len() && 0 <= j < idxs.len() && i != j implies idxs[i] != idxs[j] by {
            if idxs[i] == idxs[j] {
                assert(w * ((s[i]@.1 - center.1 + d) + w * (s[i]@.2 - center.2 + d)) == w * (
                s[i]@.1 - center.1 + d) + w * w * (s[i]@.2 - center.2 + d)) by (nonlinear_arith);
                assert(w * ((s[j]@.1 - center.1 + d) + w * (s[j]@.2 - center.2 + d)) == w * (
                s[j]@.1 - center.1 + d) + w * w * (s[j]@.2 - center.2 + d)) by (nonlinear_arith);
                lemma_pack_unique(
                    w,
                    s[i]@.0 - center.0 + d,
                    s[i]@.1 - center.1 + d,
                    s[i]@.2 - center.2 + d,
                    s[j]@.0 - center.0 + d,
                    s[j]@.1 - center.1 + d,
                    s[j]@.2 - center.2 + d,
                );
                assert(s[i]@ == s[j]@);
                if i < j {
                    assert(s[i]@ != s[j]@);
                } else {
                    assert(s[j]@ != s[i]@);
                }
            }
        }
    }
    idxs.unique_seq_to_set();
    vstd::set_lib::lemma_int_range(0, w * w * w);
    assert(idxs.to_set().subset_of(vstd::set_lib::set_int_range(0, w * w * w))) by {
        assert forall|x: int| idxs.to_set().contains(x) implies vstd::set_lib::set_int_range(
            0,
            w * w * w,
        ).contains(x) by {
            let k = choose|k: int| 0 <= k < idxs.len() && idxs[k] == x;
        }
    }
    vstd::set_lib::lemma_len_subset(idxs.to_set(), vstd::set_lib::set_int_range(0, w * w * w));
}

/// Two faces with the same face number are the same face.
proof fn lemma_face_number_injective(a: Face, b: Face)
    requires
        a.spec_face_number() == b.spec_face_number(),
    ensures
        a == b,
{
}

/// Flooring a world coordinate into the chunk grid agrees with integer
/// division by the chunk edge length.
pub(crate) proof fn lemma_div16_unique(a: int, q: int)
    requires
        q * CHUNK_SIZE <= a < q * CHUNK_SIZE + CHUNK_SIZE,
    ensures
        a / (CHUNK_SIZE as int) == q,
{
    vstd::arithmetic::div_mod::lemma_fundamental_div_mod(a, CHUNK_SIZE as int);
    vstd::arithmetic::div_mod::lemma_mod_bound(a, CHUNK_SIZE as int);
    let r = a / (CHUNK_SIZE as int);
    assert(a == 16 * r + a % 16);
    assert(16 * q <= a < 16 * q + 16);
}

impl Face {
    /// The world position of the center of this face of the chunk at the
    /// given grid position.
    pub fn face_center_in_chunk(&self, chunk: &ChunkPosition) -> (r: WorldVec)
        ensures
            (r.x as int, r.y as int, r.z as int) == spec_face_center(chunk@, *self),
    {
        let x0 = (chunk.x as i64) * 16;
        let y0 = (chunk.y as i64) * 16;
        let z0 = (chunk.z as i64) * 16;
        proof {
            assert(x0 == chunk@.0 * CHUNK_SIZE);
            assert(y0 == chunk@.1 * CHUNK_SIZE);
            assert(z0 == chunk@.2 * CHUNK_SIZE);
            assert((CHUNK_SIZE as int) / 2 == 8);
        }
        match self {
            Face::Left => WorldVec { x: x0, y: y0 + 8, z: z0 + 8 },
            Face::Right => WorldVec { x: x0 + 16, y: y0 + 8, z: z0 + 8 },
            Face::Bottom => WorldVec { x: x0 + 8, y: y0, z: z0 + 8 },
            Face::Top => WorldVec { x: x0 + 8, y: y0 + 16, z: z0 + 8 },
            Face::Back => WorldVec { x: x0 + 8, y: y0 + 8, z: z0 },
            Face::Front => WorldVec { x: x0 + 8, y: y0 + 8, z: z0 + 16 },
        }
    }
}

/// Whether stepping through face `f` of the chunk at `p` moves roughly the
/// way the observer is facing.
fn direction_ok(observer: &Observer, p: &ChunkPosition, f: Face) -> (r: bool)
    requires
        -0x4000_0000_0000 <= observer.position.x <= 0x4000_0000_0000,
        -0x4000_0000_0000 <= observer.position.y <= 0x4000_0000_0000,
        -0x4000_0000_0000 <= observer.position.z <= 0x4000_0000_0000,
    ensures
        r == spec_direction_ok(
            (observer.position.x as int, observer.position.y as int, observer.position.z as int),
            (observer.forward.x as int, observer.forward.y as int, observer.forward.z as int),
            p@,
            f,
        ),
{
    let c = f.face_center_in_chunk(p);
    let vx = (c.x as i128) - (observer.position.x as i128);
    let vy = (c.y as i128) - (observer.position.y as i128);
    let vz = (c.z as i128) - (observer.position.z as i128);
    let fx = observer.forward.x as i128;
    let fy = observer.forward.y as i128;
    let fz = observer.forward.z as i128;
    proof {
        lemma_wide_mul_bound(fx as int, vx as int);
        lemma_wide_mul_bound(fy as int, vy as int);
        lemma_wide_mul_bound(fz as int, vz as int);
    }
    fx * vx + fy * vy + fz * vz >= 0
}

/// Whether the chunk's bounding box meets the view volume.
fn intersects_frustum(frustum: &Frustum, p: &ChunkPosition) -> (r: bool)
    ensures
        r == spec_in_frustum(frustum.planes@, p@),
{
    let x0 = (p.x as i64) * 16;
    let y0 = (p.y as i64) * 16;
    let z0 = (p.z as i64) * 16;
    proof {
        assert(x0 == p@.0 * CHUNK_SIZE);
        assert(y0 == p@.1 * CHUNK_SIZE);
        assert(z0 == p@.2 * CHUNK_SIZE);
    }
    let mut k: usize = 0;
    while k < frustum.planes.len()
        invariant
            k <= frustum.planes@.len(),
            x0 == p@.0 * CHUNK_SIZE,
            y0 == p@.1 * CHUNK_SIZE,
            z0 == p@.2 * CHUNK_SIZE,
            -0x2_0000_0000_0000 <= x0 <= 0x2_0000_0000_0000,
            -0x2_0000_0000_0000 <= y0 <= 0x2_0000_0000_0000,
            -0x2_0000_0000_0000 <= z0 <= 0x2_0000_0000_0000,
            forall|j: int|
                0 <= j < k ==> spec_plane_admits(#[trigger] frustum.planes@[j], p@),
        decreases frustum.planes@.len() - k,
    {
        let plane = frustum.planes[k];
        let px = if plane.a >= 0 {
            x0 + 16
        } else {
            x0
        };
        let py = if plane.b >= 0 {
            y0 + 16
        } else {
            y0
        };
        let pz = if plane.c >= 0 {
            z0 + 16
        } else {
            z0
        };
        proof {
            lemma_wide_mul_bound(plane.a as int, px as int);
            lemma_wide_mul_bound(plane.b as int, py as int);
            lemma_wide_mul_bound(plane.c as int, pz as int);
        }
        let s = (plane.a as i128) * (px as i128) + (plane.b as i128) * (py as i128) + (
        plane.c as i128) * (pz as i128) + (plane.d as i128);
        if s < 0 {
            proof {
                assert(!spec_plane_admits(frustum.planes@[k as int], p@));
            }
            return false;
        }
        k += 1;
    }
    true
}

/// The breadth-first visibility walk: starting at the observer's chunk, it
/// expands through faces that are not reported opaque, roughly face the
/// observer, stay within the generation distance, and meet the view
/// volume; chunks whose data is missing are not expanded unless very close
/// to the observer. The result contains the observer's chunk, contains
/// only reachable chunks, and is closed under permitted steps — which pins
/// it down to exactly the reachable set.
#[verifier::loop_isolation(false)]
pub fn compute_visible_set(
    chunk_data: &ChunkData,
    observer: &Observer,
    config: &WorldGeneratorConfig,
) -> (r: Vec<ChunkPosition>)
    requires
        chunk_data.wf(),
        -0x7_FE00_0000 <= observer.position.x <= 0x7_FE00_0000,
        -0x7_FE00_0000 <= observer.position.y <= 0x7_FE00_0000,
        -0x7_FE00_0000 <= observer.position.z <= 0x7_FE00_0000,
        config.generation_distance <= 0x10_0000,
    ensures
        crate::registry::pos_distinct(r@),
        pos_set(r@).contains(walk_env(*chunk_data, *observer, *config).origin),
        forall|t: (int, int, int)|
            #[trigger] pos_set(r@).contains(t) ==> reachable(
                walk_env(*chunk_data, *observer, *config),
                t,
            ),
        forall|t: (int, int, int)|
            #[trigger] reachable(walk_env(*chunk_data, *observer, *config), t) ==> pos_set(
                r@,
            ).contains(t),
        forall|t: (int, int, int), f: Face|
            pos_set(r@).contains(t) && edge_ok(walk_env(*chunk_data, *observer, *config), t, f)
                ==> pos_set(r@).contains(
                spec_neighbor(t, f),
            ),
        forall|t: (int, int, int)|
            #[trigger] pos_set(r@).contains(t) ==> t == walk_env(
                *chunk_data,
                *observer,
                *config,
            ).origin || spec_dist2(t, walk_env(*chunk_data, *observer, *config).origin) <= walk_env(
                *chunk_data,
                *observer,
                *config,
            ).generation_distance * walk_env(*chunk_data, *observer, *config).generation_distance,
{
    let ghost env = walk_env(*chunk_data, *observer, *config);
    let origin = ChunkPosition::from_world_position(observer.position);
    proof {
        lemma_div16_unique(observer.position.x as int, origin.x as int);
        lemma_div16_unique(observer.position.y as int, origin.y as int);
        lemma_div16_unique(observer.position.z as int, origin.z as int);
        assert(origin@ == env.origin);
        assert(-0x7FE0_0001 <= origin.x <= 0x7FE0_0000);
        assert(-0x7FE0_0001 <= origin.y <= 0x7FE0_0000);
        assert(-0x7FE0_0001 <= origin.z <= 0x7FE0_0000);
    }
    let gd = config.generation_distance;
    proof {
        assert(0 <= (gd as int) * (gd as int) <= 0x100_0000_0000) by (nonlinear_arith)
            requires
                0 <= gd <= 0x10_0000,
        ;
    }
    let threshold: u128 = (gd as u128) * (gd as u128);
    let ghost bound = (2 * gd as int + 1) * (2 * gd as int + 1) * (2 * gd as int + 1);
    let mut queue: Vec<(ChunkPosition, Option<Face>)> = Vec::new();
    queue.push((origin, None));
    let mut seen: Vec<ChunkPosition> = Vec::new();
    seen.push(origin);
    proof {
        let path0 = seq![env.origin];
        assert(path_ok(env, path0));
        assert(path0.last() == env.origin);
        assert(reachable(env, env.origin));
    }
    let mut head: usize = 0;
    while head < queue.len()
        invariant
            head <= queue@.len(),
            seen@.len() == queue@.len(),
            forall|k: int| 0 <= k < queue@.len() ==> (#[trigger] queue@[k].0) == seen@[k],
            seen@.len() >= 1,
            seen@[0] == origin,
            crate::registry::pos_distinct(seen@),
            forall|k: int|
                0 <= k < seen@.len() ==> (#[trigger] seen@[k]@) == env.origin || spec_dist2(
                    seen@[k]@,
                    env.origin,
                ) <= env.generation_distance * env.generation_distance,
            forall|k: int| 0 <= k < seen@.len() ==> reachable(env, #[trigger] seen@[k]@),
            forall|k: int|
                0 <= k < queue@.len() ==> match (#[trigger] queue@[k].1) {
                    Some(f0) => pos_set(seen@).contains(spec_neighbor(queue@[k].0@, f0)),
                    None => true,
                },
            forall|k: int, f: Face|
                0 <= k < head && #[trigger] edge_ok(env, queue@[k].0@, f) ==> pos_set(
                    seen@,
                ).contains(spec_neighbor(queue@[k].0@, f)),
        decreases bound + 1 - seen@.len(), queue@.len() - head,
    {
        let entry = queue[head];
        let p = entry.0;
        let from = entry.1;
        proof {
            assert(seen@[head as int] == p);
            if p@ != env.origin {
                lemma_axis_bound(
                    p@.0 - env.origin.0,
                    p@.1 - env.origin.1,
                    p@.2 - env.origin.2,
                    gd as int,
                );
            }
            assert(i32::MIN < p.x < i32::MAX);
            assert(i32::MIN < p.y < i32::MAX);
            assert(i32::MIN < p.z < i32::MAX);
        }
        let loaded_chunk = chunk_data.get_loaded(&p);
        let present = match loaded_chunk {
            Some(_) => true,
            None => false,
        };
        let near = p.distance_squared_to(&origin) <= (config.near_distance_squared as u128);
        if present || near {
            proof {
                assert(spec_expandable(env, p@));
            }
            let nbrs = p.neighbors();
            let ghost seen0 = seen@;
            let ghost queue0 = queue@;
            let mut k: usize = 0;
            while k < 6
                invariant
                    k <= 6,
                    head < queue@.len(),
                    seen@.len() >= seen0.len(),
                    seen@.len() == seen0.len() ==> seen@ == seen0 && queue@ == queue0,
                    seen@.len() == queue@.len(),
                    forall|j: int| 0 <= j < queue@.len() ==> (#[trigger] queue@[j].0) == seen@[j],
                    seen@.len() >= 1,
                    seen@[0] == origin,
                    crate::registry::pos_distinct(seen@),
                    forall|j: int|
                        0 <= j < seen@.len() ==> (#[trigger] seen@[j]@) == env.origin
                            || spec_dist2(seen@[j]@, env.origin) <= env.generation_distance
                            * env.generation_distance,
                    forall|j: int| 0 <= j < seen@.len() ==> reachable(env, #[trigger] seen@[j]@),
                    forall|j: int|
                        0 <= j < queue@.len() ==> match (#[trigger] queue@[j].1) {
                            Some(f0) => pos_set(seen@).contains(
                                spec_neighbor(queue@[j].0@, f0),
                            ),
                            None => true,
                        },
                    forall|j: int, f: Face|
                        0 <= j < head && #[trigger] edge_ok(env, queue@[j].0@, f) ==> pos_set(
                            seen@,
                        ).contains(spec_neighbor(queue@[j].0@, f)),
                    forall|j: int|
                        0 <= j < k && edge_ok(env, p@, (#[trigger] nbrs@[j]).1) ==> pos_set(
                            seen@,
                        ).contains(spec_neighbor(p@, nbrs@[j].1)),
                    queue@[head as int].0 == p,
                    queue@[head as int].1 == from,
                decreases 6 - k,
            {
                let q = nbrs[k].0;
                let f = nbrs[k].1;
                let skip_from = match from {
                    Some(f0) => f0 == f,
                    None => false,
                };
                if skip_from {
                    proof {
                        assert(pos_set(seen@).contains(spec_neighbor(p@, f)));
                    }
                } else {
                    let dir = direction_ok(observer, &p, f);
                    let masked = if dir {
                        match loaded_chunk {
                            Some(c) => c.is_face_opaque(f),
                            None => false,
                        }
                    } else {
                        false
                    };
                    let within = if dir && !masked {
                        q.distance_squared_to(&origin) <= threshold
                    } else {
                        false
                    };
                    let already = if dir && !masked && within {
                        crate::registry::pos_contains(&seen, &q)
                    } else {
                        false
                    };
                    let in_view = if dir && !masked && within && !already {
                        intersects_frustum(&observer.frustum, &q)
                    } else {
                        false
                    };
                    if dir && !masked && within && !already && in_view {
                        proof {
                            assert(q@ == spec_neighbor(p@, f));
                            assert(edge_ok(env, p@, f));
                            let pth = choose|pth: Seq<(int, int, int)>|
                                path_ok(env, pth) && pth.last() == p@;
                            let pth2 = pth.push(q@);
                            assert(step_ok(env, p@, q@)) by {
                                assert(q@ == spec_neighbor(p@, f) && edge_ok(env, p@, f));
                            }
                            assert(path_ok(env, pth2)) by {
                                assert(pth2[0] == env.origin);
                                assert forall|i: int| 0 <= i < pth2.len() - 1 implies
                                    #[trigger] step_ok(env, pth2[i], pth2[i + 1]) by {
                                    if i < pth.len() - 1 {
                                        assert(step_ok(env, pth[i], pth[i + 1]));
                                        assert(pth2[i] == pth[i] && pth2[i + 1] == pth[i + 1]);
                                    } else {
                                        assert(pth2[i] == pth.last() && pth2[i + 1] == q@);
                                    }
                                }
                            }
                            assert(pth2.last() == q@);
                            assert(reachable(env, q@));
                        }
                        let back = f.opposite();
                        let ghost seen_before = seen@;
                        queue.push((q, Some(back)));
                        seen.push(q);
                        proof {
                            crate::registry::lemma_pos_set_push(seen_before, q);
                            crate::chunk::lemma_neighbor_opposite(p@, f);
                            assert(spec_neighbor(q@, back) == p@);
                            assert(pos_set(seen@).contains(p@)) by {
                                assert(seen@[head as int]@ == p@);
                            }
                            assert(pos_set(seen@).contains(spec_neighbor(p@, f))) by {
                                assert(seen@[seen@.len() - 1]@ == q@);
                            }
                        }
                    } else {
                        proof {
                            if !dir {
                                assert(!edge_ok(env, p@, f));
                            } else if masked {
                                assert(env.loaded.contains_key(p@)
                                    && env.loaded[p@].spec_face_opaque(f));
                                assert(!edge_ok(env, p@, f));
                            } else if !within {
                                assert(!edge_ok(env, p@, f));
                            } else if already {
                                assert(pos_set(seen@).contains(spec_neighbor(p@, f)));
                            } else {
                                assert(!spec_in_frustum(env.planes, q@));
                                assert(!edge_ok(env, p@, f));
                            }
                        }
                    }
                }
                k += 1;
            }
            proof {
                assert forall|f: Face| edge_ok(env, p@, f) implies pos_set(seen@).contains(
                    spec_neighbor(p@, f),
                ) by {
                    let n = f.spec_face_number();
                    assert(0 <= n < 6);
                    assert(nbrs@[n].1.spec_face_number() == n);
                    lemma_face_number_injective(nbrs@[n].1, f);
                    assert(nbrs@[n].1 == f);
                }
            }
        } else {
            proof {
                assert(!spec_expandable(env, p@));
                assert forall|f: Face| edge_ok(env, p@, f) implies pos_set(seen@).contains(
                    spec_neighbor(p@, f),
                ) by {
                    assert(false);
                }
            }
        }
        proof {
            lemma_distinct_in_ball(seen@, env.origin, gd as int);
        }
        head += 1;
    }
    proof {
        assert forall|t: (int, int, int), f: Face|
            pos_set(seen@).contains(t) && edge_ok(env, t, f) implies pos_set(seen@).contains(
            spec_neighbor(t, f),
        ) by {
            let k = choose|k: int| 0 <= k < seen@.len() && seen@[k]@ == t;
            assert(queue@[k].0 == seen@[k]);
            assert(edge_ok(env, queue@[k].0@, f));
        }
        assert forall|t: (int, int, int)| #[trigger] pos_set(seen@).contains(t) implies reachable(
            env,
            t,
        ) by {
            let k = choose|k: int| 0 <= k < seen@.len() && seen@[k]@ == t;
        }
        assert forall|t: (int, int, int)| #[trigger] pos_set(seen@).contains(t) implies t
            == env.origin || spec_dist2(t, env.origin) <= env.generation_distance
            * env.generation_distance by {
            let k = choose|k: int| 0 <= k < seen@.len() && seen@[k]@ == t;
        }
        assert(pos_set(seen@).contains(env.origin)) by {
            assert(seen@[0]@ == env.origin);
        }
        assert forall|t: (int, int, int)| #[trigger] reachable(env, t) implies pos_set(
            seen@,
        ).contains(t) by {
            lemma_reachable_in_closed_set(env, pos_set(seen@), t);
        }
    }
    seen
}

/// Runs a visibility walk and applies its result to the registry: the
/// visible set is fully replaced by the walk's result, and every visible
/// chunk whose data is not yet present and not already on its way is
/// marked as awaiting generation. The walk is a deterministic function of
/// the registry, the observer and the configuration, so no safeguard
/// against transient shrinks of the visible set is needed.
#[verifier::loop_isolation(false)]
pub fn update_visible_chunks(
    chunk_data: &mut ChunkData,
    observer: &Observer,
    config: &WorldGeneratorConfig,
)
    requires
        old(chunk_data).wf(),
        -0x7_FE00_0000 <= observer.position.x <= 0x7_FE00_0000,
        -0x7_FE00_0000 <= observer.position.y <= 0x7_FE00_0000,
        -0x7_FE00_0000 <= observer.position.z <= 0x7_FE00_0000,
        config.generation_distance <= 0x10_0000,
    ensures
        final(chunk_data).wf(),
        final(chunk_data).spec_visible().contains(
            walk_env(*old(chunk_data), *observer, *config).origin,
        ),
        forall|t: (int, int, int)|
            #[trigger] final(chunk_data).spec_visible().contains(t) ==> reachable(
                walk_env(*old(chunk_data), *observer, *config),
                t,
            ),
        forall|t: (int, int, int)|
            #[trigger] reachable(walk_env(*old(chunk_data), *observer, *config), t)
                ==> final(chunk_data).spec_visible().contains(t),
        forall|t: (int, int, int), f: Face|
            final(chunk_data).spec_visible().contains(t) && edge_ok(
                walk_env(*old(chunk_data), *observer, *config),
                t,
                f,
            ) ==> final(chunk_data).spec_visible().contains(spec_neighbor(t, f)),
        final(chunk_data).spec_awaiting_generation() == old(
            chunk_data,
        ).spec_awaiting_generation().union(
            Set::new(
                |t: (int, int, int)|
                    final(chunk_data).spec_visible().contains(t) && !old(
                        chunk_data,
                    ).spec_loaded().contains_key(t) && !old(chunk_data).spec_generating().contains(
                        t,
                    ),
            ),
        ),
        final(chunk_data).spec_loaded() == old(chunk_data).spec_loaded(),
        final(chunk_data).spec_meshes() == old(chunk_data).spec_meshes(),
        final(chunk_data).spec_generating() == old(chunk_data).spec_generating(),
        final(chunk_data).spec_meshing() == old(chunk_data).spec_meshing(),
        final(chunk_data).spec_empty_meshes() == old(chunk_data).spec_empty_meshes(),
{
    let visible = compute_visible_set(chunk_data, observer, config);
    let mut i: usize = 0;
    while i < visible.len()
        invariant
            i <= visible@.len(),
            chunk_data.wf(),
            chunk_data.spec_loaded() == old(chunk_data).spec_loaded(),
            chunk_data.spec_meshes() == old(chunk_data).spec_meshes(),
            chunk_data.spec_generating() == old(chunk_data).spec_generating(),
            chunk_data.spec_meshing() == old(chunk_data).spec_meshing(),
            chunk_data.spec_empty_meshes() == old(chunk_data).spec_empty_meshes(),
            chunk_data.spec_visible() == old(chunk_data).spec_visible(),
            chunk_data.spec_awaiting_generation() == old(
                chunk_data,
            ).spec_awaiting_generation().union(
                Set::new(
                    |t: (int, int, int)|
                        exists|j: int|
                            0 <= j < i && visible@[j]@ == t && !old(
                                chunk_data,
                            ).spec_loaded().contains_key(t) && !old(
                                chunk_data,
                            ).spec_generating().contains(t),
                ),
            ),
        decreases visible@.len() - i,
    {
        let v = visible[i];
        let ghost before = chunk_data.spec_awaiting_generation();
        chunk_data.note_generation_request(v);
        proof {
            let requested_now = Set::new(
                |t: (int, int, int)|
                    exists|j: int|
                        0 <= j < i + 1 && visible@[j]@ == t && !old(
                            chunk_data,
                        ).spec_loaded().contains_key(t) && !old(
                            chunk_data,
                        ).spec_generating().contains(t),
            );
            assert forall|t: (int, int, int)|
                #[trigger] chunk_data.spec_awaiting_generation().contains(t) implies old(
                chunk_data,
            ).spec_awaiting_generation().union(requested_now).contains(t) by {
                if before.contains(t) {
                    if !old(chunk_data).spec_awaiting_generation().contains(t) {
                        let j = choose|j: int|
                            0 <= j < i && visible@[j]@ == t && !old(
                                chunk_data,
                            ).spec_loaded().contains_key(t) && !old(
                                chunk_data,
                            ).spec_generating().contains(t);
                    }
                } else {
                    assert(t == v@);
                    assert(visible@[i as int]@ == t);
                }
            }
            assert forall|t: (int, int, int)|
                old(chunk_data).spec_awaiting_generation().union(requested_now).contains(
                    t,
                ) implies #[trigger] chunk_data.spec_awaiting_generation().contains(t) by {
                if old(chunk_data).spec_awaiting_generation().contains(t) {
                    assert(before.contains(t));
                } else {
                    let j = choose|j: int|
                        0 <= j < i + 1 && visible@[j]@ == t && !old(
                            chunk_data,
                        ).spec_loaded().contains_key(t) && !old(
                            chunk_data,
                        ).spec_generating().contains(t);
                    if j < i {
                        assert(before.contains(t));
                    } else {
                        assert(t == v@);
                        if before.contains(t) {
                        } else {
                            assert(chunk_data.spec_awaiting_generation() == before.insert(v@));
                        }
                    }
                }
            }
            assert(chunk_data.spec_awaiting_generation() =~= old(
                chunk_data,
            ).spec_awaiting_generation().union(requested_now));
        }
        i += 1;
    }
    proof {
        assert(Set::new(
            |t: (int, int, int)|
                exists|j: int|
                    0 <= j < visible@.len() && visible@[j]@ == t && !old(
                        chunk_data,
                    ).spec_loaded().contains_key(t) && !old(chunk_data).spec_generating().contains(
                        t,
                    ),
        ) =~= Set::new(
            |t: (int, int, int)|
                pos_set(visible@).contains(t) && !old(chunk_data).spec_loaded().contains_key(t)
                    && !old(chunk_data).spec_generating().contains(t),
        ));
    }
    chunk_data.replace_visible(visible);
}

/// Any set that contains the observer's chunk and is closed under
/// permitted steps contains the end of every permitted walk.
proof fn lemma_path_end_in_closed_set(env: WalkEnv, s: Set<(int, int, int)>, path: Seq<(int, int, int)>)
    requires
        s.contains(env.origin),
        forall|p: (int, int, int), f: Face|
            s.contains(p) && #[trigger] edge_ok(env, p, f) ==> s.contains(spec_neighbor(p, f)),
        path_ok(env, path),
    ensures
        s.contains(path.last()),
    decreases path.len(),
{
    if path.len() == 1 {
        assert(path.last() == env.origin);
    } else {
        let pre = path.drop_last();
        assert(path_ok(env, pre)) by {
            assert forall|i: int| 0 <= i < pre.len() - 1 implies #[trigger] step_ok(
                env,
                pre[i],
                pre[i + 1],
            ) by {
                assert(step_ok(env, path[i], path[i + 1]));
            }
        }
        lemma_path_end_in_closed_set(env, s, pre);
        let a = path[path.len() - 2];
        let b = path[path.len() - 1];
        assert(s.contains(a));
        assert(step_ok(env, path[path.len() - 2], path[path.len() - 2 + 1]));
        assert(b == path[path.len() - 2 + 1]);
        assert(step_ok(env, a, b));
        let f = choose|f: Face| b == spec_neighbor(a, f) && #[trigger] edge_ok(env, a, f);
        assert(s.contains(spec_neighbor(a, f)));
    }
}

/// Every chunk the walk can reach belongs to any set that contains the
/// observer's chunk and is closed under permitted steps. Together with the
/// walk's own guarantees this makes the walk's result exactly the set of
/// reachable chunks.
pub proof fn lemma_reachable_in_closed_set(env: WalkEnv, s: Set<(int, int, int)>, t: (int, int, int))
    requires
        s.contains(env.origin),
        forall|p: (int, int, int), f: Face|
            s.contains(p) && #[trigger] edge_ok(env, p, f) ==> s.contains(spec_neighbor(p, f)),
        reachable(env, t),
    ensures
        s.contains(t),
{
    let path = choose|path: Seq<(int, int, int)>| path_ok(env, path) && path.last() == t;
    lemma_path_end_in_closed_set(env, s, path);
}

/// Visibility is deterministic: two walks over the same loaded chunks,
/// observer pose, view volume and distance budgets produce the same
/// visible set.
pub proof fn lemma_visibility_deterministic(
    env: WalkEnv,
    s1: Set<(int, int, int)>,
    s2: Set<(int, int, int)>,
)
    requires
        s1.contains(env.origin),
        forall|t: (int, int, int)| #[trigger] s1.contains(t) ==> reachable(env, t),
        forall|p: (int, int, int), f: Face|
            s1.contains(p) && #[trigger] edge_ok(env, p, f) ==> s1.contains(spec_neighbor(p, f)),
        s2.contains(env.origin),
        forall|t: (int, int, int)| #[trigger] s2.contains(t) ==> reachable(env, t),
        forall|p: (int, int, int), f: Face|
            s2.contains(p) && #[trigger] edge_ok(env, p, f) ==> s2.contains(spec_neighbor(p, f)),
    ensures
        s1 == s2,
{
    assert forall|t: (int, int, int)| #[trigger] s1.contains(t) implies s2.contains(t) by {
        lemma_reachable_in_closed_set(env, s2, t);
    }
    assert forall|t: (int, int, int)| #[trigger] s2.contains(t) implies s1.contains(t) by {
        lemma_reachable_in_closed_set(env, s1, t);
    }
    assert(s1 =~= s2);
}

/// A face that the opacity mask reports fully opaque never passes the
/// walk's filters.
pub proof fn lemma_opaque_face_blocks(env: WalkEnv, p: (int, int, int), f: Face)
    requires
        env.loaded.contains_key(p),
        env.loaded[p].spec_face_opaque(f),
    ensures
        !edge_ok(env, p, f),
{
}

/// A chunk other than the observer's own whose every inbound step is
/// blocked — in particular one whose loaded neighbors all report the shared
/// face fully opaque — is not added to the visible set, whatever its
/// distance or view-volume status.
pub proof fn lemma_occluded_chunk_not_visible(
    env: WalkEnv,
    s: Set<(int, int, int)>,
    t: (int, int, int),
)
    requires
        forall|q: (int, int, int)| #[trigger] s.contains(q) ==> reachable(env, q),
        t != env.origin,
        forall|p: (int, int, int), f: Face|
            spec_neighbor(p, f) == t ==> !(#[trigger] edge_ok(env, p, f)),
    ensures
        !s.contains(t),
{
    if s.contains(t) {
        let path = choose|path: Seq<(int, int, int)>| path_ok(env, path) && path.last() == t;
        assert(path.len() >= 2) by {
            if path.len() == 1 {
                assert(path.last() == path[0]);
            }
        }
        let a = path[path.len() - 2];
        let b = path[path.len() - 1];
        assert(step_ok(env, path[path.len() - 2], path[path.len() - 2 + 1]));
        assert(b == path[path.len() - 2 + 1]);
        assert(step_ok(env, a, b));
        let f = choose|f: Face| b == spec_neighbor(a, f) && #[trigger] edge_ok(env, a, f);
        assert(spec_neighbor(a, f) == t);
        assert(false);
    }
}

} // verus!
