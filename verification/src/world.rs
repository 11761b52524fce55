use crate::fx::{
    fx_map_contains_key, fx_map_get, fx_map_insert, fx_map_new, fx_map_remove, fx_set_contains,
    fx_set_insert, fx_set_new, fx_set_remove,
};
use rustc_hash::{FxHashMap, FxHashSet};
use vstd::prelude::*;

verus! {

/// The position of a chunk in the chunk grid.
pub type ChunkCoords = (i32, i32, i32);

/// The key under which a chunk is stored: its three coordinates, each as 32 bits, side
/// by side.
pub open spec fn spec_chunk_key(c: ChunkCoords) -> u128 {
    ((c.0 as u32 as u128) << 64u128) | ((c.1 as u32 as u128) << 32u128) | (c.2 as u32 as u128)
}

/// The key under which a chunk is stored.
pub fn chunk_key(c: ChunkCoords) -> (res: u128)
    ensures
        res == spec_chunk_key(c),
{
    ((c.0 as u32 as u128) << 64u128) | ((c.1 as u32 as u128) << 32u128) | (c.2 as u32 as u128)
}

/// Different chunks never share a key.
pub proof fn lemma_chunk_key_injective(a: ChunkCoords, b: ChunkCoords)
    ensures
        spec_chunk_key(a) == spec_chunk_key(b) ==> a == b,
{
    let (a0, a1, a2) = (a.0 as u32, a.1 as u32, a.2 as u32);
    let (b0, b1, b2) = (b.0 as u32, b.1 as u32, b.2 as u32);
    assert(((a0 as u128) << 64u128) | ((a1 as u128) << 32u128) | (a2 as u128) == ((b0 as u128)
        << 64u128) | ((b1 as u128) << 32u128) | (b2 as u128) ==> a0 == b0 && a1 == b1 && a2 == b2)
        by (bit_vector);
    let (ax, ay, az) = (a.0, a.1, a.2);
    let (bx, by, bz) = (b.0, b.1, b.2);
    assert(ax as u32 == bx as u32 ==> ax == bx) by (bit_vector);
    assert(ay as u32 == by as u32 ==> ay == by) by (bit_vector);
    assert(az as u32 == bz as u32 ==> az == bz) by (bit_vector);
}

/// What a mesh worker produced for a chunk: the chunk, the mesh data, and when the
/// chunk data it was built from arrived.
pub struct ChunkOutput<D> {
    pub coords: ChunkCoords,
    pub data: D,
    pub updated_at: u64,
}

/// A worker's result: a chunk's mesh data, or a chunk whose mesh is to be dropped.
pub type ChunkResult<D> = Result<ChunkOutput<D>, ChunkCoords>;

/// A group of chunk updates that must reach the screen together: its id, and how many
/// results belong to it.
#[derive(Clone, Copy)]
pub struct GroupId {
    pub id: u128,
    pub size: usize,
}

/// The meshes after a mesh built from data of time `updated_at` is offered for the chunk
/// under key `k`: nothing changes for an unloaded chunk or for a mesh that is not older;
/// an older mesh is replaced (its time kept) or dropped when the new data gives no mesh;
/// a missing mesh is added when there is one.
pub open spec fn applied_meshes<M>(
    meshes: Map<u128, (M, u64)>,
    unloaded: Set<u128>,
    k: u128,
    updated_at: u64,
    mesh: Option<M>,
) -> Map<u128, (M, u64)> {
    if unloaded.contains(k) {
        meshes
    } else if meshes.contains_key(k) {
        if meshes[k].1 < updated_at {
            match mesh {
                Some(m) => meshes.insert(k, (m, meshes[k].1)),
                None => meshes.remove(k),
            }
        } else {
            meshes
        }
    } else {
        match mesh {
            Some(m) => meshes.insert(k, (m, updated_at)),
            None => meshes,
        }
    }
}

/// Whether data of time `updated_at` for the chunk under key `k` can change the meshes,
/// so that a mesh is worth building from it.
pub open spec fn mesh_wanted<M>(
    meshes: Map<u128, (M, u64)>,
    unloaded: Set<u128>,
    k: u128,
    updated_at: u64,
) -> bool {
    !unloaded.contains(k) && (!meshes.contains_key(k) || meshes[k].1 < updated_at)
}

/// The chunk meshes the client draws, with the bookkeeping that decides which worker
/// results reach them: chunks that were unloaded since, results older than the mesh in
/// place, and groups of results that must be applied together.
pub struct World<M, D> {
    /// Each chunk's mesh, with the time of the data it was first built from.
    pub meshes: FxHashMap<u128, (M, u64)>,
    /// Chunks that the server unloaded and did not load again.
    pub unloaded: FxHashSet<u128>,
    /// The results of incomplete groups, in arrival order.
    pub groups: FxHashMap<u128, Vec<ChunkResult<D>>>,
}

impl<M, D> World<M, D> {
    /// A world with no mesh, no unloaded chunk and no pending group.
    pub fn new() -> (res: Self)
        ensures
            res.meshes@ == empty_meshes::<M>(),
            res.unloaded@ == Set::<u128>::empty(),
            res.groups@ == empty_groups::<D>(),
    {
        World { meshes: fx_map_new(), unloaded: fx_set_new(), groups: fx_map_new() }
    }

    /// The mesh of a chunk, if it has one.
    pub fn mesh(&self, coords: ChunkCoords) -> (res: Option<&M>)
        ensures
            match res {
                Some(m) => self.meshes@.contains_key(spec_chunk_key(coords)) && *m
                    == self.meshes@[spec_chunk_key(coords)].0,
                None => !self.meshes@.contains_key(spec_chunk_key(coords)),
            },
    {
        match fx_map_get(&self.meshes, chunk_key(coords)) {
            Some(entry) => Some(&entry.0),
            None => None,
        }
    }

    /// The server loaded a chunk: results for it count again.
    pub fn chunk_loaded(&mut self, coords: ChunkCoords)
        ensures
            final(self).unloaded@ == old(self).unloaded@.remove(spec_chunk_key(coords)),
            final(self).meshes@ == old(self).meshes@,
            final(self).groups@ == old(self).groups@,
    {
        fx_set_remove(&mut self.unloaded, chunk_key(coords));
    }

    /// The server unloaded a chunk: results for it are ignored from now on, and its mesh
    /// is dropped with the rest of its group. Returns the results released for applying,
    /// as [`World::process_output`] does.
    pub fn chunk_unloaded(&mut self, coords: ChunkCoords, group: Option<GroupId>) -> (res: Vec<
        ChunkResult<D>,
    >)
        requires
            group_size_ok(old(self).groups@, group),
        ensures
            final(self).unloaded@ == old(self).unloaded@.insert(spec_chunk_key(coords)),
            final(self).meshes@ == old(self).meshes@,
            released(old(self).groups@, final(self).groups@, Err(coords), group, res@),
    {
        fx_set_insert(&mut self.unloaded, chunk_key(coords));
        self.process_output(Err(coords), group)
    }

    /// Routes a worker result: a result outside any group is released at once; a
    /// group's results are held until the last one arrives and then released together,
    /// in arrival order.
    pub fn process_output(&mut self, output: ChunkResult<D>, group: Option<GroupId>) -> (res: Vec<
        ChunkResult<D>,
    >)
        requires
            group_size_ok(old(self).groups@, group),
        ensures
            final(self).unloaded@ == old(self).unloaded@,
            final(self).meshes@ == old(self).meshes@,
            released(old(self).groups@, final(self).groups@, output, group, res@),
    {
        match group {
            None => {
                let mut res: Vec<ChunkResult<D>> = Vec::new();
                res.push(output);
                res
            },
            Some(g) => {
                match fx_map_remove(&mut self.groups, g.id) {
                    Some(stored) => {
                        let mut stored = stored;
                        if stored.len() == g.size - 1 {
                            stored.push(output);
                            stored
                        } else {
                            stored.push(output);
                            fx_map_insert(&mut self.groups, g.id, stored);
                            proof {
                                assert(self.groups@.remove(g.id) =~= old(self).groups@.remove(
                                    g.id,
                                ));
                            }
                            Vec::new()
                        }
                    },
                    None => {
                        if g.size == 1 {
                            let mut res: Vec<ChunkResult<D>> = Vec::new();
                            res.push(output);
                            proof {
                                assert(self.groups@ =~= old(self).groups@);
                            }
                            res
                        } else {
                            let mut pending: Vec<ChunkResult<D>> = Vec::with_capacity(g.size);
                            pending.push(output);
                            fx_map_insert(&mut self.groups, g.id, pending);
                            proof {
                                assert(self.groups@.remove(g.id) =~= old(self).groups@.remove(
                                    g.id,
                                ));
                            }
                            Vec::new()
                        }
                    },
                }
            },
        }
    }

    /// Whether a mesh built from data of time `updated_at` would change this chunk's
    /// mesh; when it would not, [`World::apply_output`] ignores it.
    pub fn needs_mesh(&self, coords: ChunkCoords, updated_at: u64) -> (res: bool)
        ensures
            res == mesh_wanted(self.meshes@, self.unloaded@, spec_chunk_key(coords), updated_at),
    {
        let k = chunk_key(coords);
        if fx_set_contains(&self.unloaded, k) {
            return false;
        }
        match fx_map_get(&self.meshes, k) {
            Some(entry) => entry.1 < updated_at,
            None => true,
        }
    }

    /// Applies a released result that carried mesh data, given the mesh built from it
    /// (`None` when the data gives nothing to draw).
    pub fn apply_output(&mut self, coords: ChunkCoords, updated_at: u64, mesh: Option<M>)
        ensures
            final(self).meshes@ == applied_meshes(
                old(self).meshes@,
                old(self).unloaded@,
                spec_chunk_key(coords),
                updated_at,
                mesh,
            ),
            final(self).unloaded@ == old(self).unloaded@,
            final(self).groups@ == old(self).groups@,
    {
        let k = chunk_key(coords);
        if fx_set_contains(&self.unloaded, k) {
            return;
        }
        match fx_map_remove(&mut self.meshes, k) {
            Some(entry) => {
                let (current, last_updated_at) = entry;
                if last_updated_at < updated_at {
                    match mesh {
                        Some(m) => {
                            fx_map_insert(&mut self.meshes, k, (m, last_updated_at));
                            proof {
                                assert(self.meshes@ =~= old(self).meshes@.insert(
                                    k,
                                    (m, last_updated_at),
                                ));
                            }
                        },
                        None => {},
                    }
                } else {
                    fx_map_insert(&mut self.meshes, k, (current, last_updated_at));
                    proof {
                        assert(self.meshes@ =~= old(self).meshes@);
                    }
                }
            },
            None => {
                match mesh {
                    Some(m) => {
                        fx_map_insert(&mut self.meshes, k, (m, updated_at));
                    },
                    None => {
                        proof {
                            assert(self.meshes@ =~= old(self).meshes@);
                        }
                    },
                }
            },
        }
    }

    /// Applies a released result that asked for a chunk's mesh to be dropped.
    pub fn apply_removal(&mut self, coords: ChunkCoords)
        ensures
            final(self).meshes@ == old(self).meshes@.remove(spec_chunk_key(coords)),
            final(self).unloaded@ == old(self).unloaded@,
            final(self).groups@ == old(self).groups@,
    {
        fx_map_remove(&mut self.meshes, chunk_key(coords));
    }

    /// Whether a chunk currently has a mesh.
    pub fn has_mesh(&self, coords: ChunkCoords) -> (res: bool)
        ensures
            res == self.meshes@.contains_key(spec_chunk_key(coords)),
    {
        fx_map_contains_key(&self.meshes, chunk_key(coords))
    }
}

/// The mesh map with no entries.
pub open spec fn empty_meshes<M>() -> Map<u128, (M, u64)> {
    Map::empty()
}

/// The group map with no entries.
pub open spec fn empty_groups<D>() -> Map<u128, Vec<ChunkResult<D>>> {
    Map::empty()
}

/// A group that already holds results has a size of at least one.
pub open spec fn group_size_ok<D>(
    groups: Map<u128, Vec<ChunkResult<D>>>,
    group: Option<GroupId>,
) -> bool {
    match group {
        Some(g) => groups.contains_key(g.id) ==> g.size >= 1,
        None => true,
    }
}

/// How a result moves through the pending groups: the results released, and the groups
/// before and after.
pub open spec fn released<D>(
    before: Map<u128, Vec<ChunkResult<D>>>,
    after: Map<u128, Vec<ChunkResult<D>>>,
    output: ChunkResult<D>,
    group: Option<GroupId>,
    res: Seq<ChunkResult<D>>,
) -> bool {
    match group {
        None => res == seq![output] && after == before,
        Some(g) => if before.contains_key(g.id) {
            let stored = before[g.id]@;
            if stored.len() == g.size - 1 {
                &&& res == stored.push(output)
                &&& after == before.remove(g.id)
            } else {
                &&& res.len() == 0
                &&& after.contains_key(g.id)
                &&& after[g.id]@ == stored.push(output)
                &&& after.remove(g.id) == before.remove(g.id)
            }
        } else if g.size == 1 {
            res == seq![output] && after == before
        } else {
            &&& res.len() == 0
            &&& after.contains_key(g.id)
            &&& after[g.id]@ == seq![output]
            &&& after.remove(g.id) == before.remove(g.id)
        },
    }
}

/// Whether a chunk's mesh is kept: a chunk with neither opaque nor transparent faces
/// still matters when its visibility graph is not fully connected, since it then
/// blocks the view through it.
pub fn chunk_mesh_kept(has_opaque: bool, has_transparent: bool, is_all_connected: bool) -> (res:
    bool)
    ensures
        res == (has_opaque || has_transparent || !is_all_connected),
{
    !(!has_opaque && !has_transparent && is_all_connected)
}

/// How the pending groups relate across the calls for one group: `befores[k]` and
/// `afters[k]` are the groups around the call for the `k`-th result, and calls for other
/// groups in between leave this group's entry as it was.
pub open spec fn group_calls<D>(
    befores: Seq<Map<u128, Vec<ChunkResult<D>>>>,
    afters: Seq<Map<u128, Vec<ChunkResult<D>>>>,
    outputs: Seq<ChunkResult<D>>,
    results: Seq<Seq<ChunkResult<D>>>,
    g: GroupId,
) -> bool {
    &&& befores.len() == outputs.len()
    &&& afters.len() == outputs.len()
    &&& results.len() == outputs.len()
    &&& forall|k: int|
        0 <= k < outputs.len() ==> released(
            #[trigger] befores[k],
            afters[k],
            outputs[k],
            Some(g),
            results[k],
        )
    &&& forall|k: int|
        0 < k < outputs.len() ==> (#[trigger] befores[k].contains_key(g.id) == afters[k
            - 1].contains_key(g.id) && (afters[k - 1].contains_key(g.id) ==> befores[k][g.id]
            == afters[k - 1][g.id]))
}

proof fn lemma_group_prefix<D>(
    befores: Seq<Map<u128, Vec<ChunkResult<D>>>>,
    afters: Seq<Map<u128, Vec<ChunkResult<D>>>>,
    outputs: Seq<ChunkResult<D>>,
    results: Seq<Seq<ChunkResult<D>>>,
    g: GroupId,
    k: int,
)
    requires
        g.size == outputs.len(),
        g.size >= 1,
        !befores[0].contains_key(g.id),
        group_calls(befores, afters, outputs, results, g),
        0 <= k < g.size - 1,
    ensures
        results[k].len() == 0,
        afters[k].contains_key(g.id),
        afters[k][g.id]@ == outputs.take(k + 1),
    decreases k,
{
    assert(released(befores[k], afters[k], outputs[k], Some(g), results[k]));
    if k == 0 {
        assert(seq![outputs[0]] =~= outputs.take(1));
    } else {
        lemma_group_prefix(befores, afters, outputs, results, g, k - 1);
        assert(befores[k].contains_key(g.id));
        assert(outputs.take(k).push(outputs[k]) =~= outputs.take(k + 1));
    }
}

/// A group's results are held until the last of them arrives, and are then released
/// together, in arrival order, with the group's entry gone; calls for other groups in
/// between do not disturb this.
pub proof fn lemma_group_released_together<D>(
    befores: Seq<Map<u128, Vec<ChunkResult<D>>>>,
    afters: Seq<Map<u128, Vec<ChunkResult<D>>>>,
    outputs: Seq<ChunkResult<D>>,
    results: Seq<Seq<ChunkResult<D>>>,
    g: GroupId,
)
    requires
        g.size == outputs.len(),
        g.size >= 1,
        !befores[0].contains_key(g.id),
        group_calls(befores, afters, outputs, results, g),
    ensures
        forall|k: int| 0 <= k < g.size - 1 ==> (#[trigger] results[k]).len() == 0,
        results[g.size - 1] == outputs,
        !afters[g.size - 1].contains_key(g.id),
{
    assert forall|k: int| 0 <= k < g.size - 1 implies (#[trigger] results[k]).len() == 0 by {
        lemma_group_prefix(befores, afters, outputs, results, g, k);
    }
    let last = g.size - 1;
    assert(released(befores[last], afters[last], outputs[last], Some(g), results[last]));
    if last == 0 {
        assert(seq![outputs[0]] =~= outputs);
    } else {
        lemma_group_prefix(befores, afters, outputs, results, g, last - 1);
        assert(befores[last].contains_key(g.id));
        assert(outputs.take(last).push(outputs[last]) =~= outputs);
    }
}

/// Offering a mesh that is not wanted changes nothing, so the mesh need not be built.
pub proof fn lemma_unwanted_mesh_changes_nothing<M>(
    meshes: Map<u128, (M, u64)>,
    unloaded: Set<u128>,
    k: u128,
    updated_at: u64,
    mesh: Option<M>,
)
    requires
        !mesh_wanted(meshes, unloaded, k, updated_at),
    ensures
        applied_meshes(meshes, unloaded, k, updated_at, mesh) == meshes,
{
}

/// A chunk's mesh never takes a later time than the one it has: results only ever
/// replace a mesh's contents or drop it, and a new mesh takes the time of its data.
pub proof fn lemma_mesh_time_kept<M>(
    meshes: Map<u128, (M, u64)>,
    unloaded: Set<u128>,
    k: u128,
    updated_at: u64,
    mesh: Option<M>,
)
    requires
        meshes.contains_key(k),
    ensures
        applied_meshes(meshes, unloaded, k, updated_at, mesh).contains_key(k) ==> applied_meshes(
            meshes,
            unloaded,
            k,
            updated_at,
            mesh,
        )[k].1 == meshes[k].1,
{
}

/// An unloaded chunk gains no mesh from any result.
pub proof fn lemma_unloaded_chunk_untouched<M>(
    meshes: Map<u128, (M, u64)>,
    unloaded: Set<u128>,
    k: u128,
    updated_at: u64,
    mesh: Option<M>,
)
    requires
        unloaded.contains(k),
    ensures
        applied_meshes(meshes, unloaded, k, updated_at, mesh) == meshes,
{
}

} // verus!
