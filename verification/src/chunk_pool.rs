use crate::fx::{fx_map_get, fx_map_insert, fx_map_new, fx_map_remove, fx_set_contains, fx_set_insert,
    fx_set_new, fx_set_remove};
use crate::world::{chunk_key, spec_chunk_key, ChunkCoords};
use rustc_hash::{FxHashMap, FxHashSet};
use vstd::prelude::*;

verus! {

/// The meshes after vertices of time `updated_at` arrive for the chunk under key `k`
/// (`mesh` is `None` when there were no vertices): nothing changes for an unloaded
/// chunk; no vertices drop the mesh; otherwise a newer mesh replaces the one in place,
/// with its time, and a missing one is added.
pub open spec fn pool_applied<M>(
    meshes: Map<u128, (M, u64)>,
    unloaded: Set<u128>,
    k: u128,
    updated_at: u64,
    mesh: Option<M>,
) -> Map<u128, (M, u64)> {
    if unloaded.contains(k) {
        meshes
    } else {
        match mesh {
            None => meshes.remove(k),
            Some(m) => if meshes.contains_key(k) {
                if updated_at > meshes[k].1 {
                    meshes.insert(k, (m, updated_at))
                } else {
                    meshes
                }
            } else {
                meshes.insert(k, (m, updated_at))
            },
        }
    }
}

/// The meshes after a redraw's worker results arrive, each applied in turn as
/// [`pool_applied`] says.
pub open spec fn pool_applied_all<M>(
    meshes: Map<u128, (M, u64)>,
    unloaded: Set<u128>,
    results: Seq<(ChunkCoords, u64, Option<M>)>,
) -> Map<u128, (M, u64)>
    decreases results.len(),
{
    if results.len() == 0 {
        meshes
    } else {
        let (coords, updated_at, mesh) = results.last();
        pool_applied(
            pool_applied_all(meshes, unloaded, results.drop_last()),
            unloaded,
            spec_chunk_key(coords),
            updated_at,
            mesh,
        )
    }
}

/// The events the mesh pool reacts to.
pub enum PoolEvent<M> {
    /// The server loaded a chunk; its data is to be meshed.
    ChunkLoaded(ChunkCoords),
    /// The server unloaded a chunk.
    ChunkUnloaded(ChunkCoords),
    /// The server changed a loaded chunk; its data is to be meshed again.
    ChunkUpdated(ChunkCoords),
    /// A frame is drawn: the workers' results received since the last one, in order,
    /// each with the mesh built from its vertices (`None` when there were none).
    RedrawRequested(Vec<(ChunkCoords, u64, Option<M>)>),
    /// Any other event.
    Other,
}

/// The chunk meshes of the scene, fed by meshing workers: each chunk's mesh with the
/// time of the data it was built from, and the chunks the server unloaded since.
pub struct ChunkMeshPool<M> {
    pub meshes: FxHashMap<u128, (M, u64)>,
    pub unloaded: FxHashSet<u128>,
}

/// No unloaded chunk holds a mesh.
pub open spec fn pool_wf<M>(meshes: Map<u128, (M, u64)>, unloaded: Set<u128>) -> bool {
    forall|k: u128| #[trigger] unloaded.contains(k) ==> !meshes.contains_key(k)
}

impl<M> ChunkMeshPool<M> {
    /// The pool's invariant: a chunk marked unloaded never holds a mesh.
    pub open spec fn wf(&self) -> bool {
        pool_wf(self.meshes@, self.unloaded@)
    }

    /// A pool with no mesh and no unloaded chunk.
    pub fn new() -> (res: Self)
        ensures
            res.meshes@ == crate::world::empty_meshes::<M>(),
            res.unloaded@ == Set::<u128>::empty(),
            res.wf(),
    {
        ChunkMeshPool { meshes: fx_map_new(), unloaded: fx_set_new() }
    }

    /// The server loaded a chunk: vertices for it count again.
    pub fn chunk_loaded(&mut self, coords: ChunkCoords)
        ensures
            final(self).unloaded@ == old(self).unloaded@.remove(spec_chunk_key(coords)),
            final(self).meshes@ == old(self).meshes@,
            old(self).wf() ==> final(self).wf(),
    {
        fx_set_remove(&mut self.unloaded, chunk_key(coords));
    }

    /// The server unloaded a chunk: its mesh goes at once, and vertices for it are
    /// ignored from now on.
    pub fn chunk_unloaded(&mut self, coords: ChunkCoords)
        ensures
            final(self).meshes@ == old(self).meshes@.remove(spec_chunk_key(coords)),
            final(self).unloaded@ == old(self).unloaded@.insert(spec_chunk_key(coords)),
            old(self).wf() ==> final(self).wf(),
    {
        fx_map_remove(&mut self.meshes, chunk_key(coords));
        fx_set_insert(&mut self.unloaded, chunk_key(coords));
    }

    /// Whether vertices of time `updated_at` would make a new mesh: the chunk is loaded
    /// and its mesh, if any, is older.
    pub fn needs_mesh(&self, coords: ChunkCoords, updated_at: u64) -> (res: bool)
        ensures
            res == (!self.unloaded@.contains(spec_chunk_key(coords)) && (!self.meshes@.contains_key(
                spec_chunk_key(coords),
            ) || updated_at > self.meshes@[spec_chunk_key(coords)].1)),
    {
        let k = chunk_key(coords);
        if fx_set_contains(&self.unloaded, k) {
            return false;
        }
        match fx_map_get(&self.meshes, k) {
            Some(entry) => updated_at > entry.1,
            None => true,
        }
    }

    /// Applies a worker's vertices for a chunk, given the mesh built from them (`None`
    /// when there were none).
    pub fn apply(&mut self, coords: ChunkCoords, updated_at: u64, mesh: Option<M>)
        ensures
            final(self).meshes@ == pool_applied(
                old(self).meshes@,
                old(self).unloaded@,
                spec_chunk_key(coords),
                updated_at,
                mesh,
            ),
            final(self).unloaded@ == old(self).unloaded@,
            old(self).wf() ==> final(self).wf(),
    {
        let k = chunk_key(coords);
        if fx_set_contains(&self.unloaded, k) {
            return;
        }
        match mesh {
            None => {
                fx_map_remove(&mut self.meshes, k);
            },
            Some(m) => {
                match fx_map_remove(&mut self.meshes, k) {
                    Some(entry) => {
                        let (current, last_updated_at) = entry;
                        if updated_at > last_updated_at {
                            fx_map_insert(&mut self.meshes, k, (m, updated_at));
                            proof {
                                assert(self.meshes@ =~= old(self).meshes@.insert(
                                    k,
                                    (m, updated_at),
                                ));
                            }
                        } else {
                            fx_map_insert(&mut self.meshes, k, (current, last_updated_at));
                            proof {
                                assert(self.meshes@ =~= old(self).meshes@);
                            }
                        }
                    },
                    None => {
                        fx_map_insert(&mut self.meshes, k, (m, updated_at));
                    },
                }
            },
        }
    }
}

impl<M> ChunkMeshPool<M> {
    /// Reacts to an event; returns whether the chunk's data is to be sent to the meshing
    /// workers. Results for a chunk marked unloaded are dropped, and the invariant that
    /// no unloaded chunk holds a mesh is kept.
    pub fn handle(&mut self, event: PoolEvent<M>) -> (res: bool)
        ensures
            match event {
                PoolEvent::ChunkLoaded(coords) => {
                    &&& res
                    &&& final(self).unloaded@ == old(self).unloaded@.remove(spec_chunk_key(coords))
                    &&& final(self).meshes@ == old(self).meshes@
                },
                PoolEvent::ChunkUnloaded(coords) => {
                    &&& !res
                    &&& final(self).meshes@ == old(self).meshes@.remove(spec_chunk_key(coords))
                    &&& final(self).unloaded@ == old(self).unloaded@.insert(spec_chunk_key(coords))
                },
                PoolEvent::ChunkUpdated(_) => {
                    &&& res
                    &&& final(self).meshes@ == old(self).meshes@
                    &&& final(self).unloaded@ == old(self).unloaded@
                },
                PoolEvent::RedrawRequested(results) => {
                    &&& !res
                    &&& final(self).meshes@ == pool_applied_all(
                        old(self).meshes@,
                        old(self).unloaded@,
                        results@,
                    )
                    &&& final(self).unloaded@ == old(self).unloaded@
                },
                PoolEvent::Other => {
                    &&& !res
                    &&& final(self).meshes@ == old(self).meshes@
                    &&& final(self).unloaded@ == old(self).unloaded@
                },
            },
            old(self).wf() ==> final(self).wf(),
    {
        match event {
            PoolEvent::ChunkLoaded(coords) => {
                self.chunk_loaded(coords);
                true
            },
            PoolEvent::ChunkUnloaded(coords) => {
                self.chunk_unloaded(coords);
                false
            },
            PoolEvent::ChunkUpdated(_) => true,
            PoolEvent::RedrawRequested(results) => {
                let ghost all = results@;
                let ghost start = self.meshes@;
                let ghost was_wf = self.wf();
                let mut rest = results;
                let mut done: usize = 0;
                let total: usize = rest.len();
                while rest.len() > 0
                    invariant
                        done <= all.len(),
                        all.len() == total,
                        rest@ == all.skip(done as int),
                        self.unloaded@ == old(self).unloaded@,
                        self.meshes@ == pool_applied_all(start, self.unloaded@, all.take(done as int)),
                        was_wf ==> self.wf(),
                    decreases rest.len(),
                {
                    let (coords, updated_at, mesh) = rest.remove(0);
                    proof {
                        assert(all.take(done as int + 1).drop_last() =~= all.take(done as int));
                        assert(all.take(done as int + 1).last() == all[done as int]);
                    }
                    self.apply(coords, updated_at, mesh);
                    done = done + 1;
                    proof {
                        assert(rest@ =~= all.skip(done as int));
                    }
                }
                proof {
                    assert(all.take(done as int) =~= all);
                }
                false
            },
            PoolEvent::Other => false,
        }
    }
}

/// A mesh's time only grows: applying vertices never leaves a chunk with a mesh older
/// than the one it had, and vertices that are not newer never replace a mesh.
pub proof fn lemma_pool_time_grows<M>(
    meshes: Map<u128, (M, u64)>,
    unloaded: Set<u128>,
    k: u128,
    updated_at: u64,
    mesh: Option<M>,
)
    requires
        meshes.contains_key(k),
    ensures
        pool_applied(meshes, unloaded, k, updated_at, mesh).contains_key(k) ==> pool_applied(
            meshes,
            unloaded,
            k,
            updated_at,
            mesh,
        )[k].1 >= meshes[k].1,
        mesh is Some && updated_at <= meshes[k].1 ==> pool_applied(
            meshes,
            unloaded,
            k,
            updated_at,
            mesh,
        ) == meshes,
        mesh is Some && updated_at > meshes[k].1 && !unloaded.contains(k) ==> pool_applied(
            meshes,
            unloaded,
            k,
            updated_at,
            mesh,
        )[k] == (mesh->0, updated_at),
{
}

/// Over any run of pool operations, a chunk marked unloaded holds no mesh: the invariant
/// holds of a new pool and every operation keeps it.
pub proof fn lemma_unloaded_never_meshed<M>(
    meshes: Map<u128, (M, u64)>,
    unloaded: Set<u128>,
    k: u128,
)
    requires
        pool_wf(meshes, unloaded),
        unloaded.contains(k),
    ensures
        !meshes.contains_key(k),
{
}

} // verus!
