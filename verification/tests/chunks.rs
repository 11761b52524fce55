use crustcrab::chunk_pool::{ChunkMeshPool, PoolEvent};
use crustcrab::memory_state::{MemoryState, COPY_DST};
use crustcrab::sky::{Sky, SkyEvent};
use crustcrab::stopwatch::Stopwatch;
use crustcrab::world::{chunk_key, ChunkOutput, ChunkResult, GroupId, World};

fn out(coords: (i32, i32, i32), t: u64) -> ChunkResult<&'static str> {
    Ok(ChunkOutput { coords, data: "v", updated_at: t })
}

#[test]
fn chunk_key_packs_coordinates() {
    assert_eq!(chunk_key((0, 0, 0)), 0);
    assert_eq!(chunk_key((1, 2, 3)), (1u128 << 64) | (2 << 32) | 3);
    assert_eq!(chunk_key((-1, 0, 0)), 0xffff_ffffu128 << 64);
    assert_ne!(chunk_key((0, 1, 0)), chunk_key((0, 0, 1)));
}

#[test]
fn ungrouped_output_is_released_at_once() {
    let mut w: World<u32, &str> = World::new();
    let released = w.process_output(out((1, 2, 3), 5), None);
    assert_eq!(released.len(), 1);
    assert!(w.groups.is_empty());
}

#[test]
fn group_released_when_complete() {
    let mut w: World<u32, &str> = World::new();
    let g = GroupId { id: 7, size: 3 };
    assert!(w.process_output(out((0, 0, 0), 1), Some(g)).is_empty());
    assert!(w.process_output(Err((5, 5, 5)), Some(g)).is_empty());
    assert_eq!(w.groups.len(), 1);
    let released = w.process_output(out((1, 0, 0), 2), Some(g));
    assert_eq!(released.len(), 3);
    assert!(matches!(released[0], Ok(ChunkOutput { coords: (0, 0, 0), .. })));
    assert!(matches!(released[1], Err((5, 5, 5))));
    assert!(matches!(released[2], Ok(ChunkOutput { coords: (1, 0, 0), .. })));
    assert!(w.groups.is_empty());
}

#[test]
fn group_of_one_released_at_once() {
    let mut w: World<u32, &str> = World::new();
    let released = w.process_output(out((0, 0, 0), 1), Some(GroupId { id: 1, size: 1 }));
    assert_eq!(released.len(), 1);
    assert!(w.groups.is_empty());
}

#[test]
fn apply_output_keeps_first_time_and_skips_old_data() {
    let mut w: World<u32, &str> = World::new();
    let c = (4, -1, 2);
    assert!(w.needs_mesh(c, 10));
    w.apply_output(c, 10, Some(1));
    assert_eq!(w.mesh(c), Some(&1));
    assert!(!w.needs_mesh(c, 10));
    w.apply_output(c, 10, Some(2));
    assert_eq!(w.mesh(c), Some(&1));
    w.apply_output(c, 11, Some(3));
    assert_eq!(w.mesh(c), Some(&3));
    // the mesh keeps the time it was first built with
    assert!(w.needs_mesh(c, 11));
    w.apply_output(c, 12, None);
    assert_eq!(w.mesh(c), None);
    w.apply_output(c, 13, None);
    assert!(!w.has_mesh(c));
}

#[test]
fn unloaded_chunk_gets_no_mesh() {
    let mut w: World<u32, &str> = World::new();
    let c = (0, 0, 0);
    w.apply_output(c, 1, Some(1));
    let released = w.chunk_unloaded(c, None);
    assert_eq!(released.len(), 1);
    assert!(matches!(released[0], Err((0, 0, 0))));
    w.apply_removal(c);
    assert!(!w.needs_mesh(c, 5));
    w.apply_output(c, 5, Some(2));
    assert_eq!(w.mesh(c), None);
    w.chunk_loaded(c);
    assert!(w.needs_mesh(c, 5));
    w.apply_output(c, 5, Some(2));
    assert_eq!(w.mesh(c), Some(&2));
}

#[test]
fn chunk_pool_updates_time() {
    let mut p: ChunkMeshPool<u32> = ChunkMeshPool::new();
    let c = (1, 1, 1);
    p.apply(c, 5, Some(1));
    assert!(!p.needs_mesh(c, 5));
    p.apply(c, 4, Some(2));
    assert_eq!(p.meshes.get(&chunk_key(c)), Some(&(1, 5)));
    p.apply(c, 6, Some(3));
    assert_eq!(p.meshes.get(&chunk_key(c)), Some(&(3, 6)));
    p.apply(c, 2, None);
    assert!(p.meshes.is_empty());
    p.apply(c, 7, Some(4));
    p.chunk_unloaded(c);
    assert!(p.meshes.is_empty());
    p.apply(c, 8, Some(5));
    assert!(p.meshes.is_empty());
    p.chunk_loaded(c);
    assert!(p.needs_mesh(c, 8));
}

#[test]
fn memory_state_queries() {
    let data = [1u32, 2, 3];
    let imm: MemoryState<[u32], usize> = MemoryState::Immutable(&data);
    assert_eq!(imm.usage(32), 32);
    assert_eq!(imm.data(), Ok(&data[..]));
    assert!(!imm.is_empty());
    let uninit: MemoryState<[u32], usize> = MemoryState::Uninit(0);
    assert_eq!(uninit.usage(32), 32 | COPY_DST);
    assert_eq!(uninit.data(), Err(0));
    assert!(uninit.is_empty());
    assert!(MemoryState::<[u32], usize>::Immutable(&[]).is_empty());
    let value = 5u64;
    assert_eq!(MemoryState::Immutable(&value).value(), Some(&5));
    assert_eq!(MemoryState::<u64>::uninit().value(), None);
    let copy = uninit;
    assert!(copy.clone().is_empty());
}

#[test]
fn stopwatch_measures_on_redraw_only() {
    let mut s = Stopwatch::start();
    assert_eq!(s.dt, std::time::Duration::ZERO);
    assert_eq!(s.frame_nanos(), 0);
    s.handle(false);
    assert_eq!(s.dt, std::time::Duration::ZERO);
    let begin = std::time::Instant::now();
    while begin.elapsed() < std::time::Duration::from_millis(2) {}
    s.handle(true);
    assert!(s.dt >= std::time::Duration::from_millis(2));
    assert_eq!(s.frame_nanos(), s.dt.as_nanos());
}

#[test]
fn stopwatch_redraw_at_given_readings() {
    let t0 = std::time::Instant::now();
    let mut s = Stopwatch::start_at(t0);
    let t1 = t0 + std::time::Duration::from_millis(16);
    s.redraw_at(t1);
    assert_eq!(s.dt, std::time::Duration::from_millis(16));
    let t2 = t1 + std::time::Duration::from_millis(20);
    s.redraw_at(t2);
    assert_eq!(s.frame_nanos(), 20_000_000);
}

#[test]
fn groups_interleave_and_release_in_arrival_order() {
    let mut w: World<u32, &str> = World::new();
    let a = GroupId { id: 1, size: 2 };
    let b = GroupId { id: 2, size: 2 };
    assert!(w.process_output(out((1, 0, 0), 1), Some(a)).is_empty());
    assert!(w.process_output(out((2, 0, 0), 1), Some(b)).is_empty());
    assert_eq!(w.groups.len(), 2);
    let released = w.process_output(out((3, 0, 0), 1), Some(b));
    assert_eq!(released.len(), 2);
    assert!(matches!(released[0], Ok(ChunkOutput { coords: (2, 0, 0), .. })));
    assert!(matches!(released[1], Ok(ChunkOutput { coords: (3, 0, 0), .. })));
    assert_eq!(w.groups.len(), 1);
    let released = w.process_output(out((4, 0, 0), 1), Some(a));
    assert!(matches!(released[0], Ok(ChunkOutput { coords: (1, 0, 0), .. })));
    assert!(matches!(released[1], Ok(ChunkOutput { coords: (4, 0, 0), .. })));
    assert!(w.groups.is_empty());
}

#[test]
fn chunk_pool_keeps_unloaded_chunks_meshless() {
    let mut p: ChunkMeshPool<u32> = ChunkMeshPool::new();
    let c = (2, -3, 4);
    p.apply(c, 1, Some(1));
    p.chunk_unloaded(c);
    assert!(!p.needs_mesh(c, 10));
    p.apply(c, 10, Some(2));
    p.apply(c, 11, None);
    assert!(p.meshes.get(&chunk_key(c)).is_none());
    assert!(p.unloaded.contains(&chunk_key(c)));
    p.chunk_loaded(c);
    assert!(!p.unloaded.contains(&chunk_key(c)));
    p.apply(c, 12, Some(3));
    assert_eq!(p.meshes.get(&chunk_key(c)), Some(&(3, 12)));
}

#[test]
fn sky_uploads_latest_time_once() {
    let mut sky: Sky<u32> = Sky::new(100);
    assert_eq!(sky.redraw(), Some(100));
    assert_eq!(sky.redraw(), None);
    sky.time_updated(200);
    sky.time_updated(300);
    assert_eq!(sky.redraw(), Some(300));
    assert_eq!(sky.redraw(), None);
}

#[test]
fn chunk_pool_handles_events() {
    let mut p: ChunkMeshPool<u32> = ChunkMeshPool::new();
    let c = (0, 1, 2);
    assert!(p.handle(PoolEvent::ChunkLoaded(c)));
    assert!(p.handle(PoolEvent::ChunkUpdated(c)));
    assert!(!p.handle(PoolEvent::RedrawRequested(vec![(c, 5, Some(1)), (c, 4, Some(2))])));
    assert_eq!(p.meshes.get(&chunk_key(c)), Some(&(1, 5)));
    p.handle(PoolEvent::RedrawRequested(vec![(c, 6, Some(3)), (c, 7, None)]));
    assert!(p.meshes.is_empty());
    assert!(!p.handle(PoolEvent::ChunkUnloaded(c)));
    p.handle(PoolEvent::RedrawRequested(vec![(c, 9, Some(4))]));
    assert!(p.meshes.is_empty());
    assert!(!p.handle(PoolEvent::Other));
    p.handle(PoolEvent::ChunkLoaded(c));
    p.handle(PoolEvent::RedrawRequested(vec![(c, 9, Some(4))]));
    assert_eq!(p.meshes.get(&chunk_key(c)), Some(&(4, 9)));
}

#[test]
fn sky_handles_events() {
    let mut sky: Sky<u32> = Sky::new(0);
    assert_eq!(sky.handle(SkyEvent::TimeUpdated(10)), None);
    assert_eq!(sky.handle(SkyEvent::TimeUpdated(20)), None);
    assert_eq!(sky.handle(SkyEvent::Other), None);
    assert_eq!(sky.handle(SkyEvent::RedrawRequested), Some(20));
    assert_eq!(sky.handle(SkyEvent::RedrawRequested), None);
}

#[test]
fn stopwatch_frame_times_add_up() {
    let t0 = std::time::Instant::now();
    let mut s = Stopwatch::start_at(t0);
    let mut total = 0u128;
    let mut t = t0;
    for ms in [16u64, 0, 33, 7] {
        t += std::time::Duration::from_millis(ms);
        s.redraw_at(t);
        total += s.frame_nanos();
    }
    assert_eq!(total, (t - t0).as_nanos());
}
