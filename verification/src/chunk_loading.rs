use vstd::prelude::*;
use crate::position_map::Position;
use crate::world::WorldData;
use crate::interact::buffer_or_zero;

verus! {

broadcast use vstd::seq_lib::lemma_seq_contains_after_push;

/// The chunks kept active around the chunk `center` holding the camera:
/// offsets -4..4 along x, -2..2 along y and -4..4 along z, listed with x
/// slowest and z fastest.
pub open spec fn activation_area(center: Position) -> Seq<Position> {
    Seq::new(256, |n: int| (
        (center.0 + n / 32 - 4) as i64,
        (center.1 + (n / 8) % 4 - 2) as i64,
        (center.2 + n % 8 - 4) as i64,
    ))
}

/// Every chunk of the activation area around `center` has coordinates that
/// fit in `i64`.
pub open spec fn area_fits(center: Position) -> bool {
    &&& i64::MIN + 4 <= center.0 <= i64::MAX - 3
    &&& i64::MIN + 2 <= center.1 <= i64::MAX - 1
    &&& i64::MIN + 4 <= center.2 <= i64::MAX - 3
}

/// Whether every chunk of the activation area around `center` has
/// coordinates that fit in `i64`, as `area_fits` describes.
pub fn area_fits_exec(center: Position) -> (b: bool)
    ensures
        b == area_fits(center),
{
    i64::MIN + 4 <= center.0 && center.0 <= i64::MAX - 3
        && i64::MIN + 2 <= center.1 && center.1 <= i64::MAX - 1
        && i64::MIN + 4 <= center.2 && center.2 <= i64::MAX - 3
}

/// The render buffers of the chunks of `area` that have one, in the order
/// of `area`.
pub open spec fn loaded_buffers(index: Map<Position, i64>, area: Seq<Position>) -> Seq<usize>
    decreases area.len(),
{
    if area.len() == 0 {
        Seq::empty()
    } else {
        let rest = loaded_buffers(index, area.drop_last());
        if index.contains_key(area.last()) {
            rest.push(index[area.last()] as usize)
        } else {
            rest
        }
    }
}

/// The chunks of `area` that have no render buffer yet and are not waiting
/// already: where `skip_created` holds, chunks in `created` count as
/// waiting too.
pub open spec fn to_queue(index: Map<Position, i64>, created: Map<Position, ()>, skip_created: bool, area: Seq<Position>) -> Set<Position> {
    Set::new(|p: Position| area.contains(p) && !index.contains_key(p) && !(skip_created && created.contains_key(p)))
}

/// The chunks of `area` that have a render buffer, in the order of `area`.
pub open spec fn loaded_positions(index: Map<Position, i64>, area: Seq<Position>) -> Seq<Position>
    decreases area.len(),
{
    if area.len() == 0 {
        Seq::empty()
    } else {
        let rest = loaded_positions(index, area.drop_last());
        if index.contains_key(area.last()) { rest.push(area.last()) } else { rest }
    }
}

/// The activity flag of render buffer `i` after a refresh that replaced the
/// active list `old_list` by `new_list`.
pub open spec fn refreshed_flag(flags: Seq<bool>, old_list: Seq<usize>, new_list: Seq<usize>, i: int) -> bool {
    if new_list.contains(i as usize) {
        true
    } else if old_list.contains(i as usize) {
        false
    } else {
        flags[i]
    }
}

proof fn lemma_loaded_contains(index: Map<Position, i64>, area: Seq<Position>, p: Position)
    requires
        area.contains(p),
        index.contains_key(p),
    ensures
        loaded_buffers(index, area).contains(index[p] as usize),
        loaded_positions(index, area).contains(p),
    decreases area.len(),
{
    if area.last() == p {
        assert(loaded_buffers(index, area) == loaded_buffers(index, area.drop_last()).push(index[p] as usize));
        assert(loaded_buffers(index, area)[loaded_buffers(index, area).len() - 1] == index[p] as usize);
        assert(loaded_positions(index, area)[loaded_positions(index, area).len() - 1] == p);
    } else {
        let k = choose|k: int| 0 <= k < area.len() && area[k] == p;
        assert(area.drop_last()[k] == p);
        lemma_loaded_contains(index, area.drop_last(), p);
        let rest = loaded_buffers(index, area.drop_last());
        let j = choose|j: int| 0 <= j < rest.len() && rest[j] == index[p] as usize;
        if index.contains_key(area.last()) {
            assert(loaded_buffers(index, area)[j] == index[p] as usize);
        } else {
            assert(loaded_buffers(index, area)[j] == index[p] as usize);
        }
        let rest_p = loaded_positions(index, area.drop_last());
        let m = choose|m: int| 0 <= m < rest_p.len() && rest_p[m] == p;
        assert(loaded_positions(index, area)[m] == p);
    }
}

/// A refresh leaves no chunk of its area behind: each one that has a render
/// buffer has that buffer listed as active (and is among the activated
/// chunks), and each other one waits for generation, in the queue or (where
/// created chunks are skipped) among the created chunks.
pub proof fn lemma_refresh_covers_area(index: Map<Position, i64>, created: Map<Position, ()>, skip_created: bool,
    queue: Set<Position>, area: Seq<Position>, p: Position)
    requires
        area.contains(p),
    ensures
        index.contains_key(p) ==> loaded_buffers(index, area).contains(index[p] as usize)
            && loaded_positions(index, area).contains(p),
        !index.contains_key(p) ==> queue.union(to_queue(index, created, skip_created, area)).contains(p)
            || (skip_created && created.contains_key(p)),
{
    if index.contains_key(p) {
        lemma_loaded_contains(index, area, p);
    }
}

/// Switches off the buffers active so far, then switches on and lists the
/// render buffer of each chunk of `area` that has one, and queues each other
/// one for generation unless it waits already (in the queue, or among the
/// created chunks where `skip_created` holds). Returns the chunks whose
/// buffers were switched on.
fn activate_area(world_data: &mut WorldData, active: &mut Vec<bool>, area: &Vec<Position>, skip_created: bool) -> (activated: Vec<Position>)
    requires
        old(world_data).wf(),
        forall|j: int| 0 <= j < old(world_data).active_chunks@.len()
            ==> #[trigger] old(world_data).active_chunks@[j] < old(active)@.len(),
        old(world_data).chunk_buffer_coordinates@.len() <= old(active)@.len(),
    ensures
        final(world_data).wf(),
        final(world_data).active_chunks@ == loaded_buffers(old(world_data).chunk_buffer_index@, area@),
        activated@ == loaded_positions(old(world_data).chunk_buffer_index@, area@),
        final(world_data).chunk_queue@.dom() == old(world_data).chunk_queue@.dom().union(
            to_queue(old(world_data).chunk_buffer_index@, old(world_data).created_chunk_queue@, skip_created, area@)),
        final(active)@.len() == old(active)@.len(),
        forall|i: int| 0 <= i < old(active)@.len() ==> #[trigger] final(active)@[i] == refreshed_flag(
            old(active)@, old(world_data).active_chunks@, final(world_data).active_chunks@, i),
        final(world_data).chunk_buffer_index == old(world_data).chunk_buffer_index,
        final(world_data).chunk_buffer_coordinates == old(world_data).chunk_buffer_coordinates,
        final(world_data).created_chunk_queue == old(world_data).created_chunk_queue,
        final(world_data).chunks == old(world_data).chunks,
        final(world_data).blocks == old(world_data).blocks,
        final(world_data).block_index == old(world_data).block_index,
        final(world_data).chunk_update_queue == old(world_data).chunk_update_queue,
        final(world_data).updated_chunks == old(world_data).updated_chunks,
{
    let ghost w0 = *world_data;
    let ghost flags0 = active@;
    assert(flags0.len() == active.len());
    let mut old_list: Vec<usize> = Vec::new();
    std::mem::swap(&mut old_list, &mut world_data.active_chunks);
    let mut j: usize = 0;
    while j < old_list.len()
        invariant
            old_list@ == w0.active_chunks@,
            j <= old_list@.len(),
            active@.len() == flags0.len(),
            flags0.len() <= usize::MAX,
            forall|m: int| 0 <= m < old_list@.len() ==> #[trigger] old_list@[m] < flags0.len(),
            forall|i: int| 0 <= i < flags0.len() ==> #[trigger] active@[i]
                == (if old_list@.take(j as int).contains(i as usize) { false } else { flags0[i] }),
        decreases old_list@.len() - j,
    {
        let a = old_list[j];
        let ghost prev = active@;
        active.set(a, false);
        proof {
            let t = old_list@.take(j as int);
            assert(old_list@.take(j as int + 1) =~= t.push(a));
            assert forall|i: int| 0 <= i < flags0.len() implies #[trigger] active@[i]
                == (if t.push(a).contains(i as usize) { false } else { flags0[i] }) by {
                assert(t.push(a).contains(i as usize) <==> (a == i as usize || t.contains(i as usize)));
                assert(prev[i] == (if t.contains(i as usize) { false } else { flags0[i] }));
            }
        }
        j = j + 1;
    }
    assert(old_list@.take(j as int) =~= old_list@);
    let ghost flags1 = active@;
    let ghost index = world_data.chunk_buffer_index@;
    let ghost created = world_data.created_chunk_queue@;
    let ghost q0 = world_data.chunk_queue@.dom();
    let mut activated: Vec<Position> = Vec::new();
    assert(world_data.active_chunks@ =~= loaded_buffers(index, area@.take(0)));
    assert(activated@ =~= loaded_positions(index, area@.take(0)));
    assert(q0.union(to_queue(index, created, skip_created, area@.take(0))) =~= q0);
    let mut n: usize = 0;
    while n < area.len()
        invariant
            n <= area@.len(),
            world_data.wf(),
            world_data.chunk_buffer_index == w0.chunk_buffer_index,
            world_data.chunk_buffer_coordinates == w0.chunk_buffer_coordinates,
            world_data.created_chunk_queue == w0.created_chunk_queue,
            world_data.chunks == w0.chunks,
            world_data.blocks == w0.blocks,
            world_data.block_index == w0.block_index,
            world_data.chunk_update_queue == w0.chunk_update_queue,
            world_data.updated_chunks == w0.updated_chunks,
            index == w0.chunk_buffer_index@,
            created == w0.created_chunk_queue@,
            w0.chunk_buffer_coordinates@.len() <= flags1.len(),
            world_data.active_chunks@ == loaded_buffers(index, area@.take(n as int)),
            activated@ == loaded_positions(index, area@.take(n as int)),
            world_data.chunk_queue@.dom() == q0.union(to_queue(index, created, skip_created, area@.take(n as int))),
            active@.len() == flags1.len(),
            flags1.len() <= usize::MAX,
            forall|i: int| 0 <= i < flags1.len() ==> #[trigger] active@[i]
                == (if world_data.active_chunks@.contains(i as usize) { true } else { flags1[i] }),
        decreases area@.len() - n,
    {
        let p: Position = area[n];
        let ghost before = world_data.active_chunks@;
        let ghost prev = active@;
        match world_data.chunk_buffer_index.get(&p) {
            Some(b) => {
                let b = *b as usize;
                active.set(b, true);
                world_data.active_chunks.push(b);
                activated.push(p);
            },
            None => {
                if !world_data.chunk_queue.contains_key(&p)
                    && !(skip_created && world_data.created_chunk_queue.contains_key(&p)) {
                    world_data.chunk_queue.insert(p, ());
                }
            },
        }
        proof {
            let t = area@.take(n as int + 1);
            assert(t.drop_last() =~= area@.take(n as int));
            assert(t =~= area@.take(n as int).push(p));
            assert(world_data.active_chunks@ == loaded_buffers(index, t));
            assert(activated@ == loaded_positions(index, t));
            assert forall|i: int| 0 <= i < flags1.len() implies #[trigger] active@[i]
                == (if world_data.active_chunks@.contains(i as usize) { true } else { flags1[i] }) by {
                assert(prev[i] == (if before.contains(i as usize) { true } else { flags1[i] }));
                if index.contains_key(p) {
                    let b = index[p] as usize;
                    assert(world_data.active_chunks@ == before.push(b));
                    assert(before.push(b).contains(i as usize) <==> (b == i as usize || before.contains(i as usize)));
                } else {
                    assert(world_data.active_chunks@ == before);
                }
            }
            assert(world_data.chunk_queue@.dom() =~= q0.union(to_queue(index, created, skip_created, t)));
        }
        n = n + 1;
    }
    assert(area@.take(n as int) =~= area@);
    activated
}

/// The chunks of the activation area around `center`, as
/// `activation_area` lists them.
fn activation_area_list(center: Position) -> (area: Vec<Position>)
    requires
        area_fits(center),
    ensures
        area@ == activation_area(center),
{
    let mut area: Vec<Position> = Vec::new();
    let mut n: usize = 0;
    while n < 256
        invariant
            n <= 256,
            area_fits(center),
            area@ == activation_area(center).take(n as int),
        decreases 256 - n,
    {
        let p: Position = (
            center.0 - 4 + (n / 32) as i64,
            center.1 - 2 + ((n / 8) % 4) as i64,
            center.2 - 4 + (n % 8) as i64,
        );
        assert(p == activation_area(center)[n as int]);
        assert(activation_area(center).take(n as int + 1) =~= activation_area(center).take(n as int).push(p));
        area.push(p);
        n = n + 1;
    }
    assert(activation_area(center).take(256) =~= activation_area(center));
    area
}

/// Rebuilds the list of active render buffers around the chunk `center`:
/// the buffers active so far are switched off in `active`, then each chunk
/// of the activation area that has a render buffer has it switched on and
/// listed, and each one without is queued for generation.
pub fn refresh_active_chunks(world_data: &mut WorldData, active: &mut Vec<bool>, center: Position)
    requires
        old(world_data).wf(),
        area_fits(center),
        forall|j: int| 0 <= j < old(world_data).active_chunks@.len()
            ==> #[trigger] old(world_data).active_chunks@[j] < old(active)@.len(),
        old(world_data).chunk_buffer_coordinates@.len() <= old(active)@.len(),
    ensures
        final(world_data).wf(),
        final(world_data).active_chunks@
            == loaded_buffers(old(world_data).chunk_buffer_index@, activation_area(center)),
        final(world_data).chunk_queue@.dom() == old(world_data).chunk_queue@.dom().union(
            to_queue(old(world_data).chunk_buffer_index@, old(world_data).created_chunk_queue@, false, activation_area(center))),
        final(active)@.len() == old(active)@.len(),
        forall|i: int| 0 <= i < old(active)@.len() ==> #[trigger] final(active)@[i] == refreshed_flag(
            old(active)@, old(world_data).active_chunks@, final(world_data).active_chunks@, i),
        final(world_data).chunk_buffer_index == old(world_data).chunk_buffer_index,
        final(world_data).chunk_buffer_coordinates == old(world_data).chunk_buffer_coordinates,
        final(world_data).chunks == old(world_data).chunks,
        final(world_data).blocks == old(world_data).blocks,
        final(world_data).block_index == old(world_data).block_index,
        final(world_data).chunk_update_queue == old(world_data).chunk_update_queue,
        final(world_data).updated_chunks == old(world_data).updated_chunks,
{
    let area = activation_area_list(center);
    let _activated = activate_area(world_data, active, &area, false);
}

/// The `n`-th offset that the walk over the shell of radius `r` visits: x
/// from -r to r, then y from -2 to 1, then z from -r to r.
pub open spec fn shell_candidate(r: int, n: int) -> (int, int, int) {
    let w = 2 * r + 1;
    (n / (4 * w) - r, (n / w) % 4 - 2, n % w - r)
}

/// The number of offsets the walk over the shell of radius `r` visits.
pub open spec fn shell_size(r: int) -> int {
    (2 * r + 1) * 4 * (2 * r + 1)
}

/// Whether offset `o` is kept on the shell of radius `r`: it lies on the
/// square ring of radius `r` in x and z, and within distance 4 of the
/// centre.
pub open spec fn in_shell(r: int, o: (int, int, int)) -> bool {
    &&& (o.2 == r || o.2 == -r || o.0 == r || o.0 == -r)
    &&& o.0 * o.0 + o.1 * o.1 + o.2 * o.2 <= 16
}

/// The offsets kept among the first `n` visited on the shell of radius `r`.
pub open spec fn shell_list(r: int, n: int) -> Seq<(int, int, int)>
    decreases n,
{
    if n <= 0 {
        Seq::empty()
    } else {
        let rest = shell_list(r, n - 1);
        if in_shell(r, shell_candidate(r, n - 1)) { rest.push(shell_candidate(r, n - 1)) } else { rest }
    }
}

/// The offsets of the first `k` shells, from radius 3 inwards.
pub open spec fn shells_upto(k: int) -> Seq<(int, int, int)>
    decreases k,
{
    if k <= 0 {
        Seq::empty()
    } else {
        shells_upto(k - 1) + shell_list(4 - k, shell_size(4 - k))
    }
}

/// The chunk at offset `o` from `center`.
pub open spec fn offset_position(center: Position, o: (int, int, int)) -> Position {
    ((center.0 + o.0) as i64, (center.1 + o.1) as i64, (center.2 + o.2) as i64)
}

/// The chunks kept near the chunk `center`, shell by shell from the outer
/// (radius 3) to the centre: those on each square ring in x and z, four
/// layers high (-2..2 in y), no farther than 4 from the centre.
pub open spec fn nearby_area(center: Position) -> Seq<Position> {
    Seq::new(shells_upto(4).len(), |k: int| offset_position(center, shells_upto(4)[k]))
}

/// The chunks of `nearby_area(center)`.
fn nearby_area_list(center: Position) -> (area: Vec<Position>)
    requires
        area_fits(center),
    ensures
        area@ == nearby_area(center),
{
    let mut area: Vec<Position> = Vec::new();
    let ghost mut offs: Seq<(int, int, int)> = Seq::empty();
    let mut k: usize = 0;
    while k < 4
        invariant
            k <= 4,
            area_fits(center),
            offs == shells_upto(k as int),
            area@ == Seq::new(offs.len(), |j: int| offset_position(center, offs[j])),
        decreases 4 - k,
    {
        let r: u64 = 3 - k as u64;
        let w: u64 = 2 * r + 1;
        assert(w * 4 * w <= 196) by (nonlinear_arith)
            requires w <= 7;
        let size: u64 = w * 4 * w;
        assert(size == shell_size(r as int)) by (nonlinear_arith)
            requires w == 2 * r + 1, size == w * 4 * w;
        let ghost start = offs;
        let mut n: u64 = 0;
        while n < size
            invariant
                r <= 3,
                w == 2 * r + 1,
                size == shell_size(r as int),
                n <= size,
                area_fits(center),
                offs == start + shell_list(r as int, n as int),
                area@ == Seq::new(offs.len(), |j: int| offset_position(center, offs[j])),
            decreases size - n,
        {
            assert((n as int) / (4 * (w as int)) < w as int) by (nonlinear_arith)
                requires w > 0, n < w * 4 * w;
            let x: i64 = (n / (4 * w)) as i64 - r as i64;
            let y: i64 = ((n / w) % 4) as i64 - 2;
            let z: i64 = (n % w) as i64 - r as i64;
            assert((n % w) < w);
            assert(-3 <= x <= 3 && -2 <= y <= 1 && -3 <= z <= 3);
            assert(0 <= x * x <= 9 && 0 <= y * y <= 4 && 0 <= z * z <= 9) by (nonlinear_arith)
                requires -3 <= x <= 3, -2 <= y <= 1, -3 <= z <= 3;
            assert((x as int, y as int, z as int) == shell_candidate(r as int, n as int));
            if (z == r as i64 || z == -(r as i64) || x == r as i64 || x == -(r as i64)) && x * x + y * y + z * z <= 16 {
                let p: Position = (center.0 + x, center.1 + y, center.2 + z);
                proof {
                    offs = offs.push((x as int, y as int, z as int));
                }
                area.push(p);
                assert(area@ =~= Seq::new(offs.len(), |j: int| offset_position(center, offs[j])));
            }
            proof {
                assert(start + shell_list(r as int, n as int + 1) =~= offs);
            }
            n = n + 1;
        }
        assert(shells_upto(k as int + 1) == shells_upto(k as int) + shell_list(3 - k as int, shell_size(3 - k as int)));
        k = k + 1;
    }
    area
}

/// Rebuilds the list of active render buffers from the chunks near the
/// chunk `center` (see `nearby_area`): the buffers active so far are
/// switched off in `active`, then each nearby chunk that has a render
/// buffer has it switched on and listed, and each one without is queued
/// for generation unless it is queued or created already. Returns the
/// nearby chunks that have render buffers.
pub fn refresh_nearby_chunks(world_data: &mut WorldData, active: &mut Vec<bool>, center: Position) -> (activated: Vec<Position>)
    requires
        old(world_data).wf(),
        area_fits(center),
        forall|j: int| 0 <= j < old(world_data).active_chunks@.len()
            ==> #[trigger] old(world_data).active_chunks@[j] < old(active)@.len(),
        old(world_data).chunk_buffer_coordinates@.len() <= old(active)@.len(),
    ensures
        final(world_data).wf(),
        final(world_data).active_chunks@
            == loaded_buffers(old(world_data).chunk_buffer_index@, nearby_area(center)),
        activated@ == loaded_positions(old(world_data).chunk_buffer_index@, nearby_area(center)),
        final(world_data).chunk_queue@.dom() == old(world_data).chunk_queue@.dom().union(
            to_queue(old(world_data).chunk_buffer_index@, old(world_data).created_chunk_queue@, true, nearby_area(center))),
        final(active)@.len() == old(active)@.len(),
        forall|i: int| 0 <= i < old(active)@.len() ==> #[trigger] final(active)@[i] == refreshed_flag(
            old(active)@, old(world_data).active_chunks@, final(world_data).active_chunks@, i),
        final(world_data).chunk_buffer_index == old(world_data).chunk_buffer_index,
        final(world_data).chunk_buffer_coordinates == old(world_data).chunk_buffer_coordinates,
        final(world_data).created_chunk_queue == old(world_data).created_chunk_queue,
        final(world_data).chunks == old(world_data).chunks,
        final(world_data).blocks == old(world_data).blocks,
        final(world_data).block_index == old(world_data).block_index,
        final(world_data).chunk_update_queue == old(world_data).chunk_update_queue,
        final(world_data).updated_chunks == old(world_data).updated_chunks,
{
    let area = nearby_area_list(center);
    activate_area(world_data, active, &area, true)
}

/// Takes the next chunk waiting for generation off the queue.
pub fn next_queued_chunk(world_data: &mut WorldData) -> (r: Option<Position>)
    requires
        old(world_data).wf(),
    ensures
        final(world_data).wf(),
        match r {
            Some(p) => {
                &&& old(world_data).chunk_queue@.contains_key(p)
                &&& p == old(world_data).chunk_queue.key_list()[0]
                &&& final(world_data).chunk_queue@ == old(world_data).chunk_queue@.remove(p)
            },
            None => {
                &&& old(world_data).chunk_queue@ == Map::<Position, ()>::empty()
                &&& final(world_data).chunk_queue@ == old(world_data).chunk_queue@
            },
        },
        final(world_data).chunk_buffer_index == old(world_data).chunk_buffer_index,
        final(world_data).chunk_buffer_coordinates == old(world_data).chunk_buffer_coordinates,
        final(world_data).chunks == old(world_data).chunks,
        final(world_data).blocks == old(world_data).blocks,
        final(world_data).block_index == old(world_data).block_index,
        final(world_data).active_chunks == old(world_data).active_chunks,
        final(world_data).chunk_update_queue == old(world_data).chunk_update_queue,
{
    match world_data.chunk_queue.pop_first() {
        Some((p, _unit)) => Some(p),
        None => None,
    }
}

/// Gives the created chunk at `c` the next render buffer and lists that
/// buffer as active, updated and due for re-rendering. Returns the buffer.
pub fn register_created_chunk(world_data: &mut WorldData, c: Position) -> (n: usize)
    requires
        old(world_data).wf(),
        old(world_data).chunk_buffer_coordinates@.len() < i64::MAX,
    ensures
        final(world_data).wf(),
        n == old(world_data).chunk_buffer_coordinates@.len(),
        final(world_data).chunk_buffer_index@ == old(world_data).chunk_buffer_index@.insert(c, n as i64),
        final(world_data).chunk_buffer_coordinates@ == old(world_data).chunk_buffer_coordinates@.push(c),
        final(world_data).active_chunks@ == old(world_data).active_chunks@.push(n),
        final(world_data).updated_chunks@ == old(world_data).updated_chunks@.push(n),
        final(world_data).chunk_update_queue@ == old(world_data).chunk_update_queue@.push(n),
        final(world_data).chunks == old(world_data).chunks,
        final(world_data).chunk_queue == old(world_data).chunk_queue,
        final(world_data).blocks == old(world_data).blocks,
        final(world_data).block_index == old(world_data).block_index,
{
    let n = world_data.chunk_buffer_coordinates.len();
    world_data.active_chunks.push(n);
    world_data.updated_chunks.push(n);
    world_data.chunk_update_queue.push(n);
    world_data.add_object(c);
    n
}

/// Stores a freshly generated chunk at `c`, gives it the next render
/// buffer, and lists that buffer as active, updated and due for
/// re-rendering. Returns the buffer.
pub fn store_generated_chunk(world_data: &mut WorldData, c: Position, chunk_data: Vec<i8>) -> (n: usize)
    requires
        old(world_data).wf(),
        old(world_data).chunk_buffer_coordinates@.len() < i64::MAX,
    ensures
        final(world_data).wf(),
        n == old(world_data).chunk_buffer_coordinates@.len(),
        final(world_data).chunks@ == old(world_data).chunks@.insert(c, chunk_data),
        final(world_data).chunk_buffer_index@ == old(world_data).chunk_buffer_index@.insert(c, n as i64),
        final(world_data).chunk_buffer_coordinates@ == old(world_data).chunk_buffer_coordinates@.push(c),
        final(world_data).active_chunks@ == old(world_data).active_chunks@.push(n),
        final(world_data).updated_chunks@ == old(world_data).updated_chunks@.push(n),
        final(world_data).chunk_update_queue@ == old(world_data).chunk_update_queue@.push(n),
        final(world_data).chunk_queue == old(world_data).chunk_queue,
        final(world_data).blocks == old(world_data).blocks,
        final(world_data).block_index == old(world_data).block_index,
{
    world_data.set_chunk(c.0, c.1, c.2, chunk_data);
    register_created_chunk(world_data, c)
}

/// Stores the chunk generated at `c` and records it among the created
/// chunks, which wait for a render buffer.
pub fn finish_generated_chunk(world_data: &mut WorldData, c: Position, chunk_data: Vec<i8>)
    requires
        old(world_data).wf(),
    ensures
        final(world_data).wf(),
        final(world_data).chunks@ == old(world_data).chunks@.insert(c, chunk_data),
        final(world_data).created_chunk_queue@ == old(world_data).created_chunk_queue@.insert(c, ()),
        final(world_data).chunk_queue == old(world_data).chunk_queue,
        final(world_data).chunk_buffer_index == old(world_data).chunk_buffer_index,
        final(world_data).chunk_buffer_coordinates == old(world_data).chunk_buffer_coordinates,
        final(world_data).active_chunks == old(world_data).active_chunks,
        final(world_data).chunk_update_queue == old(world_data).chunk_update_queue,
        final(world_data).blocks == old(world_data).blocks,
        final(world_data).block_index == old(world_data).block_index,
{
    world_data.set_chunk(c.0, c.1, c.2, chunk_data);
    world_data.created_chunk_queue.insert(c, ());
}

/// When no chunk waits for generation, takes the first render buffer due
/// for re-rendering off its queue and returns the chunk it shows with its
/// render buffer (0 where the chunk has none); otherwise does nothing.
pub fn next_rerender(world_data: &mut WorldData) -> (r: Option<(Position, usize)>)
    requires
        old(world_data).wf(),
        old(world_data).chunk_queue@.len() == 0 && old(world_data).chunk_update_queue@.len() > 0
            ==> old(world_data).chunk_update_queue@[0] < old(world_data).chunk_buffer_coordinates@.len(),
    ensures
        final(world_data).wf(),
        if old(world_data).chunk_queue@.len() == 0 && old(world_data).chunk_update_queue@.len() > 0 {
            let p = old(world_data).chunk_buffer_coordinates@[old(world_data).chunk_update_queue@[0] as int];
            &&& r == Some((p, buffer_or_zero(old(world_data).chunk_buffer_index@, p)))
            &&& final(world_data).chunk_update_queue@ == old(world_data).chunk_update_queue@.drop_first()
        } else {
            &&& r is None
            &&& final(world_data).chunk_update_queue == old(world_data).chunk_update_queue
        },
        final(world_data).chunk_queue == old(world_data).chunk_queue,
        final(world_data).chunks == old(world_data).chunks,
        final(world_data).chunk_buffer_index == old(world_data).chunk_buffer_index,
        final(world_data).chunk_buffer_coordinates == old(world_data).chunk_buffer_coordinates,
        final(world_data).active_chunks == old(world_data).active_chunks,
        final(world_data).blocks == old(world_data).blocks,
        final(world_data).block_index == old(world_data).block_index,
{
    if world_data.chunk_queue.len() != 0 || world_data.chunk_update_queue.len() == 0 {
        return None;
    }
    let b = world_data.chunk_update_queue.remove(0);
    let p = world_data.chunk_buffer_coordinates[b];
    let buffer: usize = match world_data.chunk_buffer_index.get(&p) {
        Some(v) => *v as usize,
        None => 0,
    };
    Some((p, buffer))
}

/// What a frame does besides generating and re-rendering: every 30th frame
/// refreshes the chunks near the camera; frames 20 and 25 of every 30
/// register created chunks.
pub struct FramePlan {
    pub refresh: bool,
    pub register: bool,
}

/// The side tasks of frame number `frame`.
pub fn frame_plan(frame: u64) -> (r: FramePlan)
    ensures
        r.refresh == (frame % 30 == 0),
        r.register == (frame % 30 == 20 || frame % 30 == 25),
{
    let phase = frame % 30;
    FramePlan { refresh: phase == 0, register: phase == 20 || phase == 25 }
}

/// The created chunks a registering frame takes, as indices into the list of
/// created chunks at the moment each is taken out: for `i` from `i` to 2,
/// where more than `i + 1` of `count` remain, the one at index `i` (which
/// shifts the later ones down).
pub open spec fn registration_order(count: int, i: int) -> Seq<usize>
    decreases 3 - i,
{
    if i >= 3 || i < 0 {
        Seq::empty()
    } else if count > i + 1 {
        seq![i as usize] + registration_order(count - 1, i + 1)
    } else {
        registration_order(count, i + 1)
    }
}

/// The indices at which a registering frame takes created chunks out of a
/// list of `count`, in order, as `registration_order` describes.
pub fn registration_picks(count: usize) -> (r: Vec<usize>)
    ensures
        r@ == registration_order(count as int, 0),
{
    let mut r: Vec<usize> = Vec::new();
    let mut remaining: usize = count;
    let mut i: usize = 0;
    while i < 3
        invariant
            i <= 3,
            remaining <= count,
            r@ + registration_order(remaining as int, i as int) == registration_order(count as int, 0),
        decreases 3 - i,
    {
        if remaining > i + 1 {
            assert(r@ + registration_order(remaining as int, i as int)
                =~= r@.push(i) + registration_order(remaining as int - 1, i as int + 1));
            r.push(i);
            remaining = remaining - 1;
        }
        i = i + 1;
    }
    assert(r@ + registration_order(remaining as int, 3) =~= r@);
    r
}

} // verus!
