use vstd::prelude::*;
use crate::position_map::{Position, PositionMap};

verus! {

/// Whether `v` is a coordinate inside a chunk whose edge is `side` cells long.
pub open spec fn inside(side: int, v: int) -> bool {
    0 <= v < side
}

pub open spec fn inside3(side: int, x: int, y: int, z: int) -> bool {
    inside(side, x) && inside(side, y) && inside(side, z)
}

/// The number of cells of a chunk whose edge is `side` cells long.
pub open spec fn volume(side: int) -> int {
    side * side * side
}

/// Where cell (x, y, z) is stored in a chunk's block list: x-major, then y, then z.
pub open spec fn cell(side: int, x: int, y: int, z: int) -> int {
    x * side * side + y * side + z
}

/// A coordinate just outside one face of the chunk at `c` (the other two
/// coordinates inside) names the chunk across that face and the cell on its
/// opposite face; any other outside coordinate names nothing.
pub open spec fn face_neighbour(side: int, x: int, y: int, z: int, c: Position) -> Option<(Position, int)> {
    if x < 0 && inside(side, y) && inside(side, z) {
        Some((((c.0 - 1) as i64, c.1, c.2), cell(side, side - 1, y, z)))
    } else if y < 0 && inside(side, x) && inside(side, z) {
        Some(((c.0, (c.1 - 1) as i64, c.2), cell(side, x, side - 1, z)))
    } else if z < 0 && inside(side, x) && inside(side, y) {
        Some(((c.0, c.1, (c.2 - 1) as i64), cell(side, x, y, side - 1)))
    } else if x >= side && inside(side, y) && inside(side, z) {
        Some((((c.0 + 1) as i64, c.1, c.2), cell(side, 0, y, z)))
    } else if y >= side && inside(side, x) && inside(side, z) {
        Some(((c.0, (c.1 + 1) as i64, c.2), cell(side, x, 0, z)))
    } else if z >= side && inside(side, x) && inside(side, y) {
        Some(((c.0, c.1, (c.2 + 1) as i64), cell(side, x, y, 0)))
    } else {
        None
    }
}

/// The step to the neighbouring chunk that a lookup of (x, y, z) takes stays
/// within the range of `i64`.
pub open spec fn step_fits(side: int, x: int, y: int, z: int, c: Position) -> bool {
    if x < 0 && inside(side, y) && inside(side, z) {
        c.0 > i64::MIN
    } else if y < 0 && inside(side, x) && inside(side, z) {
        c.1 > i64::MIN
    } else if z < 0 && inside(side, x) && inside(side, y) {
        c.2 > i64::MIN
    } else if x >= side && inside(side, y) && inside(side, z) {
        c.0 < i64::MAX
    } else if y >= side && inside(side, x) && inside(side, z) {
        c.1 < i64::MAX
    } else if z >= side && inside(side, x) && inside(side, y) {
        c.2 < i64::MAX
    } else {
        true
    }
}

/// Where a lookup of (x, y, z) relative to the chunk at `c` with block list
/// `chunk` ends: `Some((None, i))` for cell `i` of `chunk` itself,
/// `Some((Some(p), i))` for cell `i` of the loaded chunk at `p`, and `None`
/// where it finds nothing.
pub open spec fn locate(side: int, chunk: Seq<i8>, chunks: Map<Position, Vec<i8>>, x: int, y: int, z: int, c: Position) -> Option<(Option<Position>, int)> {
    if inside3(side, x, y, z) {
        Some((None, cell(side, x, y, z)))
    } else {
        match face_neighbour(side, x, y, z, c) {
            Some((p, i)) => if chunks.contains_key(p) { Some((Some(p), i)) } else { None },
            None => None,
        }
    }
}

/// The block id that a lookup of (x, y, z) relative to the chunk at `c`
/// finds: the chunk's own cell inside it, the facing cell of the loaded chunk
/// across a face just outside it, and -1 anywhere else.
pub open spec fn block_at(side: int, chunk: Seq<i8>, chunks: Map<Position, Vec<i8>>, x: int, y: int, z: int, c: Position) -> i8 {
    match locate(side, chunk, chunks, x, y, z, c) {
        Some((None, i)) => chunk[i],
        Some((Some(p), i)) => chunks[p]@[i],
        None => -1i8,
    }
}

pub proof fn lemma_cell_bounds(side: int, x: int, y: int, z: int)
    requires
        side > 0,
        inside3(side, x, y, z),
    ensures
        0 <= cell(side, x, y, z) < volume(side),
{
    assert(0 <= x * side * side + y * side + z < side * side * side) by (nonlinear_arith)
        requires 0 <= x < side, 0 <= y < side, 0 <= z < side;
}

/// Distinct cells of a chunk are stored at distinct places of its block
/// list.
pub proof fn lemma_cell_injective(side: int, x: int, y: int, z: int, x2: int, y2: int, z2: int)
    requires
        side > 0,
        inside3(side, x, y, z),
        inside3(side, x2, y2, z2),
        cell(side, x, y, z) == cell(side, x2, y2, z2),
    ensures
        x == x2 && y == y2 && z == z2,
{
    assert(x == x2 && y == y2 && z == z2) by (nonlinear_arith)
        requires
            side > 0,
            0 <= x < side, 0 <= y < side, 0 <= z < side,
            0 <= x2 < side, 0 <= y2 < side, 0 <= z2 < side,
            x * side * side + y * side + z == x2 * side * side + y2 * side + z2,
    {
        let a = x * side + y;
        let b = x2 * side + y2;
        assert(x * side * side + y * side == a * side);
        assert(x2 * side * side + y2 * side == b * side);
        assert(0 <= a && 0 <= b);
        if a < b {
            assert(a * side + side <= b * side);
        } else if b < a {
            assert(b * side + side <= a * side);
        }
        assert(a == b);
        if x < x2 {
            assert(x * side + side <= x2 * side);
        } else if x2 < x {
            assert(x2 * side + side <= x * side);
        }
    }
}

/// A block written into a cell of a chunk is what a lookup of that cell
/// finds afterwards, and every other cell of the chunk keeps the block it
/// had.
pub proof fn lemma_write_then_read(side: int, chunk: Seq<i8>, chunks: Map<Position, Vec<i8>>, c: Position,
    x: int, y: int, z: int, b: i8, x2: int, y2: int, z2: int)
    requires
        side > 0,
        chunk.len() >= volume(side),
        inside3(side, x, y, z),
        inside3(side, x2, y2, z2),
    ensures
        block_at(side, chunk.update(cell(side, x, y, z), b), chunks, x, y, z, c) == b,
        (x2, y2, z2) != (x, y, z) ==> block_at(side, chunk.update(cell(side, x, y, z), b), chunks, x2, y2, z2, c)
            == block_at(side, chunk, chunks, x2, y2, z2, c),
{
    lemma_cell_bounds(side, x, y, z);
    lemma_cell_bounds(side, x2, y2, z2);
    if cell(side, x, y, z) == cell(side, x2, y2, z2) {
        lemma_cell_injective(side, x, y, z, x2, y2, z2);
    }
}

/// The cell index of an in-range coordinate, computed in machine integers.
pub fn cell_index(side: i64, x: i64, y: i64, z: i64) -> (i: usize)
    requires
        0 < side <= 64,
        inside3(side as int, x as int, y as int, z as int),
    ensures
        i == cell(side as int, x as int, y as int, z as int),
        i < volume(side as int),
{
    proof {
        lemma_cell_bounds(side as int, x as int, y as int, z as int);
        assert(side * side * side <= 64 * 64 * 64) by (nonlinear_arith)
            requires 0 < side <= 64;
        assert(x * side <= 64 * 64) by (nonlinear_arith)
            requires 0 <= x < side <= 64;
        assert(x * side * side <= 64 * 64 * 64) by (nonlinear_arith)
            requires 0 <= x < side <= 64;
    }
    (x * side * side + y * side + z) as usize
}

/// Finds where a lookup of (x, y, z) relative to the chunk at (cx, cy, cz)
/// ends, as `locate` describes.
pub fn locate_exec<'a>(side: i64, chunk: &Vec<i8>, chunks: &'a PositionMap<Vec<i8>>, x: i64, y: i64, z: i64, cx: i64, cy: i64, cz: i64) -> (r: Option<(Option<&'a Vec<i8>>, usize)>)
    requires
        0 < side <= 64,
        chunks.wf(),
        step_fits(side as int, x as int, y as int, z as int, (cx, cy, cz)),
    ensures
        match (r, locate(side as int, chunk@, chunks@, x as int, y as int, z as int, (cx, cy, cz))) {
            (Some((None, i)), Some((None, j))) => i == j,
            (Some((Some(v), i)), Some((Some(p), j))) => i == j && *v == chunks@[p],
            (None, None) => true,
            _ => false,
        },
        match r {
            Some((_, i)) => i < volume(side as int),
            None => true,
        },
{
    let s = side;
    if 0 <= x && x < s && 0 <= y && y < s && 0 <= z && z < s {
        return Some((None, cell_index(side, x, y, z)));
    }
    let (p, i): (Position, usize) = if x < 0 && 0 <= y && y < s && 0 <= z && z < s {
        ((cx - 1, cy, cz), cell_index(side, s - 1, y, z))
    } else if y < 0 && 0 <= x && x < s && 0 <= z && z < s {
        ((cx, cy - 1, cz), cell_index(side, x, s - 1, z))
    } else if z < 0 && 0 <= x && x < s && 0 <= y && y < s {
        ((cx, cy, cz - 1), cell_index(side, x, y, s - 1))
    } else if x >= s && 0 <= y && y < s && 0 <= z && z < s {
        ((cx + 1, cy, cz), cell_index(side, 0, y, z))
    } else if y >= s && 0 <= x && x < s && 0 <= z && z < s {
        ((cx, cy + 1, cz), cell_index(side, x, 0, z))
    } else if z >= s && 0 <= x && x < s && 0 <= y && y < s {
        ((cx, cy, cz + 1), cell_index(side, x, y, 0))
    } else {
        return None;
    };
    match chunks.get(&p) {
        Some(v) => Some((Some(v), i)),
        None => None,
    }
}

/// The cell that a lookup of (x, y, z) relative to the chunk at `c` reads
/// lies within the block list it reads from.
pub open spec fn lookup_in_range(side: int, chunk: Seq<i8>, chunks: Map<Position, Vec<i8>>, x: int, y: int, z: int, c: Position) -> bool {
    match locate(side, chunk, chunks, x, y, z, c) {
        Some((None, i)) => i < chunk.len(),
        Some((Some(p), i)) => i < chunks[p]@.len(),
        None => true,
    }
}

/// The chunk at `p`, where it is loaded, holds a full block list.
pub open spec fn sized_at(chunks: Map<Position, Vec<i8>>, p: Position, side: int) -> bool {
    chunks.contains_key(p) ==> chunks[p]@.len() >= volume(side)
}

/// The six chunks across the faces of the chunk at `c`, where loaded, hold
/// full block lists.
pub open spec fn neighbours_sized(chunks: Map<Position, Vec<i8>>, c: Position, side: int) -> bool {
    &&& sized_at(chunks, ((c.0 - 1) as i64, c.1, c.2), side)
    &&& sized_at(chunks, ((c.0 + 1) as i64, c.1, c.2), side)
    &&& sized_at(chunks, (c.0, (c.1 - 1) as i64, c.2), side)
    &&& sized_at(chunks, (c.0, (c.1 + 1) as i64, c.2), side)
    &&& sized_at(chunks, (c.0, c.1, (c.2 - 1) as i64), side)
    &&& sized_at(chunks, (c.0, c.1, (c.2 + 1) as i64), side)
}

/// A full chunk whose face neighbours are full reads every lookup within
/// range.
pub proof fn lemma_lookup_in_range(side: int, chunk: Seq<i8>, chunks: Map<Position, Vec<i8>>, x: int, y: int, z: int, c: Position)
    requires
        side > 0,
        chunk.len() >= volume(side),
        neighbours_sized(chunks, c, side),
    ensures
        lookup_in_range(side, chunk, chunks, x, y, z, c),
{
    if inside3(side, x, y, z) {
        lemma_cell_bounds(side, x, y, z);
    } else if x < 0 && inside(side, y) && inside(side, z) {
        lemma_cell_bounds(side, side - 1, y, z);
    } else if y < 0 && inside(side, x) && inside(side, z) {
        lemma_cell_bounds(side, x, side - 1, z);
    } else if z < 0 && inside(side, x) && inside(side, y) {
        lemma_cell_bounds(side, x, y, side - 1);
    } else if x >= side && inside(side, y) && inside(side, z) {
        lemma_cell_bounds(side, 0, y, z);
    } else if y >= side && inside(side, x) && inside(side, z) {
        lemma_cell_bounds(side, x, 0, z);
    } else if z >= side && inside(side, x) && inside(side, y) {
        lemma_cell_bounds(side, x, y, 0);
    }
}

/// The cell of world cell `p` lies within its chunk's block list, where
/// that chunk is loaded.
pub open spec fn cell_in_range(chunks: Map<Position, Vec<i8>>, p: Position, side: int) -> bool {
    chunks.contains_key(cell_location(p, side).0) ==> cell_location(p, side).1 < chunks[cell_location(p, side).0]@.len()
}

/// Reads the block id that a lookup of (x, y, z) relative to the chunk at
/// (cx, cy, cz) finds, as `block_at` describes.
pub fn block_at_exec(side: i64, chunk: &Vec<i8>, chunks: &PositionMap<Vec<i8>>, x: i64, y: i64, z: i64, cx: i64, cy: i64, cz: i64) -> (b: i8)
    requires
        0 < side <= 64,
        chunks.wf(),
        lookup_in_range(side as int, chunk@, chunks@, x as int, y as int, z as int, (cx, cy, cz)),
        step_fits(side as int, x as int, y as int, z as int, (cx, cy, cz)),
    ensures
        b == block_at(side as int, chunk@, chunks@, x as int, y as int, z as int, (cx, cy, cz)),
{
    match locate_exec(side, chunk, chunks, x, y, z, cx, cy, cz) {
        Some((None, i)) => chunk[i],
        Some((Some(v), i)) => v[i],
        None => -1,
    }
}

/// The chunk that world cell coordinate `n` lies in, for chunks of edge
/// `side`: `n / side` rounded down.
pub open spec fn chunk_of(n: int, side: int) -> int {
    n / side
}

/// The coordinate of world cell `n` inside its chunk: `n` modulo `side`,
/// from 0 to `side - 1`.
pub open spec fn local_of(n: int, side: int) -> int {
    n % side
}

/// Splits world cell coordinate `n` into its chunk coordinate and its
/// coordinate inside that chunk, for chunks of edge `side` (16 or 32).
pub fn split_coordinate(n: i64, side: i64) -> (r: (i64, i64))
    requires
        side == 16 || side == 32,
    ensures
        r.0 == chunk_of(n as int, side as int),
        r.1 == local_of(n as int, side as int),
        0 <= r.1 < side,
        n == side * r.0 + r.1,
{
    let shifted: u64 = (n as i128 + 0x8000_0000_0000_0000i128) as u64;
    let s = side as u64;
    let q: u64 = shifted / s;
    let rem: u64 = shifted % s;
    let offset: i128 = if side == 16 { 0x0800_0000_0000_0000i128 } else { 0x0400_0000_0000_0000i128 };
    let chunk = (q as i128 - offset) as i64;
    proof {
        assert(shifted == n + 0x8000_0000_0000_0000);
        assert(shifted == s * q + rem);
        assert(offset * side == 0x8000_0000_0000_0000);
        assert(n == side * (q - offset) + rem) by (nonlinear_arith)
            requires shifted == n + 0x8000_0000_0000_0000, shifted == s * q + rem, offset * side == 0x8000_0000_0000_0000, s == side;
        assert(0 <= rem < side);
        let qq = q - offset;
        assert(n / side == qq && n % side == rem) by (nonlinear_arith)
            requires n == side * qq + rem, 0 <= rem < side, side > 0;
        assert(i64::MIN <= qq <= i64::MAX) by (nonlinear_arith)
            requires n == side * qq + rem, 0 <= rem < side, side >= 16, i64::MIN <= n <= i64::MAX;
    }
    (chunk, rem as i64)
}

/// The chunk holding world cell (x, y, z) and the cell's index inside it.
pub open spec fn cell_location(p: Position, side: int) -> (Position, int) {
    ((chunk_of(p.0 as int, side) as i64, chunk_of(p.1 as int, side) as i64, chunk_of(p.2 as int, side) as i64),
     cell(side, local_of(p.0 as int, side), local_of(p.1 as int, side), local_of(p.2 as int, side)))
}

/// Finds the loaded chunk holding world cell `p`, and the cell's index in it.
pub fn locate_cell<'a>(chunks: &'a PositionMap<Vec<i8>>, side: i64, p: Position) -> (r: (Position, usize, Option<&'a Vec<i8>>))
    requires
        chunks.wf(),
        side == 16 || side == 32,
    ensures
        r.0 == cell_location(p, side as int).0,
        r.1 == cell_location(p, side as int).1,
        r.1 < volume(side as int),
        match r.2 {
            Some(v) => chunks@.contains_key(r.0) && *v == chunks@[r.0],
            None => !chunks@.contains_key(r.0),
        },
{
    let (cx, lx) = split_coordinate(p.0, side);
    let (cy, ly) = split_coordinate(p.1, side);
    let (cz, lz) = split_coordinate(p.2, side);
    let i = cell_index(side, lx, ly, lz);
    let c: Position = (cx, cy, cz);
    (c, i, chunks.get(&c))
}

} // verus!
