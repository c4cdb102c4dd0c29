use vstd::prelude::*;
use crate::mesh::{face_corner, face_normal, face_corner_exec, face_normal_exec};

verus! {

/// The faces of the cube mesh in the order it lists them: +z, +x, -z, -x,
/// +y, -y (as numbered in `mesh`: 4, 0, 5, 1, 2, 3).
pub open spec fn cube_face(k: int) -> int {
    let order: Seq<int> = seq![4, 0, 5, 1, 2, 3];
    order[k]
}

/// The 36 corners of the two triangles of each face of a cube of edge 2
/// centred on the origin, face by face in `cube_face` order.
pub open spec fn cube_position_list() -> Seq<[i8; 3]> {
    Seq::new(36, |i: int| {
        let c = face_corner(cube_face(i / 6), i % 6);
        [c.0 as i8, c.1 as i8, c.2 as i8]
    })
}

/// The outward normal of each of the 36 corners of `cube_position_list`.
pub open spec fn cube_normal_list() -> Seq<[i8; 3]> {
    Seq::new(36, |i: int| {
        let n = face_normal(cube_face(i / 6));
        [n.0, n.1, n.2]
    })
}

fn cube_face_exec(k: usize) -> (f: usize)
    requires
        k < 6,
    ensures
        f == cube_face(k as int),
        f < 6,
{
    let order: [usize; 6] = [4, 0, 5, 1, 2, 3];
    order[k]
}

/// The corner positions of the cube mesh.
pub fn cube_positions() -> (r: Vec<[i8; 3]>)
    ensures
        r@ == cube_position_list(),
{
    let mut r: Vec<[i8; 3]> = Vec::new();
    let mut i: usize = 0;
    while i < 36
        invariant
            i <= 36,
            r@ == cube_position_list().take(i as int),
        decreases 36 - i,
    {
        let c = face_corner_exec(cube_face_exec(i / 6), i % 6);
        let p: [i8; 3] = [c.0, c.1, c.2];
        proof {
            assert(p == cube_position_list()[i as int]);
            assert(cube_position_list().take(i as int + 1) =~= cube_position_list().take(i as int).push(p));
        }
        r.push(p);
        i = i + 1;
    }
    assert(cube_position_list().take(36) =~= cube_position_list());
    r
}

/// The normals of the cube mesh, one per corner.
pub fn cube_normals() -> (r: Vec<[i8; 3]>)
    ensures
        r@ == cube_normal_list(),
{
    let mut r: Vec<[i8; 3]> = Vec::new();
    let mut i: usize = 0;
    while i < 36
        invariant
            i <= 36,
            r@ == cube_normal_list().take(i as int),
        decreases 36 - i,
    {
        let n = face_normal_exec(cube_face_exec(i / 6));
        let p: [i8; 3] = [n.0, n.1, n.2];
        proof {
            assert(p == cube_normal_list()[i as int]);
            assert(cube_normal_list().take(i as int + 1) =~= cube_normal_list().take(i as int).push(p));
        }
        r.push(p);
        i = i + 1;
    }
    assert(cube_normal_list().take(36) =~= cube_normal_list());
    r
}

/// A unit vector along one axis: one component is 1 or -1, the others 0.
pub open spec fn axis_unit(n: [i8; 3]) -> bool {
    ||| (n@[0] == 1 || n@[0] == -1) && n@[1] == 0 && n@[2] == 0
    ||| n@[0] == 0 && (n@[1] == 1 || n@[1] == -1) && n@[2] == 0
    ||| n@[0] == 0 && n@[1] == 0 && (n@[2] == 1 || n@[2] == -1)
}

/// Corner `p` lies on the face of the cube that the axis unit `n` points out
/// of: along `n`'s axis its coordinate is `n`'s.
pub open spec fn on_face(p: [i8; 3], n: [i8; 3]) -> bool {
    forall|a: int| 0 <= a < 3 && n@[a] != 0 ==> p@[a] == n@[a]
}

/// Every coordinate of `p` is -1 or 1: `p` is a corner of the cube.
pub open spec fn cube_corner(p: [i8; 3]) -> bool {
    forall|a: int| 0 <= a < 3 ==> (p@[a] == 1 || p@[a] == -1)
}

proof fn lemma_face_corner(f: int, v: int)
    requires
        0 <= f < 6,
        0 <= v < 6,
    ensures ({
        let c = face_corner(f, v);
        let n = face_normal(f);
        let p: [i8; 3] = [c.0 as i8, c.1 as i8, c.2 as i8];
        let m: [i8; 3] = [n.0, n.1, n.2];
        axis_unit(m) && on_face(p, m) && cube_corner(p)
    }),
{
    assert(f == 0 || f == 1 || f == 2 || f == 3 || f == 4 || f == 5);
    assert(v == 0 || v == 1 || v == 2 || v == 3 || v == 4 || v == 5);
}

/// Every corner of the cube mesh lies on the face its normal points out of,
/// every normal is a unit axis vector, every corner is a corner of the cube,
/// and both lists have 36 entries.
pub proof fn lemma_cube_corners_on_their_faces()
    ensures
        cube_position_list().len() == 36,
        cube_normal_list().len() == 36,
        forall|i: int| 0 <= i < 36 ==> on_face(#[trigger] cube_position_list()[i], cube_normal_list()[i]),
        forall|i: int| 0 <= i < 36 ==> axis_unit(#[trigger] cube_normal_list()[i]),
        forall|i: int| 0 <= i < 36 ==> cube_corner(#[trigger] cube_position_list()[i]),
{
    assert forall|i: int| 0 <= i < 36 implies on_face(#[trigger] cube_position_list()[i], cube_normal_list()[i])
        && axis_unit(cube_normal_list()[i]) && cube_corner(cube_position_list()[i]) by {
        let k = i / 6;
        assert(k == 0 || k == 1 || k == 2 || k == 3 || k == 4 || k == 5);
        let f = cube_face(k);
        assert(0 <= f < 6);
        lemma_face_corner(f, i % 6);
    }
    assert forall|i: int| 0 <= i < 36 implies axis_unit(#[trigger] cube_normal_list()[i]) by {
        assert(on_face(cube_position_list()[i], cube_normal_list()[i]));
    }
    assert forall|i: int| 0 <= i < 36 implies cube_corner(#[trigger] cube_position_list()[i]) by {
        assert(on_face(cube_position_list()[i], cube_normal_list()[i]));
    }
}

/// The cross product of the edges from `a` to `b` and from `a` to `c`.
pub open spec fn edge_cross(a: [i8; 3], b: [i8; 3], c: [i8; 3]) -> (int, int, int) {
    let u0 = b@[0] - a@[0];
    let u1 = b@[1] - a@[1];
    let u2 = b@[2] - a@[2];
    let v0 = c@[0] - a@[0];
    let v1 = c@[1] - a@[1];
    let v2 = c@[2] - a@[2];
    (u1 * v2 - u2 * v1, u2 * v0 - u0 * v2, u0 * v1 - u1 * v0)
}

/// `n` scaled by `k`.
pub open spec fn scaled(n: [i8; 3], k: int) -> (int, int, int) {
    (k * n@[0], k * n@[1], k * n@[2])
}

/// The dot product of `p` and `n`.
pub open spec fn dot(p: [i8; 3], n: [i8; 3]) -> int {
    p@[0] * n@[0] + p@[1] * n@[1] + p@[2] * n@[2]
}

/// Each of the twelve triangles of the cube mesh turns counter-clockwise
/// seen from outside: its three corners share one normal, and the cross
/// product of its edges, in list order, is four times that normal (the
/// triangle spans half of a face of area 4). Every corner lies on the face
/// its normal points out of: its dot product with the normal is 1.
pub proof fn lemma_cube_triangles_face_outward()
    ensures
        forall|t: int| 0 <= t < 12 ==> {
            &&& cube_normal_list()[3 * t + 1] == cube_normal_list()[3 * t]
            &&& cube_normal_list()[3 * t + 2] == cube_normal_list()[3 * t]
            &&& edge_cross(#[trigger] cube_position_list()[3 * t], cube_position_list()[3 * t + 1],
                cube_position_list()[3 * t + 2]) == scaled(cube_normal_list()[3 * t], 4)
        },
        forall|i: int| 0 <= i < 36 ==> dot(#[trigger] cube_position_list()[i], cube_normal_list()[i]) == 1,
{
    assert forall|t: int| 0 <= t < 12 implies {
        &&& cube_normal_list()[3 * t + 1] == cube_normal_list()[3 * t]
        &&& cube_normal_list()[3 * t + 2] == cube_normal_list()[3 * t]
        &&& edge_cross(#[trigger] cube_position_list()[3 * t], cube_position_list()[3 * t + 1],
            cube_position_list()[3 * t + 2]) == scaled(cube_normal_list()[3 * t], 4)
    } by {
        lemma_triangle_cross(t);
    }
    assert forall|i: int| 0 <= i < 36 implies dot(#[trigger] cube_position_list()[i], cube_normal_list()[i]) == 1 by {
        let k = i / 6;
        assert(k == 0 || k == 1 || k == 2 || k == 3 || k == 4 || k == 5);
        let f = cube_face(k);
        lemma_face_corner(f, i % 6);
        let p = cube_position_list()[i];
        let n = cube_normal_list()[i];
        assert(on_face(p, n) && axis_unit(n) && cube_corner(p));
        let (p0, p1, p2) = (p@[0] as int, p@[1] as int, p@[2] as int);
        let (n0, n1, n2) = (n@[0] as int, n@[1] as int, n@[2] as int);
        assert(n0 != 0 ==> p0 == n0);
        assert(n1 != 0 ==> p1 == n1);
        assert(n2 != 0 ==> p2 == n2);
        assert(p0 * n0 + p1 * n1 + p2 * n2 == 1) by (nonlinear_arith)
            requires
                (n0 == 1 || n0 == -1) && n1 == 0 && n2 == 0 || n0 == 0 && (n1 == 1 || n1 == -1) && n2 == 0
                    || n0 == 0 && n1 == 0 && (n2 == 1 || n2 == -1),
                n0 != 0 ==> p0 == n0,
                n1 != 0 ==> p1 == n1,
                n2 != 0 ==> p2 == n2;
    }
}

proof fn lemma_triangle_cross(t: int)
    requires
        0 <= t < 12,
    ensures
        cube_normal_list()[3 * t + 1] == cube_normal_list()[3 * t],
        cube_normal_list()[3 * t + 2] == cube_normal_list()[3 * t],
        edge_cross(cube_position_list()[3 * t], cube_position_list()[3 * t + 1],
            cube_position_list()[3 * t + 2]) == scaled(cube_normal_list()[3 * t], 4),
{
    let f = cube_face((3 * t) / 6);
    let o = (3 * t) % 6;
    assert((3 * t + 1) / 6 == (3 * t) / 6 && (3 * t + 2) / 6 == (3 * t) / 6);
    assert((3 * t + 1) % 6 == o + 1 && (3 * t + 2) % 6 == o + 2);
    assert(o == 0 || o == 3);
    assert(0 <= (3 * t) / 6 < 6);
    let a = face_corner(f, o);
    let b = face_corner(f, o + 1);
    let c = face_corner(f, o + 2);
    let n = face_normal(f);
    assert(cube_position_list()[3 * t] == [a.0 as i8, a.1 as i8, a.2 as i8]);
    assert(cube_position_list()[3 * t + 1] == [b.0 as i8, b.1 as i8, b.2 as i8]);
    assert(cube_position_list()[3 * t + 2] == [c.0 as i8, c.1 as i8, c.2 as i8]);
    assert(cube_normal_list()[3 * t] == [n.0, n.1, n.2]);
    let u0 = b.0 - a.0;
    let u1 = b.1 - a.1;
    let u2 = b.2 - a.2;
    let v0 = c.0 - a.0;
    let v1 = c.1 - a.1;
    let v2 = c.2 - a.2;
    assert(f == 0 || f == 1 || f == 2 || f == 3 || f == 4 || f == 5);
    if f == 0 && o == 0 {
        assert(a == (1int, -1int, 1int) && b == (1int, -1int, -1int) && c == (1int, 1int, 1int));
        assert(n == (1i8, 0i8, 0i8));
        assert(u1 * v2 - u2 * v1 == 4 * n.0 && u2 * v0 - u0 * v2 == 4 * n.1 && u0 * v1 - u1 * v0 == 4 * n.2) by (nonlinear_arith)
            requires u0 == 0, u1 == 0, u2 == -2, v0 == 0, v1 == 2, v2 == 0, n.0 == 1, n.1 == 0, n.2 == 0;
    } else if f == 0 && o == 3 {
        assert(a == (1int, 1int, 1int) && b == (1int, -1int, -1int) && c == (1int, 1int, -1int));
        assert(n == (1i8, 0i8, 0i8));
        assert(u1 * v2 - u2 * v1 == 4 * n.0 && u2 * v0 - u0 * v2 == 4 * n.1 && u0 * v1 - u1 * v0 == 4 * n.2) by (nonlinear_arith)
            requires u0 == 0, u1 == -2, u2 == -2, v0 == 0, v1 == 0, v2 == -2, n.0 == 1, n.1 == 0, n.2 == 0;
    } else if f == 1 && o == 0 {
        assert(a == (-1int, -1int, -1int) && b == (-1int, -1int, 1int) && c == (-1int, 1int, -1int));
        assert(n == (-1i8, 0i8, 0i8));
        assert(u1 * v2 - u2 * v1 == 4 * n.0 && u2 * v0 - u0 * v2 == 4 * n.1 && u0 * v1 - u1 * v0 == 4 * n.2) by (nonlinear_arith)
            requires u0 == 0, u1 == 0, u2 == 2, v0 == 0, v1 == 2, v2 == 0, n.0 == -1, n.1 == 0, n.2 == 0;
    } else if f == 1 && o == 3 {
        assert(a == (-1int, 1int, -1int) && b == (-1int, -1int, 1int) && c == (-1int, 1int, 1int));
        assert(n == (-1i8, 0i8, 0i8));
        assert(u1 * v2 - u2 * v1 == 4 * n.0 && u2 * v0 - u0 * v2 == 4 * n.1 && u0 * v1 - u1 * v0 == 4 * n.2) by (nonlinear_arith)
            requires u0 == 0, u1 == -2, u2 == 2, v0 == 0, v1 == 0, v2 == 2, n.0 == -1, n.1 == 0, n.2 == 0;
    } else if f == 2 && o == 0 {
        assert(a == (-1int, 1int, 1int) && b == (1int, 1int, 1int) && c == (-1int, 1int, -1int));
        assert(n == (0i8, 1i8, 0i8));
        assert(u1 * v2 - u2 * v1 == 4 * n.0 && u2 * v0 - u0 * v2 == 4 * n.1 && u0 * v1 - u1 * v0 == 4 * n.2) by (nonlinear_arith)
            requires u0 == 2, u1 == 0, u2 == 0, v0 == 0, v1 == 0, v2 == -2, n.0 == 0, n.1 == 1, n.2 == 0;
    } else if f == 2 && o == 3 {
        assert(a == (-1int, 1int, -1int) && b == (1int, 1int, 1int) && c == (1int, 1int, -1int));
        assert(n == (0i8, 1i8, 0i8));
        assert(u1 * v2 - u2 * v1 == 4 * n.0 && u2 * v0 - u0 * v2 == 4 * n.1 && u0 * v1 - u1 * v0 == 4 * n.2) by (nonlinear_arith)
            requires u0 == 2, u1 == 0, u2 == 2, v0 == 2, v1 == 0, v2 == 0, n.0 == 0, n.1 == 1, n.2 == 0;
    } else if f == 3 && o == 0 {
        assert(a == (-1int, -1int, -1int) && b == (1int, -1int, -1int) && c == (-1int, -1int, 1int));
        assert(n == (0i8, -1i8, 0i8));
        assert(u1 * v2 - u2 * v1 == 4 * n.0 && u2 * v0 - u0 * v2 == 4 * n.1 && u0 * v1 - u1 * v0 == 4 * n.2) by (nonlinear_arith)
            requires u0 == 2, u1 == 0, u2 == 0, v0 == 0, v1 == 0, v2 == 2, n.0 == 0, n.1 == -1, n.2 == 0;
    } else if f == 3 && o == 3 {
        assert(a == (-1int, -1int, 1int) && b == (1int, -1int, -1int) && c == (1int, -1int, 1int));
        assert(n == (0i8, -1i8, 0i8));
        assert(u1 * v2 - u2 * v1 == 4 * n.0 && u2 * v0 - u0 * v2 == 4 * n.1 && u0 * v1 - u1 * v0 == 4 * n.2) by (nonlinear_arith)
            requires u0 == 2, u1 == 0, u2 == -2, v0 == 2, v1 == 0, v2 == 0, n.0 == 0, n.1 == -1, n.2 == 0;
    } else if f == 4 && o == 0 {
        assert(a == (-1int, -1int, 1int) && b == (1int, -1int, 1int) && c == (-1int, 1int, 1int));
        assert(n == (0i8, 0i8, 1i8));
        assert(u1 * v2 - u2 * v1 == 4 * n.0 && u2 * v0 - u0 * v2 == 4 * n.1 && u0 * v1 - u1 * v0 == 4 * n.2) by (nonlinear_arith)
            requires u0 == 2, u1 == 0, u2 == 0, v0 == 0, v1 == 2, v2 == 0, n.0 == 0, n.1 == 0, n.2 == 1;
    } else if f == 4 && o == 3 {
        assert(a == (-1int, 1int, 1int) && b == (1int, -1int, 1int) && c == (1int, 1int, 1int));
        assert(n == (0i8, 0i8, 1i8));
        assert(u1 * v2 - u2 * v1 == 4 * n.0 && u2 * v0 - u0 * v2 == 4 * n.1 && u0 * v1 - u1 * v0 == 4 * n.2) by (nonlinear_arith)
            requires u0 == 2, u1 == -2, u2 == 0, v0 == 2, v1 == 0, v2 == 0, n.0 == 0, n.1 == 0, n.2 == 1;
    } else if f == 5 && o == 0 {
        assert(a == (1int, -1int, -1int) && b == (-1int, -1int, -1int) && c == (1int, 1int, -1int));
        assert(n == (0i8, 0i8, -1i8));
        assert(u1 * v2 - u2 * v1 == 4 * n.0 && u2 * v0 - u0 * v2 == 4 * n.1 && u0 * v1 - u1 * v0 == 4 * n.2) by (nonlinear_arith)
            requires u0 == -2, u1 == 0, u2 == 0, v0 == 0, v1 == 2, v2 == 0, n.0 == 0, n.1 == 0, n.2 == -1;
    } else if f == 5 && o == 3 {
        assert(a == (1int, 1int, -1int) && b == (-1int, -1int, -1int) && c == (-1int, 1int, -1int));
        assert(n == (0i8, 0i8, -1i8));
        assert(u1 * v2 - u2 * v1 == 4 * n.0 && u2 * v0 - u0 * v2 == 4 * n.1 && u0 * v1 - u1 * v0 == 4 * n.2) by (nonlinear_arith)
            requires u0 == -2, u1 == -2, u2 == 0, v0 == -2, v1 == 0, v2 == 0, n.0 == 0, n.1 == 0, n.2 == -1;
    }
}

} // verus!
