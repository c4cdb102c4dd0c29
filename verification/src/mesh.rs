use vstd::prelude::*;

verus! {

/// How a vertex is shaded: fully lit (colour 1.0) or darkened by an
/// adjacent block (colour 0.5).
#[derive(Clone, Copy, PartialEq, Eq, Debug)]
pub enum Shade {
    Lit,
    Occluded,
}

/// One vertex of a block mesh. Positions are in half-block units (a block at
/// cell (x, y, z) spans 2x-1 ..= 2x+1 on each axis); texture coordinates are
/// in eighths of the 8 x 8 texture atlas.
pub struct MeshVertex {
    pub position: (i8, i8, i8),
    pub normal: (i8, i8, i8),
    pub shade: Shade,
    pub uv: (i8, i8),
}

/// A block mesh as four parallel lists: positions, normals, shades and
/// texture coordinates, one entry of each per vertex.
pub struct Mesh {
    pub vertices: Vec<(i8, i8, i8)>,
    pub normals: Vec<(i8, i8, i8)>,
    pub colors: Vec<Shade>,
    pub uvs: Vec<(i8, i8)>,
}

impl Mesh {
    /// The four lists have one entry per vertex.
    pub open spec fn wf(&self) -> bool {
        &&& self.normals@.len() == self.vertices@.len()
        &&& self.colors@.len() == self.vertices@.len()
        &&& self.uvs@.len() == self.vertices@.len()
    }

    /// The mesh as one list of vertices.
    pub open spec fn view(&self) -> Seq<MeshVertex> {
        Seq::new(self.vertices@.len(), |i: int| MeshVertex {
            position: self.vertices@[i],
            normal: self.normals@[i],
            shade: self.colors@[i],
            uv: self.uvs@[i],
        })
    }

    /// An empty mesh.
    pub fn new() -> (m: Mesh)
        ensures
            m.wf(),
            m@ == Seq::<MeshVertex>::empty(),
    {
        let m = Mesh { vertices: Vec::new(), normals: Vec::new(), colors: Vec::new(), uvs: Vec::new() };
        assert(m@ =~= Seq::<MeshVertex>::empty());
        m
    }

    /// Appends one vertex.
    pub fn push(&mut self, v: MeshVertex)
        requires
            old(self).wf(),
        ensures
            final(self).wf(),
            final(self)@ == old(self)@.push(v),
    {
        let ghost old_view = self@;
        self.vertices.push(v.position);
        self.normals.push(v.normal);
        self.colors.push(v.shade);
        self.uvs.push(v.uv);
        assert(self@ =~= old_view.push(v));
    }
}

/// Corner `v` (0..6, two triangles) of face `f` of a block centred on the
/// origin, in half-block units. Faces: 0 = +x, 1 = -x, 2 = +y, 3 = -y,
/// 4 = +z, 5 = -z.
pub open spec fn face_corner(f: int, v: int) -> (int, int, int) {
    let corners: Seq<(int, int, int)> = if f == 0 {
        seq![(1, -1, 1), (1, -1, -1), (1, 1, 1), (1, 1, 1), (1, -1, -1), (1, 1, -1)]
    } else if f == 1 {
        seq![(-1, -1, -1), (-1, -1, 1), (-1, 1, -1), (-1, 1, -1), (-1, -1, 1), (-1, 1, 1)]
    } else if f == 2 {
        seq![(-1, 1, 1), (1, 1, 1), (-1, 1, -1), (-1, 1, -1), (1, 1, 1), (1, 1, -1)]
    } else if f == 3 {
        seq![(-1, -1, -1), (1, -1, -1), (-1, -1, 1), (-1, -1, 1), (1, -1, -1), (1, -1, 1)]
    } else if f == 4 {
        seq![(-1, -1, 1), (1, -1, 1), (-1, 1, 1), (-1, 1, 1), (1, -1, 1), (1, 1, 1)]
    } else {
        seq![(1, -1, -1), (-1, -1, -1), (1, 1, -1), (1, 1, -1), (-1, -1, -1), (-1, 1, -1)]
    };
    corners[v]
}

/// The outward normal of face `f`.
pub open spec fn face_normal(f: int) -> (i8, i8, i8) {
    if f == 0 {
        (1, 0, 0)
    } else if f == 1 {
        (-1i8, 0i8, 0i8)
    } else if f == 2 {
        (0, 1, 0)
    } else if f == 3 {
        (0i8, -1i8, 0i8)
    } else if f == 4 {
        (0, 0, 1)
    } else {
        (0i8, 0i8, -1i8)
    }
}

/// The texture-space corner (in atlas tiles) of vertex `v` of any face.
pub open spec fn uv_corner(v: int) -> (int, int) {
    let corners: Seq<(int, int)> = seq![(0, 1), (1, 1), (0, 0), (0, 0), (1, 1), (1, 0)];
    corners[v]
}

/// The atlas column of texture tile `t`: the remainder of `t / 8` truncated
/// towards zero, as `f32` remainder gives it.
pub open spec fn tile_column(t: int) -> int {
    if t >= 0 { t % 8 } else { -((-t) % 8) }
}

/// The atlas row of texture tile `t`: `t / 8` rounded down.
pub open spec fn tile_row(t: int) -> int {
    t / 8
}

/// Vertex `v` of face `f` of the block whose centre lies at `centre` (in
/// half-block units), textured with tile `tile`, darkened where `occluded`.
pub open spec fn face_vertex(f: int, v: int, centre: (int, int, int), tile: i8, occluded: bool) -> MeshVertex {
    let c = face_corner(f, v);
    let u = uv_corner(v);
    MeshVertex {
        position: ((c.0 + centre.0) as i8, (c.1 + centre.1) as i8, (c.2 + centre.2) as i8),
        normal: face_normal(f),
        shade: if occluded { Shade::Occluded } else { Shade::Lit },
        uv: ((u.0 + tile_column(tile as int)) as i8, (u.1 + tile_row(tile as int)) as i8),
    }
}

/// The six vertices of face `f`; `occluded[v]` darkens vertex `v`.
pub open spec fn face_vertices(f: int, centre: (int, int, int), tile: i8, occluded: Seq<bool>) -> Seq<MeshVertex> {
    Seq::new(6, |v: int| face_vertex(f, v, centre, tile, occluded[v]))
}

pub fn face_corner_exec(f: usize, v: usize) -> (r: (i8, i8, i8))
    requires
        f < 6,
        v < 6,
    ensures
        r.0 == face_corner(f as int, v as int).0,
        r.1 == face_corner(f as int, v as int).1,
        r.2 == face_corner(f as int, v as int).2,
{
    let t: [(i8, i8, i8); 6] = if f == 0 {
        [(1, -1, 1), (1, -1, -1), (1, 1, 1), (1, 1, 1), (1, -1, -1), (1, 1, -1)]
    } else if f == 1 {
        [(-1, -1, -1), (-1, -1, 1), (-1, 1, -1), (-1, 1, -1), (-1, -1, 1), (-1, 1, 1)]
    } else if f == 2 {
        [(-1, 1, 1), (1, 1, 1), (-1, 1, -1), (-1, 1, -1), (1, 1, 1), (1, 1, -1)]
    } else if f == 3 {
        [(-1, -1, -1), (1, -1, -1), (-1, -1, 1), (-1, -1, 1), (1, -1, -1), (1, -1, 1)]
    } else if f == 4 {
        [(-1, -1, 1), (1, -1, 1), (-1, 1, 1), (-1, 1, 1), (1, -1, 1), (1, 1, 1)]
    } else {
        [(1, -1, -1), (-1, -1, -1), (1, 1, -1), (1, 1, -1), (-1, -1, -1), (-1, 1, -1)]
    };
    t[v]
}

pub fn face_normal_exec(f: usize) -> (r: (i8, i8, i8))
    requires
        f < 6,
    ensures
        r == face_normal(f as int),
{
    if f == 0 {
        (1, 0, 0)
    } else if f == 1 {
        (-1, 0, 0)
    } else if f == 2 {
        (0, 1, 0)
    } else if f == 3 {
        (0, -1, 0)
    } else if f == 4 {
        (0, 0, 1)
    } else {
        (0, 0, -1)
    }
}

pub fn uv_corner_exec(v: usize) -> (r: (i8, i8))
    requires
        v < 6,
    ensures
        r.0 == uv_corner(v as int).0,
        r.1 == uv_corner(v as int).1,
{
    let t: [(i8, i8); 6] = [(0, 1), (1, 1), (0, 0), (0, 0), (1, 1), (1, 0)];
    t[v]
}

/// The atlas column and row of texture tile `t`.
pub fn tile_position(t: i8) -> (r: (i8, i8))
    ensures
        r.0 == tile_column(t as int),
        r.1 == tile_row(t as int),
        -8 < r.0 < 8,
        -16 <= r.1 < 16,
{
    let w: i16 = t as i16;
    if w >= 0 {
        ((w % 8) as i8, (w / 8) as i8)
    } else {
        let n: i16 = -w;
        (-(n % 8) as i8, -((n + 7) / 8) as i8)
    }
}

/// Appends the six vertices of face `f` of the block centred at
/// `(cx, cy, cz)` (half-block units).
pub fn push_face(mesh: &mut Mesh, f: usize, cx: i8, cy: i8, cz: i8, tile: i8, occluded: &Vec<bool>)
    requires
        old(mesh).wf(),
        f < 6,
        occluded@.len() == 6,
        -120 <= cx <= 120,
        -120 <= cy <= 120,
        -120 <= cz <= 120,
    ensures
        final(mesh).wf(),
        final(mesh)@ == old(mesh)@ + face_vertices(f as int, (cx as int, cy as int, cz as int), tile, occluded@),
{
    let ghost start = mesh@;
    let (tc, tr) = tile_position(tile);
    let normal = face_normal_exec(f);
    let mut v: usize = 0;
    while v < 6
        invariant
            mesh.wf(),
            f < 6,
            v <= 6,
            occluded@.len() == 6,
            -120 <= cx <= 120,
            -120 <= cy <= 120,
            -120 <= cz <= 120,
            tc == tile_column(tile as int),
            tr == tile_row(tile as int),
            -8 < tc < 8,
            -16 <= tr < 16,
            normal == face_normal(f as int),
            mesh@ == start + face_vertices(f as int, (cx as int, cy as int, cz as int), tile, occluded@).take(v as int),
        decreases 6 - v,
    {
        let c = face_corner_exec(f, v);
        let u = uv_corner_exec(v);
        let shade = if occluded[v] { Shade::Occluded } else { Shade::Lit };
        let vertex = MeshVertex {
            position: (c.0 + cx, c.1 + cy, c.2 + cz),
            normal,
            shade,
            uv: (u.0 + tc, u.1 + tr),
        };
        proof {
            let fv = face_vertices(f as int, (cx as int, cy as int, cz as int), tile, occluded@);
            assert(vertex == fv[v as int]);
            assert(fv.take(v as int + 1) =~= fv.take(v as int).push(fv[v as int]));
        }
        mesh.push(vertex);
        v = v + 1;
    }
    proof {
        let fv = face_vertices(f as int, (cx as int, cy as int, cz as int), tile, occluded@);
        assert(fv.take(6) =~= fv);
    }
}

} // verus!
