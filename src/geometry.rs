//! Triangle indices of a subdivided icosahedron. Each of the twenty faces is
//! cut into rows: row `r` (from 1) holds `r + 1` vertices, the apex row 0
//! holds one, and the vertices of a face are numbered row by row after
//! those of the faces before it. Positions are left to the caller.
use vstd::prelude::*;

verus! {

/// How new vertices are placed between the corners of a face.
#[derive(Debug, Clone, Copy, PartialEq, Eq, Structural)]
pub enum SubdivisionMethod {
    /// Straight-line interpolation, then projection onto the sphere.
    Lerp,
    /// Interpolation along great circles.
    Slerp,
}

/// A sphere made by cutting each face of an icosahedron into
/// `subdivisions` rows of triangles.
#[derive(Debug, Clone, Copy, PartialEq, Eq, Structural)]
pub struct Geodesic {
    pub subdivisions: usize,
    pub method: SubdivisionMethod,
}

/// The number of faces of an icosahedron.
pub const ICOSAHEDRON_FACES: usize = 20;

/// The number of vertices in rows `0..r` of a face: `r * (r + 1) / 2`.
pub open spec fn row_start(r: nat) -> nat
    decreases r,
{
    if r == 0 {
        0
    } else {
        row_start((r - 1) as nat) + r
    }
}

/// One corner of the triangle `(a, b, c)`, taken the other way round
/// (`(a, c, b)`) where `flip` holds.
pub open spec fn corner(a: int, b: int, c: int, k: int, flip: bool) -> int {
    if k == 0 {
        a
    } else if k == 1 {
        if flip { c } else { b }
    } else {
        if flip { b } else { c }
    }
}

/// Entry `k` of the indices for row `r`, whose previous row starts at
/// vertex `last` and which itself starts at `last + r`: first the `r`
/// triangles that point up, `(this + i, last + i, this + i + 1)`, then the
/// `r - 1` that point down, `(last + i, last + i + 1, this + i + 1)`.
pub open spec fn row_entry(last: int, r: int, k: int, flip: bool) -> int {
    let this = last + r;
    if k < 3 * r {
        let i = k / 3;
        corner(this + i, last + i, this + i + 1, k % 3, flip)
    } else {
        let i = (k - 3 * r) / 3;
        corner(last + i, last + i + 1, this + i + 1, (k - 3 * r) % 3, flip)
    }
}

/// The indices of row `r >= 1`.
pub open spec fn row_indices(last: int, r: nat, flip: bool) -> Seq<int> {
    Seq::new((6 * r - 3) as nat, |k: int| row_entry(last, r as int, k, flip))
}

/// The indices of rows `1..=rows` of the face whose apex is vertex `base`.
pub open spec fn face_indices(base: int, rows: nat, flip: bool) -> Seq<int>
    decreases rows,
{
    if rows == 0 {
        Seq::empty()
    } else {
        face_indices(base, (rows - 1) as nat, flip) + row_indices(base + row_start((rows - 1) as nat), rows, flip)
    }
}

/// The indices of the first `faces` faces, each cut into `s` rows.
pub open spec fn mesh_indices(faces: nat, s: nat, flip: bool) -> Seq<int>
    decreases faces,
{
    if faces == 0 {
        Seq::empty()
    } else {
        mesh_indices((faces - 1) as nat, s, flip) + face_indices((faces - 1) * row_start(s + 1), s, flip)
    }
}

/// The values of a list of 16-bit indices.
pub open spec fn index_values(v: Seq<u16>) -> Seq<int> {
    v.map_values(|x: u16| x as int)
}

proof fn lemma_row_start_closed(r: nat)
    ensures
        2 * row_start(r) == r * (r + 1),
    decreases r,
{
    if r > 0 {
        lemma_row_start_closed((r - 1) as nat);
        assert(2 * row_start(r) == (r - 1) * r + 2 * r);
        assert((r - 1) * r + 2 * r == r * (r + 1)) by (nonlinear_arith);
    } else {
        assert(r * (r + 1) == 0) by (nonlinear_arith)
            requires
                r == 0,
        ;
    }
}

proof fn lemma_row_start_grows(a: nat, b: nat)
    requires
        a <= b,
    ensures
        row_start(a) <= row_start(b),
    decreases b - a,
{
    if a < b {
        lemma_row_start_grows(a, (b - 1) as nat);
    }
}

proof fn lemma_face_len(base: int, rows: nat, flip: bool)
    ensures
        face_indices(base, rows, flip).len() == 3 * rows * rows,
    decreases rows,
{
    if rows > 0 {
        lemma_face_len(base, (rows - 1) as nat, flip);
        assert(3 * (rows - 1) * (rows - 1) + (6 * rows - 3) == 3 * rows * rows) by (nonlinear_arith);
    } else {
        assert(3 * rows * rows == 0) by (nonlinear_arith)
            requires
                rows == 0,
        ;
    }
}

/// A mesh of `faces` faces cut into `s` rows holds `3 * s * s` indices per
/// face: `s * s` triangles.
pub proof fn lemma_mesh_len(faces: nat, s: nat, flip: bool)
    ensures
        mesh_indices(faces, s, flip).len() == faces * (3 * s * s),
    decreases faces,
{
    if faces > 0 {
        lemma_mesh_len((faces - 1) as nat, s, flip);
        lemma_face_len((faces - 1) * row_start(s + 1), s, flip);
        assert((faces - 1) * (3 * s * s) + 3 * s * s == faces * (3 * s * s)) by (nonlinear_arith);
    } else {
        assert(faces * (3 * s * s) == 0) by (nonlinear_arith)
            requires
                faces == 0,
        ;
    }
}

/// Every entry of row `r` lies between `last` and `last + 2 * r`.
proof fn lemma_row_entry_bounds(last: int, r: int, k: int, flip: bool)
    requires
        r >= 1,
        0 <= k < 6 * r - 3,
    ensures
        last <= row_entry(last, r, k, flip) <= last + 2 * r,
{
    if k < 3 * r {
        let i = k / 3;
        assert(0 <= i < r);
    } else {
        let i = (k - 3 * r) / 3;
        assert(0 <= i < r - 1);
    }
}

/// The indices of every triangle of a geodesic sphere with `s` rows per
/// face, wound the other way where `flip` holds; `None` where the vertices
/// number more than 16-bit indices reach.
pub fn subdivided_indices(s: usize, flip: bool) -> (r: Option<Vec<u16>>)
    ensures
        (s == 0 || 20 * row_start(s as nat + 1) <= 65536) ==> (r matches Some(v) && index_values(v@) == mesh_indices(20, s as nat, flip)),
        !(s == 0 || 20 * row_start(s as nat + 1) <= 65536) ==> r is None,
{
    if s > 255 {
        proof {
            lemma_row_start_grows(256, s as nat + 1);
            lemma_row_start_closed(256);
        }
        return None;
    }
    proof {
        lemma_row_start_closed(s as nat + 1);
        assert((s + 1) * (s + 2) <= 256 * 257) by (nonlinear_arith)
            requires
                s <= 255,
        ;
    }
    let v: usize = (s + 1) * (s + 2) / 2;
    assert(v == row_start(s as nat + 1));
    if s > 0 && 20 * v > 65536 {
        return None;
    }
    assert(v <= 65536) by {
        if s == 0 {
            assert(row_start(0) == 0);
            assert(row_start(1) == 1);
        }
    }
    let mut out: Vec<u16> = Vec::new();
    let mut f: usize = 0;
    while f < ICOSAHEDRON_FACES
        invariant
            s <= 255,
            v == row_start(s as nat + 1),
            s == 0 || 20 * v <= 65536,
            v <= 65536,
            f <= 20,
            index_values(out@) == mesh_indices(f as nat, s as nat, flip),
        decreases 20 - f,
    {
        assert(f * v <= 19 * v) by (nonlinear_arith)
            requires
                f <= 19,
                v >= 0,
        ;
        let base: usize = f * v;
        let ghost before_face = index_values(out@);
        let mut r: usize = 1;
        while r <= s
            invariant
                s <= 255,
                v == row_start(s as nat + 1),
                s == 0 || 20 * v <= 65536,
                f < 20,
                base == f * v,
                base <= 19 * v,
                1 <= r <= s + 1,
                before_face == mesh_indices(f as nat, s as nat, flip),
                index_values(out@) == before_face + face_indices(base as int, (r - 1) as nat, flip),
            decreases s + 1 - r,
        {
            proof {
                lemma_row_start_closed((r - 1) as nat);
                lemma_row_start_grows(r as nat + 1, s as nat + 1);
                assert(row_start(r as nat + 1) == row_start(r as nat) + r + 1);
                assert(row_start(r as nat) == row_start((r - 1) as nat) + r);
                assert((r - 1) * r <= 255 * 256) by (nonlinear_arith)
                    requires
                        r <= 255,
                        r >= 1,
                ;
            }
            let last: usize = base + (r - 1) * r / 2;
            assert(last == base + row_start((r - 1) as nat));
            let len: usize = 6 * r - 3;
            let ghost before_row = index_values(out@);
            let mut k: usize = 0;
            while k < len
                invariant
                    s <= 255,
                    v == row_start(s as nat + 1),
                    s == 0 || 20 * v <= 65536,
                    base <= 19 * v,
                    1 <= r <= s,
                    last == base + row_start((r - 1) as nat),
                    last + 2 * r == base + row_start(r as nat + 1) - 1,
                    row_start(r as nat + 1) <= v,
                    len == 6 * r - 3,
                    k <= len,
                    index_values(out@) == before_row + row_indices(last as int, r as nat, flip).take(k as int),
                decreases len - k,
            {
                let this = last + r;
                let x: usize = if k < 3 * r {
                    let i = k / 3;
                    let c = k % 3;
                    if c == 0 {
                        this + i
                    } else if (c == 1) != flip {
                        last + i
                    } else {
                        this + i + 1
                    }
                } else {
                    let i = (k - 3 * r) / 3;
                    let c = (k - 3 * r) % 3;
                    if c == 0 {
                        last + i
                    } else if (c == 1) != flip {
                        last + i + 1
                    } else {
                        this + i + 1
                    }
                };
                proof {
                    lemma_row_entry_bounds(last as int, r as int, k as int, flip);
                    assert(x == row_entry(last as int, r as int, k as int, flip));
                    assert(x <= 65535);
                }
                let ghost prev = out@;
                out.push(x as u16);
                proof {
                    let rs = row_indices(last as int, r as nat, flip);
                    assert(index_values(out@) =~= index_values(prev).push(x as int));
                    assert(rs.take(k as int + 1) =~= rs.take(k as int).push(rs[k as int]));
                }
                k = k + 1;
            }
            proof {
                let rs = row_indices(last as int, r as nat, flip);
                assert(rs.take(len as int) =~= rs);
                assert(face_indices(base as int, r as nat, flip) == face_indices(base as int, (r - 1) as nat, flip) + rs);
                assert(index_values(out@) =~= before_face + face_indices(base as int, r as nat, flip));
            }
            r = r + 1;
        }
        proof {
            assert(mesh_indices(f as nat + 1, s as nat, flip) == mesh_indices(f as nat, s as nat, flip) + face_indices(base as int, s as nat, flip));
        }
        f = f + 1;
    }
    Some(out)
}

impl Geodesic {
    /// The triangle indices of this sphere's mesh, or `None` where its
    /// vertices number more than 16-bit indices reach.
    pub fn indices(&self) -> (r: Option<Vec<u16>>)
        ensures
            (self.subdivisions == 0 || 20 * row_start(self.subdivisions as nat + 1) <= 65536) ==> (r matches Some(v) && index_values(v@) == mesh_indices(20, self.subdivisions as nat, false)),
            !(self.subdivisions == 0 || 20 * row_start(self.subdivisions as nat + 1) <= 65536) ==> r is None,
    {
        subdivided_indices(self.subdivisions, false)
    }
}

} // verus!
