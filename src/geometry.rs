//! The geometry loader: polygon-mesh text (`v`, `vt`, `vn` and `f` records)
//! to a fully expanded triangle list.
use vstd::prelude::*;

use crate::number::{Decimal, decimal_of, flip, integer_of, parse_decimal, parse_integer};
use crate::text::{fields_of, split_bytes, split_fields, split_on, views};

verus! {

#[derive(Clone, Copy, Debug, PartialEq, Eq)]
pub struct Point3 {
    pub x: Decimal,
    pub y: Decimal,
    pub z: Decimal,
}

#[derive(Clone, Copy, Debug, PartialEq, Eq)]
pub struct TexCoord {
    pub u: Decimal,
    pub v: Decimal,
}

/// One corner of a triangle, with everything the shader reads.
#[derive(Clone, Copy, Debug, PartialEq, Eq)]
pub struct Vertex {
    pub pos: Point3,
    pub texture: TexCoord,
    pub normal: Point3,
}

/// One reference of a face record: `pos[/tex[/normal]]`, as written (1-based,
/// or negative for counting from the end).
#[derive(Clone, Copy, Debug, PartialEq, Eq)]
pub struct FaceRef {
    pub pos: i64,
    pub tex: Option<i64>,
    pub normal: Option<i64>,
}

/// A triangle corner still to be resolved, with the line of its face record.
#[derive(Clone, Copy, Debug, PartialEq, Eq)]
pub struct Corner {
    pub refs: FaceRef,
    pub line: usize,
}

/// Why a geometry text could not be loaded. Lines count from 1.
#[derive(Clone, Copy, Debug, PartialEq, Eq)]
pub enum LoadError {
    /// A record on this line is malformed: a field is missing or not a number.
    Parse { line: usize },
    /// A reference of the face on this line names no element.
    IndexOutOfBounds { line: usize },
    /// More triangle corners than 32-bit indices can number.
    TooLarge,
}

/// What the records read so far hold.
pub struct Tables {
    pub positions: Seq<Point3>,
    pub texcoords: Seq<TexCoord>,
    pub normals: Seq<Point3>,
    pub corners: Seq<Corner>,
}

pub open spec fn empty_tables() -> Tables {
    Tables {
        positions: Seq::empty(),
        texcoords: Seq::empty(),
        normals: Seq::empty(),
        corners: Seq::empty(),
    }
}

pub open spec fn zero_decimal() -> Decimal {
    Decimal { mantissa: 0, scale: 0 }
}

pub open spec fn one_decimal() -> Decimal {
    Decimal { mantissa: 1, scale: 0 }
}

/// The texture coordinate of a corner that names none.
pub open spec fn default_texcoord() -> TexCoord {
    TexCoord { u: zero_decimal(), v: zero_decimal() }
}

/// The normal of a corner that names none.
pub open spec fn default_normal() -> Point3 {
    Point3 { x: one_decimal(), y: one_decimal(), z: one_decimal() }
}

/// The three numbers after the record kind.
pub open spec fn point_of(f: Seq<Seq<u8>>) -> Option<Point3> {
    if f.len() < 4 {
        None
    } else {
        match (decimal_of(f[1]), decimal_of(f[2]), decimal_of(f[3])) {
            (Some(x), Some(y), Some(z)) => Some(Point3 { x, y, z }),
            _ => None,
        }
    }
}

/// The two numbers after the record kind, the second one flipped: texture
/// rows count from the top in the file, from the bottom in the image.
pub open spec fn texcoord_of(f: Seq<Seq<u8>>) -> Option<TexCoord> {
    if f.len() < 3 {
        None
    } else {
        match (decimal_of(f[1]), decimal_of(f[2])) {
            (Some(u), Some(v)) => Some(TexCoord { u, v: flip(v) }),
            _ => None,
        }
    }
}

/// An optional index of a face reference: absent or empty gives `Some(None)`.
pub open spec fn index_part(parts: Seq<Seq<u8>>, i: int) -> Option<Option<i64>> {
    if i >= parts.len() || parts[i].len() == 0 {
        Some(None)
    } else {
        match integer_of(parts[i]) {
            Some(v) => Some(Some(v)),
            None => None,
        }
    }
}

/// A face reference `pos`, `pos/tex`, `pos//normal` or `pos/tex/normal`.
pub open spec fn face_ref_of(field: Seq<u8>) -> Option<FaceRef> {
    let parts = split_on(field, 47);
    if parts.len() > 3 {
        None
    } else {
        match (integer_of(parts[0]), index_part(parts, 1), index_part(parts, 2)) {
            (Some(p), Some(t), Some(n)) => Some(FaceRef { pos: p, tex: t, normal: n }),
            _ => None,
        }
    }
}

/// The face references of `fields`, if each one is well formed.
pub open spec fn face_refs_of(fields: Seq<Seq<u8>>) -> Option<Seq<FaceRef>>
    decreases fields.len(),
{
    if fields.len() == 0 {
        Some(Seq::empty())
    } else {
        match (face_refs_of(fields.drop_last()), face_ref_of(fields.last())) {
            (Some(rs), Some(r)) => Some(rs.push(r)),
            _ => None,
        }
    }
}

/// Fan triangulation around the first reference: `(r0, r1, r2), (r0, r2, r3), ...`.
pub open spec fn fan(refs: Seq<FaceRef>) -> Seq<FaceRef> {
    Seq::new(
        (3 * (refs.len() - 2)) as nat,
        |i: int|
            if i % 3 == 0 {
                refs[0]
            } else {
                refs[i / 3 + i % 3]
            },
    )
}

pub open spec fn corners_at(refs: Seq<FaceRef>, line: usize) -> Seq<Corner> {
    Seq::new(refs.len(), |i: int| Corner { refs: refs[i], line })
}

/// The tables after the record with fields `f` on line `line`; `None` where
/// the record is malformed. Blank lines and other kinds change nothing.
pub open spec fn record_step(t: Tables, f: Seq<Seq<u8>>, line: usize) -> Option<Tables> {
    if f.len() == 0 {
        Some(t)
    } else if f[0] == seq![118u8] {
        match point_of(f) {
            Some(p) => Some(Tables { positions: t.positions.push(p), ..t }),
            None => None,
        }
    } else if f[0] == seq![118u8, 116u8] {
        match texcoord_of(f) {
            Some(c) => Some(Tables { texcoords: t.texcoords.push(c), ..t }),
            None => None,
        }
    } else if f[0] == seq![118u8, 110u8] {
        match point_of(f) {
            Some(n) => Some(Tables { normals: t.normals.push(n), ..t }),
            None => None,
        }
    } else if f[0] == seq![102u8] {
        if f.len() < 4 {
            None
        } else {
            match face_refs_of(f.skip(1)) {
                Some(rs) => Some(Tables { corners: t.corners + corners_at(fan(rs), line), ..t }),
                None => None,
            }
        }
    } else {
        Some(t)
    }
}

/// The tables after all of `lines`, or the first malformed line.
pub open spec fn scan_lines(lines: Seq<Seq<u8>>) -> Result<Tables, LoadError>
    decreases lines.len(),
{
    if lines.len() == 0 {
        Ok(empty_tables())
    } else {
        match scan_lines(lines.drop_last()) {
            Err(e) => Err(e),
            Ok(t) => match record_step(t, fields_of(lines.last()), lines.len() as usize) {
                Some(t2) => Ok(t2),
                None => Err(LoadError::Parse { line: lines.len() as usize }),
            },
        }
    }
}

/// A 1-based or negative index into a table of `count` elements, 0-based.
pub open spec fn resolve(idx: i64, count: nat) -> Option<nat> {
    if 0 < idx && idx <= count {
        Some((idx - 1) as nat)
    } else if idx < 0 && count + idx >= 0 {
        Some((count + idx) as nat)
    } else {
        None
    }
}

/// The vertex a face reference names, if each index it holds resolves.
pub open spec fn vertex_of(t: Tables, r: FaceRef) -> Option<Vertex> {
    let tex = match r.tex {
        None => Some(default_texcoord()),
        Some(i) => match resolve(i, t.texcoords.len()) {
            Some(j) => Some(t.texcoords[j as int]),
            None => None,
        },
    };
    let normal = match r.normal {
        None => Some(default_normal()),
        Some(i) => match resolve(i, t.normals.len()) {
            Some(j) => Some(t.normals[j as int]),
            None => None,
        },
    };
    match (resolve(r.pos, t.positions.len()), tex, normal) {
        (Some(p), Some(tx), Some(n)) => Some(
            Vertex { pos: t.positions[p as int], texture: tx, normal: n },
        ),
        _ => None,
    }
}

/// The vertices of the first `n` corners, or the first that does not resolve.
pub open spec fn expand(t: Tables, n: nat) -> Result<Seq<Vertex>, LoadError>
    decreases n,
{
    if n == 0 {
        Ok(Seq::empty())
    } else {
        match expand(t, (n - 1) as nat) {
            Err(e) => Err(e),
            Ok(vs) => match vertex_of(t, t.corners[n - 1].refs) {
                Some(v) => Ok(vs.push(v)),
                None => Err(LoadError::IndexOutOfBounds { line: t.corners[n - 1].line }),
            },
        }
    }
}

/// The vertices that a geometry text describes, one per triangle corner.
pub open spec fn mesh_of(text: Seq<u8>) -> Result<Seq<Vertex>, LoadError> {
    match scan_lines(split_on(text, 10)) {
        Err(e) => Err(e),
        Ok(t) => if t.corners.len() > u32::MAX {
            Err(LoadError::TooLarge)
        } else {
            expand(t, t.corners.len())
        },
    }
}


/// The `t`-th triangle of a triangle list.
pub open spec fn triangle_at<T>(s: Seq<T>, t: int) -> (T, T, T) {
    (s[3 * t], s[3 * t + 1], s[3 * t + 2])
}

/// Fan-triangulates a face of `refs.len()` references into
/// `refs.len() - 2` triangles around the first reference.
pub fn fan_triangulate(refs: &Vec<FaceRef>) -> (r: Vec<FaceRef>)
    requires
        refs@.len() >= 3,
    ensures
        r@ == fan(refs@),
        r@.len() == 3 * (refs@.len() - 2),
        forall|t: int|
            0 <= t < refs@.len() - 2 ==> #[trigger] triangle_at(r@, t) == (
                refs@[0],
                refs@[t + 1],
                refs@[t + 2],
            ),
{
    let n = refs.len();
    let mut r: Vec<FaceRef> = Vec::new();
    let mut t: usize = 0;
    while t + 2 < n
        invariant
            n == refs@.len() >= 3,
            t + 2 <= n,
            r@.len() == 3 * t,
            forall|i: int| 0 <= i < 3 * t ==> #[trigger] r@[i] == fan(refs@)[i],
        decreases n - t,
    {
        r.push(refs[0]);
        r.push(refs[t + 1]);
        r.push(refs[t + 2]);
        proof {
            assert forall|i: int| 0 <= i < 3 * (t + 1) implies #[trigger] r@[i] == fan(refs@)[i] by {
                if i >= 3 * t {
                    assert(i / 3 == t && i % 3 == i - 3 * t);
                }
            }
        }
        t = t + 1;
    }
    proof {
        assert(r@ =~= fan(refs@));
        assert forall|t: int| 0 <= t < refs@.len() - 2 implies #[trigger] triangle_at(r@, t) == (
            refs@[0],
            refs@[t + 1],
            refs@[t + 2],
        ) by {
            assert((3 * t) / 3 == t && (3 * t) % 3 == 0);
            assert((3 * t + 1) / 3 == t && (3 * t + 1) % 3 == 1);
            assert((3 * t + 2) / 3 == t && (3 * t + 2) % 3 == 2);
        }
    }
    r
}

/// Resolves a 1-based or negative index into a table of `count` elements.
pub fn resolve_index(idx: i64, count: usize) -> (r: Option<usize>)
    ensures
        r matches Some(i) ==> resolve(idx, count as nat) == Some(i as nat) && i < count,
        r is None ==> resolve(idx, count as nat) is None,
{
    if 0 < idx && idx as u64 <= count as u64 {
        Some((idx - 1) as usize)
    } else if idx < 0 && (idx as i128) + (count as i128) >= 0 {
        Some(((count as i128) + (idx as i128)) as usize)
    } else {
        None
    }
}


fn parse_index_part(parts: &Vec<Vec<u8>>, i: usize) -> (r: Option<Option<i64>>)
    ensures
        r == index_part(views(parts@), i as int),
{
    if i >= parts.len() || parts[i].len() == 0 {
        Some(None)
    } else {
        match parse_integer(parts[i].as_slice()) {
            Some(v) => Some(Some(v)),
            None => None,
        }
    }
}

/// Reads one face reference (see `face_ref_of`).
pub fn parse_face_ref(field: &[u8]) -> (r: Option<FaceRef>)
    ensures
        r == face_ref_of(field@),
{
    let parts = split_bytes(field, 47);
    proof {
        crate::text::lemma_split_on_nonempty(field@, 47);
    }
    if parts.len() > 3 {
        return None;
    }
    match (
        parse_integer(parts[0].as_slice()),
        parse_index_part(&parts, 1),
        parse_index_part(&parts, 2),
    ) {
        (Some(p), Some(t), Some(n)) => Some(FaceRef { pos: p, tex: t, normal: n }),
        _ => None,
    }
}

/// Reads the face references in the fields after the record kind.
fn parse_face_refs(f: &Vec<Vec<u8>>) -> (r: Option<Vec<FaceRef>>)
    requires
        f@.len() >= 1,
    ensures
        r matches Some(v) ==> face_refs_of(views(f@).skip(1)) == Some(v@) && v@.len() == f@.len()
            - 1,
        r is None ==> face_refs_of(views(f@).skip(1)) is None,
{
    let mut refs: Vec<FaceRef> = Vec::new();
    let mut i: usize = 1;
    proof {
        assert(views(f@).subrange(1, 1) =~= Seq::<Seq<u8>>::empty());
    }
    while i < f.len()
        invariant
            1 <= i <= f@.len(),
            face_refs_of(views(f@).subrange(1, i as int)) == Some(refs@),
            refs@.len() == i - 1,
        decreases f@.len() - i,
    {
        proof {
            assert(views(f@).subrange(1, i + 1).drop_last() =~= views(f@).subrange(1, i as int));
            assert(views(f@).subrange(1, i + 1).last() == f@[i as int]@);
        }
        match parse_face_ref(f[i].as_slice()) {
            Some(r) => refs.push(r),
            None => {
                proof {
                    lemma_face_refs_prefix_fails(views(f@).skip(1), i - 1);
                    assert(views(f@).skip(1).subrange(0, i as int) =~= views(f@).subrange(
                        1,
                        i + 1,
                    ));
                }
                return None;
            },
        }
        i = i + 1;
    }
    proof {
        assert(views(f@).subrange(1, f@.len() as int) =~= views(f@).skip(1));
    }
    Some(refs)
}

/// Where some prefix of the fields fails, all of them fail.
proof fn lemma_face_refs_prefix_fails(fields: Seq<Seq<u8>>, n: int)
    requires
        0 <= n < fields.len(),
        face_refs_of(fields.subrange(0, n + 1)) is None,
    ensures
        face_refs_of(fields) is None,
    decreases fields.len(),
{
    if n + 1 < fields.len() {
        assert(fields.drop_last().subrange(0, n + 1) =~= fields.subrange(0, n + 1));
        lemma_face_refs_prefix_fails(fields.drop_last(), n);
    } else {
        assert(fields.subrange(0, n + 1) =~= fields);
    }
}

fn parse_point(f: &Vec<Vec<u8>>) -> (r: Option<Point3>)
    ensures
        r == point_of(views(f@)),
        r matches Some(p) ==> p.x.wf() && p.y.wf() && p.z.wf(),
{
    if f.len() < 4 {
        return None;
    }
    match (
        parse_decimal(f[1].as_slice()),
        parse_decimal(f[2].as_slice()),
        parse_decimal(f[3].as_slice()),
    ) {
        (Some(x), Some(y), Some(z)) => Some(Point3 { x, y, z }),
        _ => None,
    }
}

fn parse_texcoord(f: &Vec<Vec<u8>>) -> (r: Option<TexCoord>)
    ensures
        r == texcoord_of(views(f@)),
{
    if f.len() < 3 {
        return None;
    }
    match (parse_decimal(f[1].as_slice()), parse_decimal(f[2].as_slice())) {
        (Some(u), Some(v)) => Some(TexCoord { u, v: v.one_minus() }),
        _ => None,
    }
}


/// The tables that the records of a geometry text fill, line by line.
pub struct ObjTables {
    pub positions: Vec<Point3>,
    pub texcoords: Vec<TexCoord>,
    pub normals: Vec<Point3>,
    pub corners: Vec<Corner>,
}

impl View for ObjTables {
    type V = Tables;

    open spec fn view(&self) -> Tables {
        Tables {
            positions: self.positions@,
            texcoords: self.texcoords@,
            normals: self.normals@,
            corners: self.corners@,
        }
    }
}

impl ObjTables {
    pub fn new() -> (r: ObjTables)
        ensures
            r@ == empty_tables(),
    {
        ObjTables {
            positions: Vec::new(),
            texcoords: Vec::new(),
            normals: Vec::new(),
            corners: Vec::new(),
        }
    }

    /// Reads the record with fields `f` on line `line`. A malformed record
    /// leaves the tables as they were.
    pub fn read_record(&mut self, f: &Vec<Vec<u8>>, line: usize) -> (ok: bool)
        ensures
            record_step(old(self)@, views(f@), line) matches Some(t) ==> ok && final(self)@ == t,
            record_step(old(self)@, views(f@), line) is None ==> !ok && final(self)@ == old(
                self,
            )@,
    {
        let ghost fv = views(f@);
        if f.len() == 0 {
            return true;
        }
        let k = &f[0];
        proof {
            assert(fv[0] == k@);
        }
        if k.len() == 1 && k[0] == 118 {
            proof {
                assert(fv[0] =~= seq![118u8]);
            }
            match parse_point(f) {
                Some(p) => {
                    self.positions.push(p);
                    true
                },
                None => false,
            }
        } else if k.len() == 2 && k[0] == 118 && k[1] == 116 {
            proof {
                assert(fv[0] =~= seq![118u8, 116u8]);
                assert(fv[0] != seq![118u8]);
            }
            match parse_texcoord(f) {
                Some(c) => {
                    self.texcoords.push(c);
                    true
                },
                None => false,
            }
        } else if k.len() == 2 && k[0] == 118 && k[1] == 110 {
            proof {
                assert(fv[0] =~= seq![118u8, 110u8]);
                assert(fv[0] != seq![118u8]);
                assert(fv[0] != seq![118u8, 116u8]);
            }
            match parse_point(f) {
                Some(n) => {
                    self.normals.push(n);
                    true
                },
                None => false,
            }
        } else if k.len() == 1 && k[0] == 102 {
            proof {
                assert(fv[0] =~= seq![102u8]);
                assert(fv[0] != seq![118u8]);
                assert(fv[0] != seq![118u8, 116u8]);
                assert(fv[0] != seq![118u8, 110u8]);
            }
            if f.len() < 4 {
                return false;
            }
            match parse_face_refs(f) {
                Some(refs) => {
                    let tris = fan_triangulate(&refs);
                    let ghost before = self.corners@;
                    let mut j: usize = 0;
                    while j < tris.len()
                        invariant
                            j <= tris@.len(),
                            self.corners@ == before + corners_at(tris@.take(j as int), line),
                            self.positions@ == old(self).positions@,
                            self.texcoords@ == old(self).texcoords@,
                            self.normals@ == old(self).normals@,
                        decreases tris@.len() - j,
                    {
                        self.corners.push(Corner { refs: tris[j], line });
                        proof {
                            assert(corners_at(tris@.take(j + 1), line) =~= corners_at(
                                tris@.take(j as int),
                                line,
                            ).push(Corner { refs: tris@[j as int], line }));
                        }
                        j = j + 1;
                    }
                    proof {
                        assert(tris@.take(tris@.len() as int) =~= tris@);
                    }
                    true
                },
                None => false,
            }
        } else {
            proof {
                if fv[0] == seq![118u8] || fv[0] == seq![102u8] {
                    assert(fv[0].len() == 1 && fv[0][0] == k@[0]);
                }
                if fv[0] == seq![118u8, 116u8] || fv[0] == seq![118u8, 110u8] {
                    assert(fv[0].len() == 2 && fv[0][0] == k@[0] && fv[0][1] == k@[1]);
                }
            }
            true
        }
    }

    /// The vertex that `c` names (see `vertex_of`).
    pub fn resolve_corner(&self, c: FaceRef) -> (r: Option<Vertex>)
        ensures
            r == vertex_of(self@, c),
    {
        let tex = match c.tex {
            None => Some(TexCoord { u: Decimal::zero(), v: Decimal::zero() }),
            Some(i) => match resolve_index(i, self.texcoords.len()) {
                Some(j) => Some(self.texcoords[j]),
                None => None,
            },
        };
        let normal = match c.normal {
            None => Some(Point3 { x: Decimal::one(), y: Decimal::one(), z: Decimal::one() }),
            Some(i) => match resolve_index(i, self.normals.len()) {
                Some(j) => Some(self.normals[j]),
                None => None,
            },
        };
        match (resolve_index(c.pos, self.positions.len()), tex, normal) {
            (Some(p), Some(tx), Some(n)) => Some(
                Vertex { pos: self.positions[p], texture: tx, normal: n },
            ),
            _ => None,
        }
    }
}


/// A 2D image, four bytes (blue, green, red, alpha) per pixel, row by row.
#[derive(Debug, PartialEq, Eq)]
pub struct Texture {
    pub width: u32,
    pub height: u32,
    pub pixels: Vec<u8>,
}

impl Texture {
    pub open spec fn wf(&self) -> bool {
        self.pixels@.len() == 4 * self.width * self.height
    }

    /// One opaque white pixel, bound where a model comes without a texture.
    pub fn placeholder() -> (r: Texture)
        ensures
            r.wf(),
            r.width == 1,
            r.height == 1,
            r.pixels@ == seq![255u8, 255u8, 255u8, 255u8],
    {
        let pixels: Vec<u8> = vec![255, 255, 255, 255];
        Texture { width: 1, height: 1, pixels }
    }

    /// The texture to bind: the given one, else the placeholder.
    pub fn or_placeholder(texture: Option<Texture>) -> (r: Texture)
        ensures
            texture matches Some(t) ==> r == t,
            texture is None ==> r.width == 1 && r.height == 1 && r.pixels@ == seq![
                255u8,
                255u8,
                255u8,
                255u8,
            ],
    {
        match texture {
            Some(t) => t,
            None => Texture::placeholder(),
        }
    }
}

/// A loaded model: one vertex per triangle corner, the trivial index list
/// `0, 1, ..., n - 1`, and its texture if it has one.
pub struct Obj {
    pub vertices: Vec<Vertex>,
    pub indices: Vec<u32>,
    pub texture: Option<Texture>,
}

/// `0, 1, ..., n - 1`.
pub open spec fn identity_indices(n: nat) -> Seq<u32> {
    Seq::new(n, |i: int| i as u32)
}

proof fn lemma_scan_error_stays(lines: Seq<Seq<u8>>, n: int, e: LoadError)
    requires
        0 <= n <= lines.len(),
        scan_lines(lines.take(n)) == Err::<Tables, LoadError>(e),
    ensures
        scan_lines(lines) == Err::<Tables, LoadError>(e),
    decreases lines.len(),
{
    if n < lines.len() {
        assert(lines.drop_last().take(n) =~= lines.take(n));
        lemma_scan_error_stays(lines.drop_last(), n, e);
    } else {
        assert(lines.take(n) =~= lines);
    }
}

proof fn lemma_expand_error_stays(t: Tables, k: nat, m: nat, e: LoadError)
    requires
        k <= m,
        expand(t, k) == Err::<Seq<Vertex>, LoadError>(e),
    ensures
        expand(t, m) == Err::<Seq<Vertex>, LoadError>(e),
    decreases m,
{
    if k < m {
        lemma_expand_error_stays(t, k, (m - 1) as nat, e);
    }
}

impl Obj {
    /// Loads a model from geometry text (see `mesh_of`): each triangle corner
    /// becomes a vertex of its own, and the indices are `0..n`.
    pub fn new(text: &[u8], texture: Option<Texture>) -> (r: Result<Obj, LoadError>)
        ensures
            mesh_of(text@) matches Ok(vs) ==> r matches Ok(o) && o.vertices@ == vs
                && o.indices@ == identity_indices(vs.len()) && o.texture == texture,
            mesh_of(text@) matches Err(e) ==> r == Err::<Obj, LoadError>(e),
    {
        let lines = split_bytes(text, 10);
        let ghost lv = views(lines@);
        let mut t = ObjTables::new();
        let mut i: usize = 0;
        proof {
            assert(lv.take(0) =~= Seq::<Seq<u8>>::empty());
        }
        while i < lines.len()
            invariant
                i <= lines@.len(),
                lv == views(lines@),
                lv == split_on(text@, 10),
                scan_lines(lv.take(i as int)) == Ok::<Tables, LoadError>(t@),
            decreases lines@.len() - i,
        {
            let f = split_fields(lines[i].as_slice());
            proof {
                assert(lv.take(i + 1).drop_last() =~= lv.take(i as int));
                assert(lv.take(i + 1).last() == lines@[i as int]@);
            }
            if !t.read_record(&f, i + 1) {
                proof {
                    lemma_scan_error_stays(lv, i + 1, LoadError::Parse { line: (i + 1) as usize });
                }
                return Err(LoadError::Parse { line: i + 1 });
            }
            i = i + 1;
        }
        proof {
            assert(lv.take(lv.len() as int) =~= lv);
        }
        let n = t.corners.len();
        if n > 4294967295 {
            return Err(LoadError::TooLarge);
        }
        let mut vertices: Vec<Vertex> = Vec::new();
        let mut k: usize = 0;
        while k < n
            invariant
                k <= n == t.corners@.len() <= u32::MAX,
                scan_lines(split_on(text@, 10)) == Ok::<Tables, LoadError>(t@),
                expand(t@, k as nat) == Ok::<Seq<Vertex>, LoadError>(vertices@),
                vertices@.len() == k,
            decreases n - k,
        {
            let c = t.corners[k];
            match t.resolve_corner(c.refs) {
                Some(v) => vertices.push(v),
                None => {
                    proof {
                        lemma_expand_error_stays(
                            t@,
                            (k + 1) as nat,
                            n as nat,
                            LoadError::IndexOutOfBounds { line: c.line },
                        );
                    }
                    return Err(LoadError::IndexOutOfBounds { line: c.line });
                },
            }
            k = k + 1;
        }
        let mut indices: Vec<u32> = Vec::new();
        let mut j: usize = 0;
        while j < n
            invariant
                j <= n <= u32::MAX,
                n == t.corners@.len(),
                scan_lines(split_on(text@, 10)) == Ok::<Tables, LoadError>(t@),
                expand(t@, n as nat) == Ok::<Seq<Vertex>, LoadError>(vertices@),
                vertices@.len() == n,
                indices@ == identity_indices(j as nat),
            decreases n - j,
        {
            indices.push(j as u32);
            proof {
                assert(indices@ =~= identity_indices((j + 1) as nat));
            }
            j = j + 1;
        }
        Ok(Obj { vertices, indices, texture })
    }
}


/// A face record with `k >= 3` well-formed references adds exactly `k - 2`
/// triangles (`3(k - 2)` corners) to the corners read before it, each
/// anchored at the first reference, in the order of the references.
pub proof fn face_record_adds_fan(t: Tables, f: Seq<Seq<u8>>, line: usize)
    requires
        f.len() >= 4,
        f[0] == seq![102u8],
        face_refs_of(f.skip(1)) is Some,
    ensures
        ({
            let rs = face_refs_of(f.skip(1)).unwrap();
            let added = (3 * (f.len() - 3)) as nat;
            &&& rs.len() == f.len() - 1
            &&& record_step(t, f, line) matches Some(t2) && t2.corners.len() == t.corners.len()
                + added && t2.corners.subrange(0, t.corners.len() as int) == t.corners && (forall|
                tri: int|
                0 <= tri < f.len() - 3 ==> #[trigger] triangle_at(
                    t2.corners.subrange(t.corners.len() as int, t2.corners.len() as int),
                    tri,
                ) == (
                    Corner { refs: rs[0], line },
                    Corner { refs: rs[tri + 1], line },
                    Corner { refs: rs[tri + 2], line },
                ))
        }),
{
    let rs = face_refs_of(f.skip(1)).unwrap();
    lemma_face_refs_len(f.skip(1));
    assert(f[0] != seq![118u8]) by {
        assert(f[0][0] != seq![118u8][0]);
    }
    assert(f[0] != seq![118u8, 116u8]);
    assert(f[0] != seq![118u8, 110u8]);
    let t2 = record_step(t, f, line).unwrap();
    let added = corners_at(fan(rs), line);
    assert(t2.corners == t.corners + added);
    assert(t2.corners.subrange(t.corners.len() as int, t2.corners.len() as int) =~= added);
    assert(t2.corners.subrange(0, t.corners.len() as int) =~= t.corners);
    assert forall|tri: int| 0 <= tri < f.len() - 3 implies #[trigger] triangle_at(added, tri) == (
        Corner { refs: rs[0], line },
        Corner { refs: rs[tri + 1], line },
        Corner { refs: rs[tri + 2], line },
    ) by {
        assert((3 * tri) / 3 == tri && (3 * tri) % 3 == 0);
        assert((3 * tri + 1) / 3 == tri && (3 * tri + 1) % 3 == 1);
        assert((3 * tri + 2) / 3 == tri && (3 * tri + 2) % 3 == 2);
    }
}

proof fn lemma_face_refs_len(fields: Seq<Seq<u8>>)
    requires
        face_refs_of(fields) is Some,
    ensures
        face_refs_of(fields).unwrap().len() == fields.len(),
    decreases fields.len(),
{
    if fields.len() > 0 {
        lemma_face_refs_len(fields.drop_last());
    }
}

/// A negative index `k` names element `count + k`, the same element as the
/// 1-based index `count + k + 1`; for a face reference, both give the same
/// vertex.
pub proof fn negative_index_is_from_end(t: Tables, r: FaceRef)
    requires
        r.pos < 0,
        t.positions.len() + r.pos >= 0,
        t.positions.len() + r.pos + 1 <= i64::MAX,
    ensures
        resolve(r.pos, t.positions.len()) == Some((t.positions.len() + r.pos) as nat),
        resolve((t.positions.len() + r.pos + 1) as i64, t.positions.len()) == resolve(
            r.pos,
            t.positions.len(),
        ),
        vertex_of(t, r) == vertex_of(
            t,
            FaceRef { pos: (t.positions.len() + r.pos + 1) as i64, ..r },
        ),
{
}

/// A corner that names no texture coordinate (`p` or `p//n`) gets `(0, 0)`.
pub proof fn missing_texcoord_is_zero(t: Tables, r: FaceRef)
    requires
        r.tex is None,
    ensures
        vertex_of(t, r) matches Some(v) ==> v.texture == default_texcoord(),
{
}

/// The corners that the face records among `lines` add: `3(k - 2)` for a
/// face of `k` references.
pub open spec fn face_corners(lines: Seq<Seq<u8>>) -> nat
    decreases lines.len(),
{
    if lines.len() == 0 {
        0
    } else {
        let f = fields_of(lines.last());
        face_corners(lines.drop_last()) + if f.len() >= 4 && f[0] == seq![102u8] {
            (3 * (f.len() - 3)) as nat
        } else {
            0nat
        }
    }
}

proof fn lemma_scan_counts_corners(lines: Seq<Seq<u8>>)
    ensures
        scan_lines(lines) matches Ok(t) ==> t.corners.len() == face_corners(lines),
    decreases lines.len(),
{
    if lines.len() > 0 {
        lemma_scan_counts_corners(lines.drop_last());
        let f = fields_of(lines.last());
        if let Ok(t) = scan_lines(lines.drop_last()) {
            if f.len() > 0 {
                if f[0] == seq![102u8] {
                    assert(f[0] != seq![118u8]) by {
                        assert(f[0][0] != seq![118u8][0]);
                    }
                    assert(f[0] != seq![118u8, 116u8]);
                    assert(f[0] != seq![118u8, 110u8]);
                    if f.len() >= 4 && face_refs_of(f.skip(1)) is Some {
                        lemma_face_refs_len(f.skip(1));
                    }
                } else if f[0] == seq![118u8, 116u8] || f[0] == seq![118u8, 110u8] {
                    assert(f[0].len() == 2);
                    assert(f[0] != seq![118u8]) by {
                        assert(seq![118u8].len() == 1);
                    }
                }
            }
        }
    }
}

proof fn lemma_expand_vertices(t: Tables, n: nat)
    ensures
        expand(t, n) matches Ok(vs) ==> vs.len() == n && forall|i: int|
            0 <= i < n ==> vertex_of(t, #[trigger] t.corners[i].refs) == Some(vs[i]),
    decreases n,
{
    if n > 0 {
        lemma_expand_vertices(t, (n - 1) as nat);
    }
}

/// Over a whole geometry text that loads: every face record of `k`
/// references gives exactly `k - 2` triangles, so there are as many vertices
/// as `face_corners` counts; vertex `i` is what corner `i` names, the corners
/// being the faces' fans in file order; and a corner without a texture index
/// (`p` or `p//n`) has texture coordinate `(0, 0)`.
pub proof fn loaded_vertices_follow_faces(text: Seq<u8>)
    ensures
        mesh_of(text) matches Ok(vs) ==> vs.len() == face_corners(split_on(text, 10)),
        mesh_of(text) matches Ok(vs) ==> scan_lines(split_on(text, 10)) matches Ok(t) && (
        forall|i: int|
            0 <= i < vs.len() ==> vertex_of(t, #[trigger] t.corners[i].refs) == Some(vs[i])
                && (t.corners[i].refs.tex is None ==> vs[i].texture == default_texcoord())),
{
    let lines = split_on(text, 10);
    lemma_scan_counts_corners(lines);
    if let Ok(t) = scan_lines(lines) {
        lemma_expand_vertices(t, t.corners.len());
        if let Ok(vs) = mesh_of(text) {
            assert forall|i: int| 0 <= i < vs.len() implies vertex_of(
                t,
                #[trigger] t.corners[i].refs,
            ) == Some(vs[i]) && (t.corners[i].refs.tex is None ==> vs[i].texture
                == default_texcoord()) by {
                if t.corners[i].refs.tex is None {
                    missing_texcoord_is_zero(t, t.corners[i].refs);
                }
            }
        }
    }
}

/// A negative texture index `k` names the same texture coordinate as the
/// 1-based index `count + k + 1`.
pub proof fn negative_texcoord_index_is_from_end(t: Tables, r: FaceRef, k: i64)
    requires
        r.tex == Some(k),
        k < 0,
        t.texcoords.len() + k >= 0,
        t.texcoords.len() + k + 1 <= i64::MAX,
    ensures
        resolve(k, t.texcoords.len()) == Some((t.texcoords.len() + k) as nat),
        vertex_of(t, r) == vertex_of(
            t,
            FaceRef { tex: Some((t.texcoords.len() + k + 1) as i64), ..r },
        ),
{
}

/// A negative normal index `k` names the same normal as the 1-based index
/// `count + k + 1`.
pub proof fn negative_normal_index_is_from_end(t: Tables, r: FaceRef, k: i64)
    requires
        r.normal == Some(k),
        k < 0,
        t.normals.len() + k >= 0,
        t.normals.len() + k + 1 <= i64::MAX,
    ensures
        resolve(k, t.normals.len()) == Some((t.normals.len() + k) as nat),
        vertex_of(t, r) == vertex_of(
            t,
            FaceRef { normal: Some((t.normals.len() + k + 1) as i64), ..r },
        ),
{
}

} // verus!
