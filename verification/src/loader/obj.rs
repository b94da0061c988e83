//! The reader of meshes and their materials: what each line of a file
//! is, what a face names, and where things are looked up.

use vstd::prelude::*;
use vstd::string::{StrSliceExecFns, StringExecFns};
use crate::scene::Material;
use crate::texture::Texture;

verus! {

/// One face of a mesh: for each of its three corners, the places of the
/// corner's position, texture coordinate and normal in the vertex buffer,
/// counted from zero; and the place of its material.
#[derive(Clone, Copy, Debug)]
pub struct Triangle {
    pub positions: [usize; 3],
    pub tex_coords: [usize; 3],
    pub normals: [usize; 3],
    pub material_id: usize,
}

/// The positions, texture coordinates and normals that the faces of a
/// mesh point into, as order keys.
#[derive(Debug)]
pub struct VertexBuffer {
    pub positions: Vec<[i32; 3]>,
    pub tex_coords: Vec<[i32; 2]>,
    pub normals: Vec<[i32; 3]>,
}

/// A mesh as its file gives it.
#[derive(Debug)]
pub struct OBJ {
    pub tris: Vec<Triangle>,
    pub vertex_buffer: VertexBuffer,
    pub materials: Vec<Material>,
    pub textures: Vec<Texture>,
}

/// A face line that cannot be read.
#[derive(Debug, PartialEq, Eq)]
pub struct ParseObjTriangleError;

/// A face as plain sequences.
pub struct Face {
    pub positions: Seq<usize>,
    pub tex_coords: Seq<usize>,
    pub normals: Seq<usize>,
    pub material_id: usize,
}

impl View for Triangle {
    type V = Face;

    open spec fn view(&self) -> Face {
        Face {
            positions: self.positions@,
            tex_coords: self.tex_coords@,
            normals: self.normals@,
            material_id: self.material_id,
        }
    }
}

/// White space: what separates the corners of a face.
pub open spec fn is_space(c: char) -> bool {
    ||| c == ' '
    ||| '\t' <= c <= '\r'
    ||| c == '\u{85}'
    ||| c == '\u{A0}'
    ||| c == '\u{1680}'
    ||| '\u{2000}' <= c <= '\u{200A}'
    ||| c == '\u{2028}'
    ||| c == '\u{2029}'
    ||| c == '\u{202F}'
    ||| c == '\u{205F}'
    ||| c == '\u{3000}'
}

/// Says whether `c` is white space.
pub fn space(c: char) -> (r: bool)
    ensures
        r == is_space(c),
{
    c == ' ' || ('\t' <= c && c <= '\r') || c == '\u{85}' || c == '\u{A0}' || c == '\u{1680}' || (
    '\u{2000}' <= c && c <= '\u{200A}') || c == '\u{2028}' || c == '\u{2029}' || c == '\u{202F}'
        || c == '\u{205F}' || c == '\u{3000}'
}

/// The number that a run of decimal digits writes.
pub open spec fn digits_value(s: Seq<char>) -> int
    decreases s.len(),
{
    if s.len() == 0 {
        0
    } else {
        10 * digits_value(s.drop_last()) + (s.last() as int - 48)
    }
}

/// Every character is a decimal digit.
pub open spec fn all_digits(s: Seq<char>) -> bool {
    forall|i: int| 0 <= i < s.len() ==> '0' <= #[trigger] s[i] <= '9'
}

/// The place that an index names: the index is a run of decimal digits,
/// with a plus sign before it or not, that writes a number from 1 up to
/// the largest signed 32-bit number; the place is that number less one.
pub open spec fn index_of(part: Seq<char>) -> Option<usize> {
    let body = if part.len() > 0 && part[0] == '+' {
        part.skip(1)
    } else {
        part
    };
    if body.len() > 0 && all_digits(body) && 1 <= digits_value(body) <= i32::MAX {
        Some((digits_value(body) - 1) as usize)
    } else {
        None
    }
}

/// More digits never write a smaller number.
pub proof fn lemma_digits_grow(s: Seq<char>, k: int)
    requires
        all_digits(s),
        0 <= k <= s.len(),
    ensures
        0 <= digits_value(s.take(k)) <= digits_value(s),
    decreases s.len() - k,
{
    if k == s.len() {
        assert(s.take(k) =~= s);
        lemma_digits_nonneg(s);
    } else {
        lemma_digits_grow(s, k + 1);
        assert(s.take(k + 1).drop_last() =~= s.take(k));
        assert(s.take(k + 1).last() == s[k]);
        lemma_digits_nonneg(s.take(k));
    }
}

/// Digits write a number that is not negative.
pub proof fn lemma_digits_nonneg(s: Seq<char>)
    requires
        all_digits(s),
    ensures
        0 <= digits_value(s),
    decreases s.len(),
{
    if s.len() > 0 {
        assert forall|i: int| 0 <= i < s.drop_last().len() implies '0' <= #[trigger] s.drop_last()[i]
            <= '9' by {
            assert(s.drop_last()[i] == s[i]);
        }
        lemma_digits_nonneg(s.drop_last());
    }
}

/// Reads the index written in `t[from..to]`.
pub fn read_index(t: &Vec<char>, from: usize, to: usize) -> (place: Option<usize>)
    requires
        from <= to <= t@.len(),
    ensures
        place == index_of(t@.subrange(from as int, to as int)),
{
    let ghost part = t@.subrange(from as int, to as int);
    let start: usize = if from < to && t[from] == '+' {
        from + 1
    } else {
        from
    };
    let ghost body = t@.subrange(start as int, to as int);
    let ghost inner = if part.len() > 0 && part[0] == '+' {
        part.skip(1)
    } else {
        part
    };
    proof {
        if start == from {
            assert(body =~= part);
        } else {
            assert(part[0] == '+');
            assert(body =~= part.skip(1));
        }
        assert(inner == body);
    }
    if start == to {
        return None;
    }
    let mut value: u64 = 0;
    let mut k: usize = start;
    proof {
        assert(body.take(0) =~= Seq::<char>::empty());
    }
    while k < to
        invariant
            start <= k <= to <= t@.len(),
            body == t@.subrange(start as int, to as int),
            part == t@.subrange(from as int, to as int),
            inner == body,
            inner == (if part.len() > 0 && part[0] == '+' {
                part.skip(1)
            } else {
                part
            }),
            all_digits(body.take(k - start)),
            value == digits_value(body.take(k - start)),
            value <= i32::MAX,
        decreases to - k,
    {
        let c = t[k];
        proof {
            assert(body.take(k - start + 1).drop_last() =~= body.take(k - start));
            assert(body.take(k - start + 1).last() == c);
            assert(body[k - start] == c);
        }
        if !('0' <= c && c <= '9') {
            proof {
                assert(!all_digits(body));
            }
            return None;
        }
        let digit: u64 = (c as u32 - 48) as u64;
        let next: u64 = 10 * value + digit;
        proof {
            assert forall|i: int| 0 <= i < body.take(k - start + 1).len() implies '0'
                <= #[trigger] body.take(k - start + 1)[i] <= '9' by {
                if i < k - start {
                    assert(body.take(k - start)[i] == body.take(k - start + 1)[i]);
                }
            }
        }
        if next > 0x7FFF_FFFF {
            proof {
                if all_digits(body) {
                    lemma_digits_grow(body, k - start + 1);
                }
            }
            return None;
        }
        value = next;
        k += 1;
    }
    proof {
        assert(body.take(to - start) =~= body);
    }
    if value < 1 {
        None
    } else {
        Some((value - 1) as usize)
    }
}

/// Where the first slash at or after `from` stands in `t`, or the length
/// of `t` if there is none.
pub open spec fn slash_from(t: Seq<char>, from: int) -> int
    decreases t.len() - from,
{
    if from >= t.len() {
        t.len() as int
    } else if t[from] == '/' {
        from
    } else {
        slash_from(t, from + 1)
    }
}

/// Where the first pair of slashes at or after `from` stands in `t`, or
/// the length of `t` if there is none.
pub open spec fn double_from(t: Seq<char>, from: int) -> int
    decreases t.len() - from,
{
    if from + 1 >= t.len() {
        t.len() as int
    } else if t[from] == '/' && t[from + 1] == '/' {
        from
    } else {
        double_from(t, from + 1)
    }
}

/// Finds the first slash at or after `from`.
pub fn find_slash(t: &Vec<char>, from: usize) -> (at: usize)
    requires
        from <= t@.len(),
    ensures
        at == slash_from(t@, from as int),
        from <= at <= t@.len(),
{
    let mut k: usize = from;
    while k < t.len() && t[k] != '/'
        invariant
            from <= k <= t@.len(),
            slash_from(t@, k as int) == slash_from(t@, from as int),
        decreases t@.len() - k,
    {
        k += 1;
    }
    k
}

/// Finds the first pair of slashes at or after `from`.
pub fn find_double(t: &Vec<char>, from: usize) -> (at: usize)
    requires
        from <= t@.len(),
    ensures
        at == double_from(t@, from as int),
        from <= at <= t@.len(),
        at < t@.len() ==> at + 2 <= t@.len(),
{
    let total = t.len();
    let mut k: usize = from;
    while total - k >= 2 && !(t[k] == '/' && t[k + 1] == '/')
        invariant
            total == t@.len(),
            from <= k <= total,
            double_from(t@, k as int) == double_from(t@, from as int),
        decreases total - k,
    {
        k += 1;
    }
    if total - k >= 2 {
        k
    } else {
        total
    }
}

/// What one corner of a face line names. A field is `None` where the
/// corner leaves it as it is.
#[derive(Clone, Copy, Debug)]
pub struct Corner {
    pub position: Option<usize>,
    pub tex_coord: Option<usize>,
    pub normal: Option<usize>,
}

/// A corner from the indices written for it, if each can be read.
pub open spec fn corner_from(
    position: Option<usize>,
    tex_coord: Option<Option<usize>>,
    normal: Option<Option<usize>>,
) -> Option<Corner> {
    if position is None || tex_coord == Some(None::<usize>) || normal == Some(None::<usize>) {
        None
    } else {
        Some(
            Corner {
                position,
                tex_coord: match tex_coord {
                    Some(t) => t,
                    None => None,
                },
                normal: match normal {
                    Some(n) => n,
                    None => None,
                },
            },
        )
    }
}

/// What the text of one corner names, if it can be read.
///
/// With a pair of slashes in it, the text is a position, the pair, and a
/// normal (which ends at the next pair, if there is one). Otherwise, cut
/// at its slashes, two parts are a position and a texture coordinate,
/// three are a position, a texture coordinate and a normal, and more name
/// nothing. Without a slash the text is a position.
pub open spec fn corner_of(t: Seq<char>) -> Option<Corner> {
    let len = t.len() as int;
    let d = double_from(t, 0);
    let p = slash_from(t, 0);
    if d < len {
        let e = double_from(t, d + 2);
        corner_from(index_of(t.subrange(0, d)), None, Some(index_of(t.subrange(d + 2, e))))
    } else if p < len {
        let q = slash_from(t, p + 1);
        if q == len {
            corner_from(index_of(t.subrange(0, p)), Some(index_of(t.subrange(p + 1, len))), None)
        } else {
            let r = slash_from(t, q + 1);
            if r == len {
                corner_from(
                    index_of(t.subrange(0, p)),
                    Some(index_of(t.subrange(p + 1, q))),
                    Some(index_of(t.subrange(q + 1, len))),
                )
            } else {
                Some(Corner { position: None, tex_coord: None, normal: None })
            }
        }
    } else {
        corner_from(index_of(t), None, None)
    }
}

/// Reads the text of one corner.
pub fn read_corner(t: &Vec<char>) -> (c: Option<Corner>)
    ensures
        c == corner_of(t@),
{
    let len = t.len();
    let d = find_double(t, 0);
    if d < len {
        let e = find_double(t, d + 2);
        let position = read_index(t, 0, d);
        let normal = read_index(t, d + 2, e);
        return match (position, normal) {
            (Some(_), Some(_)) => Some(Corner { position, tex_coord: None, normal }),
            _ => None,
        };
    }
    let p = find_slash(t, 0);
    if p < len {
        let q = find_slash(t, p + 1);
        if q == len {
            let position = read_index(t, 0, p);
            let tex_coord = read_index(t, p + 1, len);
            return match (position, tex_coord) {
                (Some(_), Some(_)) => Some(Corner { position, tex_coord, normal: None }),
                _ => None,
            };
        }
        let r = find_slash(t, q + 1);
        if r == len {
            let position = read_index(t, 0, p);
            let tex_coord = read_index(t, p + 1, q);
            let normal = read_index(t, q + 1, len);
            return match (position, tex_coord, normal) {
                (Some(_), Some(_), Some(_)) => Some(Corner { position, tex_coord, normal }),
                _ => None,
            };
        }
        return Some(Corner { position: None, tex_coord: None, normal: None });
    }
    proof {
        assert(t@.subrange(0, len as int) =~= t@);
    }
    let position = read_index(t, 0, len);
    match position {
        Some(_) => Some(Corner { position, tex_coord: None, normal: None }),
        None => None,
    }
}

/// How many white-space characters stand in a row at `at`.
pub open spec fn spaces(s: Seq<char>, at: int) -> nat
    decreases s.len() - at,
{
    if 0 <= at < s.len() && is_space(s[at]) {
        1 + spaces(s, at + 1)
    } else {
        0
    }
}

/// How many characters other than white space stand in a row at `at`.
pub open spec fn word(s: Seq<char>, at: int) -> nat
    decreases s.len() - at,
{
    if 0 <= at < s.len() && !is_space(s[at]) {
        1 + word(s, at + 1)
    } else {
        0
    }
}

/// The face after corner number `vid` has been given what `c` names. A
/// corner that names nothing changes nothing; a fourth corner that names
/// anything cannot be placed.
pub open spec fn placed(face: Face, vid: int, c: Corner) -> Option<Face> {
    if c.position is None && c.tex_coord is None && c.normal is None {
        Some(face)
    } else if vid >= 3 {
        None
    } else {
        Some(
            Face {
                positions: match c.position {
                    Some(p) => face.positions.update(vid, p),
                    None => face.positions,
                },
                tex_coords: match c.tex_coord {
                    Some(p) => face.tex_coords.update(vid, p),
                    None => face.tex_coords,
                },
                normals: match c.normal {
                    Some(p) => face.normals.update(vid, p),
                    None => face.normals,
                },
                material_id: face.material_id,
            },
        )
    }
}

/// The face that the corners written in `s` from `at` on make of `face`,
/// the first of them being corner number `vid`.
pub open spec fn face_from(s: Seq<char>, at: int, vid: int, face: Face) -> Option<Face>
    decreases
            (if at < s.len() {
                s.len() - at
            } else {
                0
            }),
{
    let start = at + spaces(s, at);
    if at < 0 || start >= s.len() {
        Some(face)
    } else {
        let end = start + 1 + word(s, start + 1);
        match corner_of(s.subrange(start, end)) {
            None => None,
            Some(c) => match placed(face, vid, c) {
                None => None,
                Some(f) => face_from(s, end, vid + 1, f),
            },
        }
    }
}

/// The face that a face line writes, if it can be read: its corners are
/// separated by white space; what a corner does not name is place zero,
/// and so is the material.
pub open spec fn face_of(s: Seq<char>) -> Option<Face> {
    face_from(
        s,
        0,
        0,
        Face {
            positions: seq![0usize, 0usize, 0usize],
            tex_coords: seq![0usize, 0usize, 0usize],
            normals: seq![0usize, 0usize, 0usize],
            material_id: 0,
        },
    )
}

/// The characters of `s`.
pub fn chars_of(s: &str) -> (chars: Vec<char>)
    ensures
        chars@ == s@,
{
    let len = s.unicode_len();
    let mut chars: Vec<char> = Vec::new();
    let mut k: usize = 0;
    while k < len
        invariant
            len == s@.len(),
            k <= len,
            chars@ == s@.take(k as int),
        decreases len - k,
    {
        chars.push(s.get_char(k));
        proof {
            assert(chars@ =~= s@.take(k + 1));
        }
        k += 1;
    }
    proof {
        assert(s@.take(len as int) =~= s@);
    }
    chars
}

/// The characters `s[from..to]`.
pub fn slice_of(s: &Vec<char>, from: usize, to: usize) -> (part: Vec<char>)
    requires
        from <= to <= s@.len(),
    ensures
        part@ == s@.subrange(from as int, to as int),
{
    let mut part: Vec<char> = Vec::new();
    let mut k: usize = from;
    while k < to
        invariant
            from <= k <= to <= s@.len(),
            part@ == s@.subrange(from as int, k as int),
        decreases to - k,
    {
        part.push(s[k]);
        proof {
            assert(part@ =~= s@.subrange(from as int, k + 1));
        }
        k += 1;
    }
    part
}

/// Passes over the white space at `at`.
pub fn skip_spaces(s: &Vec<char>, at: usize) -> (start: usize)
    requires
        at <= s@.len(),
    ensures
        start == at + spaces(s@, at as int),
        start <= s@.len(),
{
    let mut k: usize = at;
    while k < s.len() && space(s[k])
        invariant
            at <= k <= s@.len(),
            at + spaces(s@, at as int) == k + spaces(s@, k as int),
        decreases s@.len() - k,
    {
        k += 1;
    }
    k
}

/// Passes over the characters other than white space at `at`.
pub fn skip_word(s: &Vec<char>, at: usize) -> (end: usize)
    requires
        at <= s@.len(),
    ensures
        end == at + word(s@, at as int),
        end <= s@.len(),
{
    let mut k: usize = at;
    while k < s.len() && !space(s[k])
        invariant
            at <= k <= s@.len(),
            at + word(s@, at as int) == k + word(s@, k as int),
        decreases s@.len() - k,
    {
        k += 1;
    }
    k
}

impl Triangle {
    /// Reads a face from the text that follows the `f` of a face line:
    /// three corners, each written as `v`, `v/vt`, `v//vn` or `v/vt/vn`,
    /// with indices that count from one.
    pub fn from_str(s: &str) -> (r: Result<Triangle, ParseObjTriangleError>)
        ensures
            match r {
                Ok(t) => face_of(s@) == Some(t@),
                Err(_) => face_of(s@) is None,
            },
    {
        let chars = chars_of(s);
        let total = chars.len();
        let mut tri = Triangle {
            positions: [0, 0, 0],
            tex_coords: [0, 0, 0],
            normals: [0, 0, 0],
            material_id: 0,
        };
        proof {
            assert(tri@.positions =~= seq![0usize, 0usize, 0usize]);
            assert(tri@.tex_coords =~= seq![0usize, 0usize, 0usize]);
            assert(tri@.normals =~= seq![0usize, 0usize, 0usize]);
        }
        let mut at: usize = 0;
        let mut vid: usize = 0;
        loop
            invariant
                chars@ == s@,
                total == chars@.len(),
                at <= total,
                vid <= at,
                face_from(chars@, at as int, vid as int, tri@) == face_of(s@),
            decreases total - at,
        {
            let start = skip_spaces(&chars, at);
            if start >= total {
                return Ok(tri);
            }
            let end = skip_word(&chars, start + 1);
            let token = slice_of(&chars, start, end);
            let corner = match read_corner(&token) {
                Some(c) => c,
                None => {
                    return Err(ParseObjTriangleError);
                },
            };
            if corner.position.is_some() || corner.tex_coord.is_some() || corner.normal.is_some() {
                if vid >= 3 {
                    return Err(ParseObjTriangleError);
                }
                let ghost before = tri@;
                match corner.position {
                    Some(p) => {
                        tri.positions[vid] = p;
                    },
                    None => {},
                }
                match corner.tex_coord {
                    Some(p) => {
                        tri.tex_coords[vid] = p;
                    },
                    None => {},
                }
                match corner.normal {
                    Some(p) => {
                        tri.normals[vid] = p;
                    },
                    None => {},
                }
                proof {
                    let after = placed(before, vid as int, corner).unwrap();
                    assert(tri@.positions =~= after.positions);
                    assert(tri@.tex_coords =~= after.tex_coords);
                    assert(tri@.normals =~= after.normals);
                }
            }
            vid += 1;
            at = end;
        }
    }
}

/// `pat` stands in `s` at `at`.
pub open spec fn begins(s: Seq<char>, at: int, pat: Seq<char>) -> bool {
    0 <= at && at + pat.len() <= s.len() && s.subrange(at, at + pat.len()) == pat
}

/// `pat` stands somewhere in `s`.
pub open spec fn contains(s: Seq<char>, pat: Seq<char>) -> bool {
    exists|at: int| #[trigger] begins(s, at, pat)
}

/// Says whether `pat` stands in `s` at `at`.
pub fn starts_with(s: &Vec<char>, at: usize, pat: &Vec<char>) -> (r: bool)
    ensures
        r == begins(s@, at as int, pat@),
{
    let total = s.len();
    if at > total || pat.len() > total - at {
        return false;
    }
    let mut k: usize = 0;
    while k < pat.len()
        invariant
            total == s@.len(),
            k <= pat@.len(),
            at + pat@.len() <= total,
            forall|i: int| 0 <= i < k ==> s@[at + i] == pat@[i],
        decreases pat@.len() - k,
    {
        if s[at + k] != pat[k] {
            proof {
                assert(s@.subrange(at as int, at + pat@.len())[k as int] == s@[at + k]);
            }
            return false;
        }
        k += 1;
    }
    proof {
        assert(s@.subrange(at as int, at + pat@.len()) =~= pat@);
    }
    true
}

/// Says whether `pat` stands somewhere in `s`.
pub fn includes(s: &Vec<char>, pat: &Vec<char>) -> (r: bool)
    ensures
        r == contains(s@, pat@),
{
    let mut at: usize = 0;
    while at < s.len()
        invariant
            at <= s@.len(),
            forall|i: int| 0 <= i < at ==> !begins(s@, i, pat@),
        decreases s@.len() - at,
    {
        if starts_with(s, at, pat) {
            return true;
        }
        at += 1;
    }
    starts_with(s, at, pat)
}

/// Says whether two texts are the same.
pub fn same(a: &Vec<char>, b: &Vec<char>) -> (r: bool)
    ensures
        r == (a@ == b@),
{
    if a.len() != b.len() {
        return false;
    }
    let r = starts_with(a, 0, b);
    proof {
        assert(a@.subrange(0, a@.len() as int) =~= a@);
    }
    r
}

/// What a line of a mesh file is.
#[derive(Clone, Copy, Debug, PartialEq, Eq)]
pub enum ObjLine {
    /// A remark: nothing to read.
    Comment,
    /// `mtllib` and the name of a material file.
    Library,
    /// `v` and a position.
    Position,
    /// `vt` and a texture coordinate.
    TexCoord,
    /// `vn` and a normal.
    Normal,
    /// `usemtl` and the name of the material of the faces that follow.
    UseMaterial,
    /// `f` and the corners of a face.
    Face,
    /// `mtllib` after white space, or without a space after it: not
    /// readable.
    StrayLibrary,
    /// `usemtl` and a space after white space: not readable.
    StrayUseMaterial,
    /// `f` and a space after white space: not readable.
    StrayFace,
    /// Anything else: passed over.
    Other,
}

/// What `line` is. White space before the first word is passed over. A
/// line whose first character is `#` is a remark. Vertex data goes by the
/// first word; a material, a face and a library go by how the line begins,
/// and have to begin it without white space before them.
pub open spec fn obj_line_of(line: Seq<char>) -> ObjLine {
    let start = spaces(line, 0) as int;
    let first = line.subrange(start, start + word(line, start));
    if begins(line, start, "#"@) {
        ObjLine::Comment
    } else if first == "v"@ {
        ObjLine::Position
    } else if first == "vt"@ {
        ObjLine::TexCoord
    } else if first == "vn"@ {
        ObjLine::Normal
    } else if begins(line, start, "usemtl "@) {
        if start == 0 {
            ObjLine::UseMaterial
        } else {
            ObjLine::StrayUseMaterial
        }
    } else if begins(line, start, "f "@) {
        if start == 0 {
            ObjLine::Face
        } else {
            ObjLine::StrayFace
        }
    } else if begins(line, start, "mtllib"@) {
        if begins(line, 0, "mtllib "@) {
            ObjLine::Library
        } else {
            ObjLine::StrayLibrary
        }
    } else {
        ObjLine::Other
    }
}

/// Says what a line of a mesh file is.
pub fn classify(line: &str) -> (kind: ObjLine)
    ensures
        kind == obj_line_of(line@),
{
    let s = chars_of(line);
    let start = skip_spaces(&s, 0);
    let end = skip_word(&s, start);
    let first = slice_of(&s, start, end);
    if starts_with(&s, start, &chars_of("#")) {
        ObjLine::Comment
    } else if same(&first, &chars_of("v")) {
        ObjLine::Position
    } else if same(&first, &chars_of("vt")) {
        ObjLine::TexCoord
    } else if same(&first, &chars_of("vn")) {
        ObjLine::Normal
    } else if starts_with(&s, start, &chars_of("usemtl ")) {
        if start == 0 {
            ObjLine::UseMaterial
        } else {
            ObjLine::StrayUseMaterial
        }
    } else if starts_with(&s, start, &chars_of("f ")) {
        if start == 0 {
            ObjLine::Face
        } else {
            ObjLine::StrayFace
        }
    } else if starts_with(&s, start, &chars_of("mtllib")) {
        if starts_with(&s, 0, &chars_of("mtllib ")) {
            ObjLine::Library
        } else {
            ObjLine::StrayLibrary
        }
    } else {
        ObjLine::Other
    }
}

/// What a line of a material file asks for.
#[derive(Clone, Copy, Debug, PartialEq, Eq)]
pub enum MtlLine {
    /// Nothing: the line is passed over.
    Skip,
    /// `newmtl` and a name: a material begins.
    Begin,
    /// `Kd`: the base colour.
    BaseColor,
    /// `Ks`: the specular tint.
    SpecularTint,
    /// `Ke`: the emission.
    Emission,
    /// `Ni`: the refractive index.
    Ior,
    /// `Pr`: the roughness.
    Roughness,
    /// `Pm`: the metallic share.
    Metallic,
    /// `Tf`: the transmission.
    Transmission,
    /// `map_Kd`: the file of the base colour texture.
    BaseColorMap,
    /// `map_Ke`: the file of the emission texture.
    EmissionMap,
    /// A line without a word: the material is complete.
    End,
    /// `newmtl` that does not start its line with a space after it: not
    /// readable.
    Malformed,
}

/// What `line` asks for, `inside` a material or not. Outside one, only a
/// line with `newmtl` in it matters, and it has to start with `newmtl`
/// and a space. Inside one, the first word says what is set; a line
/// without a word ends the material; any other word is passed over, a
/// `newmtl` too.
pub open spec fn mtl_line_of(inside: bool, line: Seq<char>) -> MtlLine {
    let start = spaces(line, 0) as int;
    let first = line.subrange(start, start + word(line, start));
    if !inside {
        if !contains(line, "newmtl"@) {
            MtlLine::Skip
        } else if begins(line, 0, "newmtl "@) {
            MtlLine::Begin
        } else {
            MtlLine::Malformed
        }
    } else if first.len() == 0 {
        MtlLine::End
    } else if first == "Kd"@ {
        MtlLine::BaseColor
    } else if first == "Ks"@ {
        MtlLine::SpecularTint
    } else if first == "Ke"@ {
        MtlLine::Emission
    } else if first == "Ni"@ {
        MtlLine::Ior
    } else if first == "Pr"@ {
        MtlLine::Roughness
    } else if first == "Pm"@ {
        MtlLine::Metallic
    } else if first == "Tf"@ {
        MtlLine::Transmission
    } else if first == "map_Kd"@ {
        MtlLine::BaseColorMap
    } else if first == "map_Ke"@ {
        MtlLine::EmissionMap
    } else {
        MtlLine::Skip
    }
}

/// Says what a line of a material file asks for.
pub fn classify_mtl(inside: bool, line: &str) -> (kind: MtlLine)
    ensures
        kind == mtl_line_of(inside, line@),
{
    let s = chars_of(line);
    let start = skip_spaces(&s, 0);
    let end = skip_word(&s, start);
    let first = slice_of(&s, start, end);
    if !inside {
        if !includes(&s, &chars_of("newmtl")) {
            MtlLine::Skip
        } else if starts_with(&s, 0, &chars_of("newmtl ")) {
            MtlLine::Begin
        } else {
            MtlLine::Malformed
        }
    } else if first.len() == 0 {
        MtlLine::End
    } else if same(&first, &chars_of("Kd")) {
        MtlLine::BaseColor
    } else if same(&first, &chars_of("Ks")) {
        MtlLine::SpecularTint
    } else if same(&first, &chars_of("Ke")) {
        MtlLine::Emission
    } else if same(&first, &chars_of("Ni")) {
        MtlLine::Ior
    } else if same(&first, &chars_of("Pr")) {
        MtlLine::Roughness
    } else if same(&first, &chars_of("Pm")) {
        MtlLine::Metallic
    } else if same(&first, &chars_of("Tf")) {
        MtlLine::Transmission
    } else if same(&first, &chars_of("map_Kd")) {
        MtlLine::BaseColorMap
    } else if same(&first, &chars_of("map_Ke")) {
        MtlLine::EmissionMap
    } else {
        MtlLine::Skip
    }
}

/// Where `c` stands last in `s`, or -1 if it does not stand in it.
pub open spec fn last_index(s: Seq<char>, c: char) -> int
    decreases s.len(),
{
    if s.len() == 0 {
        -1
    } else if s.last() == c {
        s.len() - 1
    } else {
        last_index(s.drop_last(), c)
    }
}

/// Finds where `c` stands last in `s`.
pub fn find_last(s: &Vec<char>, c: char) -> (at: Option<usize>)
    ensures
        match at {
            Some(i) => i == last_index(s@, c) && i < s@.len(),
            None => last_index(s@, c) == -1,
        },
{
    let mut k: usize = s.len();
    proof {
        assert(s@.take(k as int) =~= s@);
    }
    while k > 0
        invariant
            k <= s@.len(),
            last_index(s@.take(k as int), c) == last_index(s@, c),
        decreases k,
    {
        proof {
            assert(s@.take(k as int).drop_last() =~= s@.take(k - 1));
        }
        if s[k - 1] == c {
            return Some(k - 1);
        }
        k -= 1;
    }
    None
}

/// What follows the last dot of `path`, or all of `path` if it has none.
pub open spec fn extension_of(path: Seq<char>) -> Seq<char> {
    path.subrange(last_index(path, '.') + 1, path.len() as int)
}

/// Says whether what follows the last dot of `path` is `wanted`.
pub fn extension_is(path: &str, wanted: &str) -> (r: bool)
    ensures
        r == (extension_of(path@) == wanted@),
{
    let s = chars_of(path);
    let total = s.len();
    let from: usize = match find_last(&s, '.') {
        Some(dot) => dot + 1,
        None => 0,
    };
    let tail = slice_of(&s, from, total);
    same(&tail, &chars_of(wanted))
}

/// The folder that `path` lies in: what stands before its last slash, or,
/// if it has none, before its last backslash; nothing if it has neither.
pub open spec fn folder_of(path: Seq<char>) -> Seq<char> {
    let cut = if last_index(path, '/') >= 0 {
        last_index(path, '/')
    } else if last_index(path, '\\') >= 0 {
        last_index(path, '\\')
    } else {
        0
    };
    path.subrange(0, cut)
}

/// Where the material file `name` of the mesh at `path` is looked for: in
/// the folder of the mesh, after a slash; or just under its name if the
/// mesh has no folder.
pub open spec fn library_path_of(path: Seq<char>, name: Seq<char>) -> Seq<char> {
    if folder_of(path).len() > 0 {
        folder_of(path) + seq!['/'] + name
    } else {
        name
    }
}

/// The place of the first material called `name` at or after `from`, or
/// place zero if there is none.
pub open spec fn place_named(materials: Seq<Material>, name: Seq<char>, from: int) -> int
    decreases materials.len() - from,
{
    if from < 0 || from >= materials.len() {
        0
    } else if materials[from].name@ == name {
        from
    } else {
        place_named(materials, name, from + 1)
    }
}

/// The faces read from the lines of a mesh file so far, and the place of
/// the material that the next face gets.
pub struct FaceRun {
    pub faces: Seq<Face>,
    pub active: usize,
}

/// What one more line makes of the faces read so far, if the line can be
/// read: a line that names a material changes the material of the faces to
/// come, to the first of that name or to the one at place zero; a face
/// line adds its face with the material last named; any other line changes
/// nothing, but for a material or a face after white space, which cannot
/// be read.
pub open spec fn after_line(run: FaceRun, line: Seq<char>, materials: Seq<Material>) -> Option<
    FaceRun,
> {
    match obj_line_of(line) {
        ObjLine::UseMaterial => Some(
            FaceRun { faces: run.faces, active: place_named(materials, line.skip(7), 0) as usize },
        ),
        ObjLine::Face => match face_of(line.skip(2)) {
            Some(face) => Some(
                FaceRun {
                    faces: run.faces.push(Face { material_id: run.active, ..face }),
                    active: run.active,
                },
            ),
            None => None,
        },
        ObjLine::StrayUseMaterial => None,
        ObjLine::StrayFace => None,
        _ => Some(run),
    }
}

/// The faces that the lines of a mesh file give, in the order of the
/// lines, if every line can be read. Before any material is named the
/// faces get the one at place zero.
pub open spec fn faces_of(lines: Seq<String>, materials: Seq<Material>) -> Option<FaceRun>
    decreases lines.len(),
{
    if lines.len() == 0 {
        Some(FaceRun { faces: Seq::empty(), active: 0 })
    } else {
        match faces_of(lines.drop_last(), materials) {
            None => None,
            Some(run) => after_line(run, lines.last()@, materials),
        }
    }
}

/// Once a line cannot be read, no line after it mends that.
pub proof fn lemma_faces_stop(lines: Seq<String>, materials: Seq<Material>, k: int)
    requires
        0 <= k <= lines.len(),
        faces_of(lines.take(k), materials) is None,
    ensures
        faces_of(lines, materials) is None,
    decreases lines.len() - k,
{
    if k == lines.len() {
        assert(lines.take(k) =~= lines);
    } else {
        assert(lines.take(k + 1).drop_last() =~= lines.take(k));
        lemma_faces_stop(lines, materials, k + 1);
    }
}

impl OBJ {
    /// A mesh with nothing in it.
    pub fn default() -> (obj: Self)
        ensures
            obj.tris@.len() == 0,
            obj.vertex_buffer.positions@.len() == 0,
            obj.vertex_buffer.tex_coords@.len() == 0,
            obj.vertex_buffer.normals@.len() == 0,
            obj.materials@.len() == 0,
            obj.textures@.len() == 0,
    {
        OBJ {
            tris: Vec::new(),
            vertex_buffer: VertexBuffer {
                positions: Vec::new(),
                tex_coords: Vec::new(),
                normals: Vec::new(),
            },
            materials: Vec::new(),
            textures: Vec::new(),
        }
    }

    /// Where the material file `name` of the mesh at `path` is looked for.
    pub fn library_path(path: &str, name: &str) -> (full: String)
        ensures
            full@ == library_path_of(path@, name@),
    {
        let s = chars_of(path);
        let cut: usize = match find_last(&s, '/') {
            Some(i) => i,
            None => match find_last(&s, '\\') {
                Some(i) => i,
                None => 0,
            },
        };
        let mut full = String::from_str(path.substring_char(0, cut));
        if cut > 0 {
            proof {
                reveal_strlit("/");
                assert("/"@ =~= seq!['/']);
            }
            full.append("/");
        }
        full.append(name);
        proof {
            assert(full@ =~= library_path_of(path@, name@));
        }
        full
    }

    /// The place of the material called `name`: the first of that name,
    /// or place zero if there is none.
    pub fn material_id(&self, name: &str) -> (id: usize)
        ensures
            id == place_named(self.materials@, name@, 0),
            forall|k: int| 0 <= k < id ==> (#[trigger] self.materials@[k]).name@ != name@,
            (id < self.materials@.len() && self.materials@[id as int].name@ == name@) || (id == 0
                && forall|k: int|
                0 <= k < self.materials@.len() ==> (#[trigger] self.materials@[k]).name@ != name@),
    {
        let wanted = chars_of(name);
        let mut k: usize = 0;
        while k < self.materials.len()
            invariant
                k <= self.materials@.len(),
                wanted@ == name@,
                forall|m: int| 0 <= m < k ==> (#[trigger] self.materials@[m]).name@ != name@,
                place_named(self.materials@, name@, k as int) == place_named(
                    self.materials@,
                    name@,
                    0,
                ),
            decreases self.materials@.len() - k,
        {
            let found = chars_of(self.materials[k].name.as_str());
            if same(&found, &wanted) {
                return k;
            }
            k += 1;
        }
        0
    }

    /// Reads the faces out of the lines of a mesh file and adds them to
    /// the mesh, in the order of the lines, each with the material that was
    /// last named before it. The materials have to be in the mesh already.
    /// If a line cannot be read, nothing is added.
    pub fn read_faces(&mut self, lines: &Vec<String>) -> (r: Result<(), ParseObjTriangleError>)
        ensures
            match r {
                Ok(_) => {
                    &&& faces_of(lines@, old(self).materials@) matches Some(run)
                    &&& final(self).tris@.len() == old(self).tris@.len() + run.faces.len()
                    &&& forall|k: int|
                        0 <= k < old(self).tris@.len() ==> #[trigger] final(self).tris@[k] == old(
                            self,
                        ).tris@[k]
                    &&& forall|k: int|
                        0 <= k < run.faces.len() ==> final(self).tris@[old(self).tris@.len() + k]@
                            == #[trigger] run.faces[k]
                },
                Err(_) => {
                    &&& faces_of(lines@, old(self).materials@) is None
                    &&& final(self).tris@ == old(self).tris@
                },
            },
            final(self).vertex_buffer == old(self).vertex_buffer,
            final(self).materials == old(self).materials,
            final(self).textures == old(self).textures,
    {
        let mut fresh: Vec<Triangle> = Vec::new();
        let mut active: usize = 0;
        let mut k: usize = 0;
        proof {
            assert(lines@.take(0) =~= Seq::<String>::empty());
        }
        while k < lines.len()
            invariant
                k <= lines@.len(),
                self.tris@ == old(self).tris@,
                self.vertex_buffer == old(self).vertex_buffer,
                self.materials == old(self).materials,
                self.textures == old(self).textures,
                faces_of(lines@.take(k as int), self.materials@) matches Some(run) && run.active
                    == active && run.faces.len() == fresh@.len() && forall|m: int|
                    0 <= m < fresh@.len() ==> (#[trigger] fresh@[m])@ == run.faces[m],
            decreases lines@.len() - k,
        {
            let line = lines[k].as_str();
            let ghost before = faces_of(lines@.take(k as int), self.materials@).unwrap();
            proof {
                assert(lines@.take(k + 1).drop_last() =~= lines@.take(k as int));
                assert(lines@.take(k + 1).last() == lines@[k as int]);
                reveal_strlit("usemtl ");
                reveal_strlit("f ");
            }
            let length = line.unicode_len();
            match classify(line) {
                ObjLine::UseMaterial => {
                    proof {
                        assert(line@.skip(7) =~= line@.subrange(7, length as int));
                    }
                    active = self.material_id(line.substring_char(7, length));
                },
                ObjLine::Face => {
                    proof {
                        assert(line@.skip(2) =~= line@.subrange(2, length as int));
                    }
                    match Triangle::from_str(line.substring_char(2, length)) {
                        Ok(read) => {
                            let mut tri = read;
                            tri.material_id = active;
                            fresh.push(tri);
                            proof {
                                let face = face_of(line@.skip(2)).unwrap();
                                assert(tri@ == (Face { material_id: active, ..face }));
                            }
                        },
                        Err(e) => {
                            proof {
                                lemma_faces_stop(lines@, self.materials@, k + 1);
                            }
                            return Err(e);
                        },
                    }
                },
                ObjLine::StrayUseMaterial => {
                    proof {
                        lemma_faces_stop(lines@, self.materials@, k + 1);
                    }
                    return Err(ParseObjTriangleError);
                },
                ObjLine::StrayFace => {
                    proof {
                        lemma_faces_stop(lines@, self.materials@, k + 1);
                    }
                    return Err(ParseObjTriangleError);
                },
                _ => {},
            }
            k += 1;
        }
        proof {
            assert(lines@.take(k as int) =~= lines@);
        }
        self.tris.append(&mut fresh);
        Ok(())
    }

    /// Takes a texture in and returns the index a material names it by.
    pub fn add_texture(&mut self, texture: Texture) -> (id: i32)
        requires
            old(self).textures@.len() < i32::MAX,
        ensures
            id == old(self).textures@.len(),
            final(self).textures@ == old(self).textures@.push(texture),
            final(self).tris == old(self).tris,
            final(self).vertex_buffer == old(self).vertex_buffer,
            final(self).materials == old(self).materials,
    {
        self.textures.push(texture);
        (self.textures.len() - 1) as i32
    }

    /// Gives every face a normal of its own: face `k` takes entry `k` of
    /// the normals for all three corners.
    pub fn use_face_normals(&mut self)
        ensures
            final(self).tris@.len() == old(self).tris@.len(),
            forall|k: int|
                0 <= k < old(self).tris@.len() ==> (#[trigger] final(self).tris@[k])@ == (Face {
                    normals: seq![k as usize, k as usize, k as usize],
                    ..old(self).tris@[k]@
                }),
            final(self).vertex_buffer == old(self).vertex_buffer,
            final(self).materials == old(self).materials,
            final(self).textures == old(self).textures,
    {
        let mut k: usize = 0;
        while k < self.tris.len()
            invariant
                k <= self.tris@.len(),
                self.tris@.len() == old(self).tris@.len(),
                forall|m: int|
                    0 <= m < k ==> (#[trigger] self.tris@[m])@ == (Face {
                        normals: seq![m as usize, m as usize, m as usize],
                        ..old(self).tris@[m]@
                    }),
                forall|m: int| k <= m < self.tris@.len() ==> self.tris@[m] == old(self).tris@[m],
                self.vertex_buffer == old(self).vertex_buffer,
                self.materials == old(self).materials,
                self.textures == old(self).textures,
            decreases self.tris@.len() - k,
        {
            let mut tri = self.tris[k];
            tri.normals = [k, k, k];
            proof {
                assert(tri@.normals =~= seq![k as usize, k as usize, k as usize]);
            }
            self.tris[k] = tri;
            k += 1;
        }
    }
}

} // verus!
