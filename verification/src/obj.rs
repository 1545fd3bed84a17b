//! Reading the judge-area mesh from Wavefront OBJ text: vertex lines,
//! group lines and polygon faces. Coordinates stay text here; the host turns
//! them into floating-point numbers.
use vstd::prelude::*;
use crate::text::{
    all_digits, chars_of, decimal_value, find, find_from, is_digit, lemma_find_from, lines,
    matches_at, matches_at_exec, parse_usize,
    parse_usize_exec, split_lines, split_words, starts_with, string_of, subvec, views, words,
};

verus! {

/// A `v` line: its first and third coordinates, as written (the second,
/// the height, is not used by the flat layout).
pub struct ObjVertex {
    pub x: Option<String>,
    pub z: Option<String>,
}

impl View for ObjVertex {
    type V = (Option<Seq<char>>, Option<Seq<char>>);

    open spec fn view(&self) -> Self::V {
        (self.x.deep_view(), self.z.deep_view())
    }
}

/// The faces of one `g` group, each a list of zero-based vertex positions.
pub struct MeshGroup {
    pub faces: Vec<Vec<usize>>,
}

impl View for MeshGroup {
    type V = Seq<Seq<usize>>;

    open spec fn view(&self) -> Self::V {
        self.faces@.map_values(|f: Vec<usize>| f@)
    }
}

/// The vertices and groups read so far.
pub type ObjModel = (Seq<(Option<Seq<char>>, Option<Seq<char>>)>, Seq<Seq<Seq<usize>>>);

/// The vertex that a `v` line with the given rest stands for: its first and
/// third word.
pub open spec fn vertex_of(rest: Seq<char>) -> (Option<Seq<char>>, Option<Seq<char>>) {
    let w = words(rest);
    (
        if w.len() > 0 {
            Some(w[0])
        } else {
            None
        },
        if w.len() > 2 {
            Some(w[2])
        } else {
            None
        },
    )
}

/// The part of a face word before its first `/`.
pub open spec fn before_slash(w: Seq<char>) -> Seq<char> {
    match find_from(w, seq!['/'], 0) {
        Some(i) => w.take(i),
        None => w,
    }
}

/// The zero-based position for the one-based OBJ index `v`. The subtraction
/// wraps: index 0 becomes `usize::MAX`, which no vertex list reaches.
pub open spec fn zero_based(v: usize) -> usize {
    if v == 0 {
        usize::MAX
    } else {
        (v - 1) as usize
    }
}

/// The vertex positions that the words of an `f` line name: each word's
/// part before `/` read as a number, the words that do not read left out.
pub open spec fn face_from_words(ws: Seq<Seq<char>>) -> Seq<usize>
    decreases ws.len(),
{
    if ws.len() == 0 {
        seq![]
    } else {
        let f = face_from_words(ws.drop_last());
        match parse_usize(before_slash(ws.last())) {
            Some(v) => f.push(zero_based(v)),
            None => f,
        }
    }
}

/// What one line does to the mesh read so far: a `v ` line adds a vertex, a
/// `g ` line opens an empty group, an `f ` line adds a face to the last group
/// (none if no group is open yet); any other line changes nothing.
pub open spec fn obj_line(m: ObjModel, line: Seq<char>) -> ObjModel {
    if starts_with(line, seq!['v', ' ']) {
        (m.0.push(vertex_of(line.skip(2))), m.1)
    } else if starts_with(line, seq!['g', ' ']) {
        (m.0, m.1.push(seq![]))
    } else if starts_with(line, seq!['f', ' ']) {
        if m.1.len() > 0 {
            let face = face_from_words(words(line.skip(2)));
            (m.0, m.1.update(m.1.len() - 1, m.1.last().push(face)))
        } else {
            m
        }
    } else {
        m
    }
}

/// The mesh that a list of lines describes.
pub open spec fn obj_model(ls: Seq<Seq<char>>) -> ObjModel
    decreases ls.len(),
{
    if ls.len() == 0 {
        (seq![], seq![])
    } else {
        obj_line(obj_model(ls.drop_last()), ls.last())
    }
}

/// The views of a list of vertices.
pub open spec fn vertex_views(v: Seq<ObjVertex>) -> Seq<(Option<Seq<char>>, Option<Seq<char>>)> {
    v.map_values(|x: ObjVertex| x@)
}

/// The views of a list of groups.
pub open spec fn group_views(g: Seq<MeshGroup>) -> Seq<Seq<Seq<usize>>> {
    g.map_values(|x: MeshGroup| x@)
}

fn vertex_from(rest: &Vec<char>) -> (v: ObjVertex)
    ensures
        v@ == vertex_of(rest@),
{
    let w = split_words(rest);
    let x = if w.len() > 0 {
        Some(string_of(&w[0]))
    } else {
        None
    };
    let z = if w.len() > 2 {
        Some(string_of(&w[2]))
    } else {
        None
    };
    ObjVertex { x, z }
}

fn face_from(rest: &Vec<char>) -> (f: Vec<usize>)
    ensures
        f@ == face_from_words(words(rest@)),
{
    let ws = split_words(rest);
    let slash: Vec<char> = vec!['/'];
    assert(slash@ =~= seq!['/']);
    let mut face: Vec<usize> = Vec::new();
    let mut k: usize = 0;
    while k < ws.len()
        invariant
            k <= ws.len(),
            slash@ == seq!['/'],
            views(ws@) == words(rest@),
            face@ == face_from_words(views(ws@).take(k as int)),
        decreases ws.len() - k,
    {
        let w = &ws[k];
        let head = match find(w, &slash, 0) {
            Some(i) => {
                proof {
                    lemma_find_from(w@, slash@, 0);
                }
                subvec(w, 0, i)
            },
            None => subvec(w, 0, w.len()),
        };
        assert(w@.subrange(0, w@.len() as int) =~= w@);
        assert(head@ == before_slash(w@));
        assert(views(ws@).take(k + 1).drop_last() =~= views(ws@).take(k as int));
        assert(views(ws@).take(k + 1).last() == w@);
        match parse_usize_exec(&head) {
            Some(v) => {
                let p = if v == 0 {
                    usize::MAX
                } else {
                    v - 1
                };
                face.push(p);
            },
            None => {},
        }
        k = k + 1;
    }
    assert(views(ws@).take(k as int) =~= views(ws@));
    face
}

/// Reads OBJ text: the vertices of its `v` lines, and for each `g` line a
/// group holding the faces of the `f` lines that follow it.
pub fn parse_obj(text: &str) -> (r: (Vec<ObjVertex>, Vec<MeshGroup>))
    ensures
        (vertex_views(r.0@), group_views(r.1@)) == obj_model(lines(text@)),
{
    let chars = chars_of(text);
    let ls = split_lines(&chars);
    let v_tag: Vec<char> = vec!['v', ' '];
    let g_tag: Vec<char> = vec!['g', ' '];
    let f_tag: Vec<char> = vec!['f', ' '];
    assert(v_tag@ =~= seq!['v', ' ']);
    assert(g_tag@ =~= seq!['g', ' ']);
    assert(f_tag@ =~= seq!['f', ' ']);
    let mut vertices: Vec<ObjVertex> = Vec::new();
    let mut groups: Vec<MeshGroup> = Vec::new();
    let mut k: usize = 0;
    while k < ls.len()
        invariant
            k <= ls.len(),
            views(ls@) == lines(text@),
            v_tag@ == seq!['v', ' '],
            g_tag@ == seq!['g', ' '],
            f_tag@ == seq!['f', ' '],
            (vertex_views(vertices@), group_views(groups@)) == obj_model(views(ls@).take(k as int)),
        decreases ls.len() - k,
    {
        let line = &ls[k];
        let ghost before = (vertex_views(vertices@), group_views(groups@));
        assert(views(ls@).take(k + 1).drop_last() =~= views(ls@).take(k as int));
        assert(views(ls@).take(k + 1).last() == line@);
        if matches_at_exec(line, &v_tag, 0) {
            let rest = subvec(line, 2, line.len());
            assert(rest@ =~= line@.skip(2));
            let v = vertex_from(&rest);
            vertices.push(v);
            assert(vertex_views(vertices@) =~= before.0.push(v@));
        } else if matches_at_exec(line, &g_tag, 0) {
            let g = MeshGroup { faces: Vec::new() };
            groups.push(g);
            assert(g@ =~= Seq::<Seq<usize>>::empty());
            assert(group_views(groups@) =~= before.1.push(seq![]));
        } else if matches_at_exec(line, &f_tag, 0) {
            if groups.len() > 0 {
                let rest = subvec(line, 2, line.len());
                assert(rest@ =~= line@.skip(2));
                let face = face_from(&rest);
                let mut g = groups.pop().unwrap();
                let ghost old_g = g@;
                g.faces.push(face);
                assert(g@ =~= old_g.push(face@));
                groups.push(g);
                assert(group_views(groups@) =~= before.1.update(
                    before.1.len() - 1,
                    before.1.last().push(face@),
                ));
            }
        }
        k = k + 1;
    }
    assert(views(ls@).take(k as int) =~= views(ls@));
    (vertices, groups)
}


/// Scanning from `i` within the digits of `w` finds the first `/` right after them.
proof fn lemma_slash_after_digits(w: Seq<char>, n: int, i: int)
    requires
        0 <= i <= n < w.len(),
        w[n] == '/',
        forall|k: int| 0 <= k < n ==> is_digit(#[trigger] w[k]),
    ensures
        find_from(w, seq!['/'], i) == Some(n),
    decreases n - i,
{
    if i == n {
        assert(w.subrange(n, n + 1) =~= seq!['/']);
    } else {
        assert(w.subrange(i, i + 1)[0] == w[i]);
        assert(!matches_at(w, seq!['/'], i));
        lemma_slash_after_digits(w, n, i + 1);
    }
}

/// A face word `a/b/c`, `a//c` or `a/b` names vertex `a`: whatever follows
/// the first `/`, the word contributes the zero-based position `a - 1` of
/// the decimal number `a` written before it (0 wrapping to `usize::MAX`);
/// a bare number `a` does the same.
pub proof fn lemma_face_word(a: Seq<char>, rest: Seq<char>)
    requires
        a.len() > 0,
        all_digits(a),
        decimal_value(a) <= usize::MAX,
    ensures
        before_slash(a + seq!['/'] + rest) == a,
        before_slash(a) == a,
        decimal_value(a) >= 1 ==> face_from_words(seq![a + seq!['/'] + rest]) == seq![
            (decimal_value(a) - 1) as usize,
        ],
        decimal_value(a) >= 1 ==> face_from_words(seq![a]) == seq![(decimal_value(a) - 1) as usize],
        decimal_value(a) == 0 ==> face_from_words(seq![a + seq!['/'] + rest]) == seq![usize::MAX],
{
    let w = a + seq!['/'] + rest;
    assert(w[a.len() as int] == '/');
    assert forall|k: int| 0 <= k < a.len() implies is_digit(#[trigger] w[k]) by {
        assert(w[k] == a[k]);
    }
    lemma_slash_after_digits(w, a.len() as int, 0);
    assert(w.take(a.len() as int) =~= a);
    lemma_find_from(a, seq!['/'], 0);
    if let Some(i) = find_from(a, seq!['/'], 0) {
        assert(a.subrange(i, i + 1)[0] == a[i]);
        assert(is_digit(a[i]));
    }
    assert(is_digit(a[0]));
    assert(parse_usize(a) == Some(decimal_value(a) as usize));
    let one = seq![w];
    assert(one.drop_last() =~= Seq::<Seq<char>>::empty());
    assert(one.last() == w);
    let bare = seq![a];
    assert(bare.drop_last() =~= Seq::<Seq<char>>::empty());
    assert(bare.last() == a);
    assert(face_from_words(one.drop_last()) == Seq::<usize>::empty());
    assert(face_from_words(bare.drop_last()) == Seq::<usize>::empty());
    assert(face_from_words(one) =~= seq![zero_based(decimal_value(a) as usize)]);
    assert(face_from_words(bare) =~= seq![zero_based(decimal_value(a) as usize)]);
}

} // verus!
