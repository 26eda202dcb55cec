//! The sky: which textures its four walls have and how they are laid out.
use crate::float_bits;
use crate::properties::{slashed, with_slashes};
use crate::text::{
    joined, law_splitn_and_join, law_splitn_finds_parts, law_trim, splitn, splitn_spec, trim, trim_spec, views,
};
use vstd::prelude::*;

verus! {

/// A wall of the sky box.
#[derive(Debug)]
pub struct SkyFace {
    /// The path of its texture.
    pub texture: String,
    /// The corners of its part of the texture, as they are written; those that
    /// are missing take their default.
    pub uv: Vec<String>,
}

/// The part `i` of the description of a wall.
pub open spec fn face_part(raw: Seq<char>, i: int) -> Seq<char> {
    trim_spec(splitn_spec(raw, ',', 5)[i])
}

/// A wall is described by a path and up to four numbers, with commas between.
pub open spec fn is_face_of(f: SkyFace, raw: Seq<char>) -> bool {
    &&& f.texture@ == with_slashes(face_part(raw, 0))
    &&& f.uv@.len() == splitn_spec(raw, ',', 5).len() - 1
    &&& forall|i: int| 0 <= i < f.uv@.len() ==> (#[trigger] f.uv@[i])@ == face_part(raw, i + 1)
}

proof fn lemma_splitn_len(s: Seq<char>, n: nat)
    requires
        n >= 1,
    ensures
        1 <= splitn_spec(s, ',', n).len() <= n,
    decreases n,
{
    let k = crate::text::first_of(s, ',');
    if n > 1 && k < s.len() {
        lemma_splitn_len(s.subrange(k + 1, s.len() as int), (n - 1) as nat);
    }
}

/// Read the description of a wall.
pub fn parse_face(raw: &str) -> (f: SkyFace)
    ensures
        is_face_of(f, raw@),
        f.uv@.len() <= 4,
{
    let parts = splitn(raw, ',', 5);
    let ghost goal = splitn_spec(raw@, ',', 5);
    proof {
        lemma_splitn_len(raw@, 5);
        assert(views(parts@).len() == parts@.len());
        assert(forall|i: int| 0 <= i < parts@.len() ==> views(parts@)[i] == parts@[i]@);
    }
    let texture = slashed(trim(parts[0]));
    let mut uv: Vec<String> = Vec::new();
    let mut i: usize = 1;
    while i < parts.len()
        invariant
            goal == splitn_spec(raw@, ',', 5),
            views(parts@) == goal,
            1 <= i <= parts@.len(),
            uv@.len() == i - 1,
            forall|k: int| 0 <= k < i - 1 ==> (#[trigger] uv@[k])@ == face_part(raw@, k + 1),
        decreases parts.len() - i,
    {
        assert(views(parts@)[i as int] == parts@[i as int]@);
        uv.push(trim(parts[i]).to_string());
        i = i + 1;
    }
    SkyFace { texture, uv }
}

/// The description of a wall, empty where there is none.
pub open spec fn face_text(raw: Option<String>) -> Seq<char> {
    match raw {
        Some(s) => s@,
        None => ""@,
    }
}

/// The walls of a sky from their descriptions, in order.
pub fn resolve_sky_faces(raws: &Vec<Option<String>>) -> (fs: Vec<SkyFace>)
    ensures
        fs@.len() == raws@.len(),
        forall|i: int|
            0 <= i < raws@.len() ==> is_face_of(#[trigger] fs@[i], face_text(raws@[i])),
{
    let mut fs: Vec<SkyFace> = Vec::new();
    let mut i: usize = 0;
    while i < raws.len()
        invariant
            i <= raws@.len(),
            fs@.len() == i,
            forall|k: int| 0 <= k < i ==> is_face_of(#[trigger] fs@[k], face_text(raws@[k])),
        decreases raws.len() - i,
    {
        let f = match &raws[i] {
            Some(s) => parse_face(s.as_str()),
            None => parse_face(""),
        };
        fs.push(f);
        i = i + 1;
    }
    fs
}

/// The names of the four walls, in the order in which they are laid out.
pub fn face_config_keys() -> (k: [&'static str; 4])
    ensures
        k@ == seq!["Fore", "Right", "Back", "Left"],
{
    let k = ["Fore", "Right", "Back", "Left"];
    assert(k@ =~= seq!["Fore", "Right", "Back", "Left"]);
    k
}

/// A corner of a wall.
#[derive(Debug, Clone, Copy, PartialEq, Eq, Structural)]
pub struct BoxCorner {
    pub face: usize,
    /// On the right of the wall, otherwise on the left.
    pub right: bool,
    /// At the bottom of the wall, otherwise at the top.
    pub bottom: bool,
}

/// The corners of the two triangles of a wall.
pub open spec fn face_corners(face: usize) -> Seq<BoxCorner> {
    seq![
        BoxCorner { face, right: false, bottom: false },
        BoxCorner { face, right: false, bottom: true },
        BoxCorner { face, right: true, bottom: false },
        BoxCorner { face, right: true, bottom: false },
        BoxCorner { face, right: false, bottom: true },
        BoxCorner { face, right: true, bottom: true },
    ]
}

/// Lay out a wall.
pub fn push_face(out: &mut Vec<BoxCorner>, face: usize)
    ensures
        final(out)@ == old(out)@ + face_corners(face),
{
    out.push(BoxCorner { face, right: false, bottom: false });
    out.push(BoxCorner { face, right: false, bottom: true });
    out.push(BoxCorner { face, right: true, bottom: false });
    out.push(BoxCorner { face, right: true, bottom: false });
    out.push(BoxCorner { face, right: false, bottom: true });
    out.push(BoxCorner { face, right: true, bottom: true });
    assert(out@ =~= old(out)@ + face_corners(face));
}

/// Lay out the four walls.
pub fn build_skybox_vertices() -> (v: Vec<BoxCorner>)
    ensures
        v@ == face_corners(0) + face_corners(1) + face_corners(2) + face_corners(3),
{
    let mut v: Vec<BoxCorner> = Vec::new();
    push_face(&mut v, 0);
    push_face(&mut v, 1);
    push_face(&mut v, 2);
    push_face(&mut v, 3);
    assert(v@ =~= face_corners(0) + face_corners(1) + face_corners(2) + face_corners(3));
    v
}

/// The upper edge of the gradient at the horizon: without a sky box it reaches
/// the top of the screen.
pub fn gradient_top(has_skybox: bool, top: u32) -> (t: u32)
    ensures
        t == if !has_skybox && float_bits::lt_spec(top, float_bits::ONE) {
            float_bits::ONE
        } else {
            top
        },
{
    if !has_skybox && float_bits::lt(top, float_bits::ONE) {
        float_bits::ONE
    } else {
        top
    }
}

/// The path of the texture that shines on wet ground.
pub open spec fn reflection_path_spec(param: Option<Seq<char>>) -> Seq<char> {
    match param {
        Some(p) => if trim_spec(p).len() > 0 {
            with_slashes(trim_spec(p))
        } else {
            "Matrix/Textures/reflection"@
        },
        None => "Matrix/Textures/reflection"@,
    }
}

/// The texture that the sky names, or the default where it names none.
pub fn reflection_path(param: Option<&str>) -> (r: String)
    ensures
        r@ == reflection_path_spec(
            match param {
                Some(p) => Some(p@),
                None => None,
            },
        ),
{
    match param {
        Some(p) => {
            let t = trim(p);
            if t.unicode_len() > 0 {
                return slashed(t);
            }
        },
        None => {},
    }
    "Matrix/Textures/reflection".to_string()
}

/// The walls of a box are laid out as two triangles each that share the corners
/// of one side: every corner of every wall is there.
pub proof fn law_every_corner_laid_out(face: usize, right: bool, bottom: bool)
    ensures
        face_corners(face).contains((BoxCorner { face, right, bottom })),
        face_corners(face).len() == 6,
{
    let c = face_corners(face);
    assert(c[0] == (BoxCorner { face, right: false, bottom: false }));
    assert(c[1] == (BoxCorner { face, right: false, bottom: true }));
    assert(c[2] == (BoxCorner { face, right: true, bottom: false }));
    assert(c[5] == (BoxCorner { face, right: true, bottom: true }));
}

/// A wall's texture is the text before the first comma, trimmed, with forward
/// slashes in place of backward ones; what lies between the next commas, trimmed,
/// tells how it is laid out.
pub proof fn law_face_is_read(f: SkyFace, name: Seq<char>, rest: Seq<char>, i: int)
    requires
        is_face_of(f, name + seq![','] + rest),
        !name.contains(','),
        0 <= i < trim_spec(name).len(),
    ensures
        f.texture@.len() == trim_spec(name).len(),
        trim_spec(name)[i] == '\\' ==> f.texture@[i] == '/',
        trim_spec(name)[i] != '\\' ==> f.texture@[i] == trim_spec(name)[i],
        1 <= f.uv@.len() <= 4,
{
    let raw = name + seq![','] + rest;
    let w = splitn_spec(raw, ',', 5);
    law_splitn_and_join(raw, ',', 5);
    lemma_first_part(raw, name, rest);
    assert(w[0] == name);
}

proof fn lemma_first_part(raw: Seq<char>, name: Seq<char>, rest: Seq<char>)
    requires
        raw == name + seq![','] + rest,
        !name.contains(','),
    ensures
        splitn_spec(raw, ',', 5).len() >= 2,
        splitn_spec(raw, ',', 5)[0] == name,
{
    let w = splitn_spec(raw, ',', 5);
    law_splitn_and_join(raw, ',', 5);
    assert(raw[name.len() as int] == ',');
    if w.len() == 1 {
        assert(joined(w, ',') == w[0]);
        assert(w[0][name.len() as int] == ',');
    } else {
        let tail = joined(w.drop_first(), ',');
        assert(raw == w[0] + seq![','] + tail);
        assert(!w[0].contains(','));
        if w[0].len() < name.len() {
            assert(raw[w[0].len() as int] == ',');
            assert(name[w[0].len() as int] == ',');
        } else if w[0].len() > name.len() {
            assert(w[0][name.len() as int] == ',');
        } else {
            assert(w[0] =~= raw.take(name.len() as int));
            assert(name =~= raw.take(name.len() as int));
        }
    }
}

/// A wall without a text has an empty texture and no layout.
pub proof fn law_missing_face(f: SkyFace)
    requires
        is_face_of(f, face_text(None)),
    ensures
        f.texture@.len() == 0,
        f.uv@.len() == 0,
{
    reveal_strlit("");
    let raw = ""@;
    assert(raw =~= Seq::<char>::empty());
    law_splitn_and_join(raw, ',', 5);
    let w = splitn_spec(raw, ',', 5);
    if w.len() > 1 {
        assert(joined(w, ',') == w[0] + seq![','] + joined(w.drop_first(), ','));
        assert(joined(w, ',').len() > 0);
    }
    assert(w[0].len() == 0);
    law_trim(w[0]);
}

/// The corners of a wall's two triangles share an edge between opposite
/// corners, so that together they cover the wall.
pub proof fn law_two_triangles(face: usize)
    ensures
        ({
            let c = face_corners(face);
            &&& c[1] == c[4] && (c[2] == c[3])
            &&& c[1].right != c[2].right && c[1].bottom != c[2].bottom
            &&& c[0].right != c[5].right && c[0].bottom != c[5].bottom
            &&& !c[0].right && !c[0].bottom && !c[1].right && c[1].bottom
            &&& forall|i: int| 0 <= i < 6 ==> (#[trigger] c[i]).face == face
        }),
{
}

/// The reflection's texture is the one that was given, with forward slashes, or
/// the usual one where nothing but white space was.
pub proof fn law_reflection_given(p: Seq<char>, i: int)
    ensures
        0 <= i < trim_spec(p).len() ==> reflection_path_spec(Some(p)).len() == trim_spec(p).len()
            && reflection_path_spec(Some(p))[i] == if trim_spec(p)[i] == '\\' {
            '/'
        } else {
            trim_spec(p)[i]
        },
        trim_spec(p).len() == 0 ==> reflection_path_spec(Some(p)) == reflection_path_spec(None),
        reflection_path_spec(None) == "Matrix/Textures/reflection"@,
{
}

/// The words between the commas behind the texture, up to four, are kept
/// trimmed and in their order; the fourth takes what is left of the text.
pub proof fn law_face_layout(f: SkyFace, w: Seq<Seq<char>>, i: int)
    requires
        1 <= w.len() <= 5,
        forall|k: int| 0 <= k < w.len() - 1 ==> !(#[trigger] w[k]).contains(','),
        w.len() < 5 ==> !w.last().contains(','),
        is_face_of(f, joined(w, ',')),
        1 <= i < w.len(),
    ensures
        f.uv@.len() == w.len() - 1,
        f.uv@[i - 1]@ == trim_spec(w[i]),
{
    law_splitn_finds_parts(w, ',', 5);
    assert(f.uv@[i - 1]@ == face_part(joined(w, ','), i));
}

} // verus!
