//! The property table of a map: names and values as texts, and what the map
//! takes from them.
use crate::bytes::{to_unsigned, unsigned};
use crate::float_bits;
use crate::text::{
    first_of, int_spec, lemma_first_of, lemma_first_of_is, parse_i32, split, split_once, split_once_spec, split_spec, trim, trim_spec,
    views,
};
use vstd::prelude::*;

verus! {

/// Why a property is not to be had.
#[derive(Debug, Clone, Copy, PartialEq, Eq, Structural)]
pub enum PropertyError {
    /// No property of that name.
    Missing,
    /// Its value is not a whole number.
    NotANumber,
}

/// Texts as characters.
pub open spec fn rows(v: Seq<String>) -> Seq<Seq<char>> {
    Seq::new(v.len(), |i: int| v[i]@)
}

/// Where `key` first stands among the first `n` rows, counted from the front;
/// `n` where it does not.
pub open spec fn find_row(v: Seq<Seq<char>>, key: Seq<char>, n: int) -> int
    decreases n,
{
    if n <= 0 {
        0
    } else {
        let k = find_row(v, key, n - 1);
        if k < n - 1 || v[n - 1] == key {
            k
        } else {
            n
        }
    }
}

/// The value of a property; a name without a value has the empty one.
pub open spec fn property(names: Seq<Seq<char>>, values: Seq<Seq<char>>, key: Seq<char>) -> Option<
    Seq<char>,
> {
    let k = find_row(names, key, names.len() as int);
    if k >= names.len() {
        None
    } else if k < values.len() {
        Some(values[k])
    } else {
        Some(Seq::empty())
    }
}

proof fn lemma_find_row(v: Seq<Seq<char>>, key: Seq<char>, n: int)
    requires
        0 <= n,
    ensures
        0 <= find_row(v, key, n) <= n,
    decreases n,
{
    if n > 0 {
        lemma_find_row(v, key, n - 1);
    }
}

proof fn lemma_find_row_hit(v: Seq<Seq<char>>, key: Seq<char>, k: int, n: int)
    requires
        0 <= k < n,
        find_row(v, key, k) == k,
        v[k] == key,
    ensures
        find_row(v, key, n) == k,
    decreases n,
{
    if n - 1 > k {
        lemma_find_row_hit(v, key, k, n - 1);
    }
}

/// The text of a property.
pub fn find_property<'a>(names: &Vec<String>, values: &'a Vec<String>, key: &str) -> (r: Option<
    &'a str,
>)
    ensures
        match r {
            Some(t) => property(rows(names@), rows(values@), key@) == Some(t@),
            None => property(rows(names@), rows(values@), key@) is None,
        },
{
    let ghost ns = rows(names@);
    let mut i: usize = 0;
    while i < names.len()
        invariant
            ns == rows(names@),
            i <= names@.len(),
            find_row(ns, key@, i as int) == i,
        decreases names.len() - i,
    {
        assert(ns[i as int] == names@[i as int]@);
        if same_text(names[i].as_str(), key) {
            proof {
                lemma_find_row_hit(ns, key@, i as int, ns.len() as int);
            }
            if i < values.len() {
                assert(rows(values@)[i as int] == values@[i as int]@);
                return Some(values[i].as_str());
            }
            let none: &str = "";
            proof {
                reveal_strlit("");
                assert(none@ =~= Seq::<char>::empty());
            }
            return Some(none);
        }
        i = i + 1;
    }
    None
}

/// Do two texts have the same characters?
pub fn same_text(a: &str, b: &str) -> (r: bool)
    ensures
        r == (a@ == b@),
{
    let n = a.unicode_len();
    if n != b.unicode_len() {
        return false;
    }
    let mut i: usize = 0;
    while i < n
        invariant
            n == a@.len(),
            n == b@.len(),
            i <= n,
            forall|k: int| 0 <= k < i ==> a@[k] == b@[k],
        decreases n - i,
    {
        if a.get_char(i) != b.get_char(i) {
            return false;
        }
        i = i + 1;
    }
    assert(a@ =~= b@);
    true
}

/// A property as a whole number.
pub open spec fn int_property(
    names: Seq<Seq<char>>,
    values: Seq<Seq<char>>,
    key: Seq<char>,
) -> Result<i32, PropertyError> {
    match property(names, values, key) {
        None => Err(PropertyError::Missing),
        Some(t) => match int_spec(trim_spec(t)) {
            Some(v) => Ok(v),
            None => Err(PropertyError::NotANumber),
        },
    }
}

pub fn find_property_int(names: &Vec<String>, values: &Vec<String>, key: &str) -> (r: Result<
    i32,
    PropertyError,
>)
    ensures
        r == int_property(rows(names@), rows(values@), key@),
{
    match find_property(names, values, key) {
        None => Err(PropertyError::Missing),
        Some(t) => {
            match parse_i32(trim(t)) {
                Some(v) => Ok(v),
                None => Err(PropertyError::NotANumber),
            }
        },
    }
}

/// A property as a whole number, or a default.
pub open spec fn int_or(
    names: Seq<Seq<char>>,
    values: Seq<Seq<char>>,
    key: Seq<char>,
    default: i32,
) -> i32 {
    match int_property(names, values, key) {
        Ok(v) => v,
        Err(_) => default,
    }
}

fn property_int_or(names: &Vec<String>, values: &Vec<String>, key: &str, default: i32) -> (r: i32)
    ensures
        r == int_or(rows(names@), rows(values@), key@, default),
{
    match find_property_int(names, values, key) {
        Ok(v) => v,
        Err(_) => default,
    }
}

/// A text property, or a default where it is missing or blank.
pub open spec fn text_or(
    names: Seq<Seq<char>>,
    values: Seq<Seq<char>>,
    key: Seq<char>,
    default: Seq<char>,
) -> Seq<char> {
    match property(names, values, key) {
        Some(t) => if trim_spec(t).len() > 0 {
            t
        } else {
            default
        },
        None => default,
    }
}

fn property_text_or(names: &Vec<String>, values: &Vec<String>, key: &str, default: &str) -> (r:
    String)
    ensures
        r@ == text_or(rows(names@), rows(values@), key@, default@),
{
    match find_property(names, values, key) {
        Some(t) => {
            if trim(t).unicode_len() > 0 {
                t.to_string()
            } else {
                default.to_string()
            }
        },
        None => default.to_string(),
    }
}

// ── Per-side texts ──────────────────────────────────────────────────────
/// The starting economy of one side.
#[derive(Debug, Clone, Copy, PartialEq, Eq)]
pub struct SideRes {
    pub side: i32,
    pub res: (i32, i32, i32, i32),
    pub force_up: i32,
}

/// A field as a number; anything else counts as zero.
pub open spec fn field_int(s: Seq<char>) -> i32 {
    match int_spec(trim_spec(s)) {
        Some(v) => v,
        None => 0,
    }
}

fn read_field(s: &str) -> (r: i32)
    ensures
        r == field_int(s@),
{
    match parse_i32(trim(s)) {
        Some(v) => v,
        None => 0,
    }
}

/// One entry of the economy text: the side, four resources, and how far income
/// is raised, which is a hundred percent when left out. Blank entries and short
/// ones are no entries.
pub open spec fn side_res_entry(s: Seq<char>) -> Option<SideRes> {
    let t = trim_spec(s);
    let f = split_spec(t, ',');
    if t.len() == 0 || f.len() < 5 {
        None
    } else {
        Some(
            SideRes {
                side: field_int(f[0]),
                res: (field_int(f[1]), field_int(f[2]), field_int(f[3]), field_int(f[4])),
                force_up: if f.len() > 5 {
                    field_int(f[5])
                } else {
                    100
                },
            },
        )
    }
}

/// The entries among the first `n` pieces.
pub open spec fn side_res_upto(p: Seq<Seq<char>>, n: int) -> Seq<SideRes>
    decreases n,
{
    if n <= 0 {
        Seq::empty()
    } else {
        match side_res_entry(p[n - 1]) {
            Some(e) => side_res_upto(p, n - 1).push(e),
            None => side_res_upto(p, n - 1),
        }
    }
}

pub open spec fn side_res_spec(s: Seq<char>) -> Seq<SideRes> {
    side_res_upto(split_spec(s, '|'), split_spec(s, '|').len() as int)
}

/// Read `id,res0,res1,res2,res3[,forceUp]` entries, separated by bars.
pub fn parse_side_res_info(s: &str) -> (r: Vec<SideRes>)
    ensures
        r@ == side_res_spec(s@),
{
    let pieces = split(s, '|');
    let ghost p = split_spec(s@, '|');
    let mut r: Vec<SideRes> = Vec::new();
    let mut i: usize = 0;
    while i < pieces.len()
        invariant
            views(pieces@) == p,
            i <= pieces@.len(),
            r@ == side_res_upto(p, i as int),
        decreases pieces.len() - i,
    {
        let entry = trim(pieces[i]);
        assert(p[i as int] == pieces@[i as int]@);
        i = i + 1;
        if entry.unicode_len() == 0 {
            continue;
        }
        let f = split(entry, ',');
        if f.len() < 5 {
            continue;
        }
        proof {
            assert forall|k: int| 0 <= k < f@.len() implies (#[trigger] f@[k])@ == split_spec(
                entry@,
                ',',
            )[k] by {
                assert(views(f@)[k] == f@[k]@);
            }
        }
        let force_up = if f.len() > 5 {
            read_field(f[5])
        } else {
            100
        };
        r.push(
            SideRes {
                side: read_field(f[0]),
                res: (read_field(f[1]), read_field(f[2]), read_field(f[3]), read_field(f[4])),
                force_up,
            },
        );
    }
    r
}

/// The tuning of one side's play: a name and pairs of keys and values.
#[derive(Debug)]
pub struct SideAi {
    pub name: String,
    pub pairs: Vec<(String, String)>,
}

/// The same as characters.
pub struct SideAiView {
    pub name: Seq<char>,
    pub pairs: Seq<(Seq<char>, Seq<char>)>,
}

pub open spec fn pair_views(v: Seq<(String, String)>) -> Seq<(Seq<char>, Seq<char>)> {
    Seq::new(v.len(), |i: int| (v[i].0@, v[i].1@))
}

impl View for SideAi {
    type V = SideAiView;

    open spec fn view(&self) -> SideAiView {
        SideAiView { name: self.name@, pairs: pair_views(self.pairs@) }
    }
}

/// Keys and values alternate; a key without a value is dropped.
pub open spec fn side_ai_pairs(s: Seq<char>) -> Seq<(Seq<char>, Seq<char>)> {
    let f = split_spec(s, '/');
    Seq::new(
        (f.len() / 2) as nat,
        |i: int| (trim_spec(f[2 * i]), trim_spec(f[2 * i + 1])),
    )
}

/// One entry of the tuning text; without a colon it is none.
pub open spec fn side_ai_entry(s: Seq<char>) -> Option<SideAiView> {
    match split_once_spec(s, ':') {
        Some(p) => Some(SideAiView { name: trim_spec(p.0), pairs: side_ai_pairs(p.1) }),
        None => None,
    }
}

pub open spec fn side_ai_upto(p: Seq<Seq<char>>, n: int) -> Seq<SideAiView>
    decreases n,
{
    if n <= 0 {
        Seq::empty()
    } else {
        match side_ai_entry(p[n - 1]) {
            Some(e) => side_ai_upto(p, n - 1).push(e),
            None => side_ai_upto(p, n - 1),
        }
    }
}

pub open spec fn side_ai_spec(s: Seq<char>) -> Seq<SideAiView> {
    side_ai_upto(split_spec(s, '|'), split_spec(s, '|').len() as int)
}

pub open spec fn side_ai_views(v: Seq<SideAi>) -> Seq<SideAiView> {
    Seq::new(v.len(), |i: int| v[i]@)
}

fn read_pairs(s: &str) -> (r: Vec<(String, String)>)
    ensures
        pair_views(r@) == side_ai_pairs(s@),
{
    let f = split(s, '/');
    let ghost fs = split_spec(s@, '/');
    let len = f.len();
    let n = len / 2;
    let mut r: Vec<(String, String)> = Vec::new();
    let mut i: usize = 0;
    while i < n
        invariant
            views(f@) == fs,
            fs == split_spec(s@, '/'),
            len == f@.len(),
            n == len / 2,
            i <= n,
            pair_views(r@) =~= side_ai_pairs(s@).take(i as int),
        decreases n - i,
    {
        assert(fs[2 * i] == f@[2 * i]@);
        assert(fs[2 * i + 1] == f@[2 * i + 1]@);
        let k = trim(f[2 * i]).to_string();
        let v = trim(f[2 * i + 1]).to_string();
        let ghost before = r@;
        r.push((k, v));
        assert(pair_views(r@) =~= pair_views(before).push((k@, v@)));
        i = i + 1;
    }
    assert(side_ai_pairs(s@).take(i as int) =~= side_ai_pairs(s@));
    r
}

/// Read `Name:KEY/VAL/KEY/VAL` entries, separated by bars.
pub fn parse_side_ai_info(s: &str) -> (r: Vec<SideAi>)
    ensures
        side_ai_views(r@) == side_ai_spec(s@),
{
    let pieces = split(s, '|');
    let ghost p = split_spec(s@, '|');
    let mut r: Vec<SideAi> = Vec::new();
    let mut i: usize = 0;
    assert(side_ai_views(r@) =~= side_ai_upto(p, 0));
    while i < pieces.len()
        invariant
            views(pieces@) == p,
            i <= pieces@.len(),
            side_ai_views(r@) == side_ai_upto(p, i as int),
        decreases pieces.len() - i,
    {
        assert(p[i as int] == pieces@[i as int]@);
        match split_once(pieces[i], ':') {
            Some((name, kvs)) => {
                let e = SideAi { name: trim(name).to_string(), pairs: read_pairs(kvs) };
                let ghost before = r@;
                r.push(e);
                assert(side_ai_views(r@) =~= side_ai_views(before).push(e@));
            },
            None => {},
        }
        i = i + 1;
    }
    r
}

// ── Macro texture ───────────────────────────────────────────────────────
/// Backslashes as slashes.
pub open spec fn with_slashes(s: Seq<char>) -> Seq<char> {
    s.map_values(
        |c: char|
            if c == '\\' {
                '/'
            } else {
                c
            },
    )
}

/// A path with forward slashes.
pub fn slashed(s: &str) -> (r: String)
    ensures
        r@ == with_slashes(s@),
{
    let n = s.unicode_len();
    let mut r = String::new();
    let mut i: usize = 0;
    proof {
        reveal_strlit("/");
        reveal_strlit("");
    }
    assert(r@ =~= with_slashes(s@).take(0));
    while i < n
        invariant
            n == s@.len(),
            i <= n,
            "/"@ =~= seq!['/'],
            r@ == with_slashes(s@).take(i as int),
        decreases n - i,
    {
        if s.get_char(i) == '\\' {
            r.append("/");
        } else {
            r.append(s.substring_char(i, i + 1));
        }
        i = i + 1;
        assert(r@ =~= with_slashes(s@).take(i as int));
    }
    assert(with_slashes(s@).take(n as int) =~= with_slashes(s@));
    r
}

/// `p` stands in `s` from `i` on.
pub open spec fn stands_at(s: Seq<char>, p: Seq<char>, i: int) -> bool {
    i + p.len() <= s.len() && s.subrange(i, i + p.len()) == p
}

/// Where `p` first stands in `s`, from `i` on.
pub open spec fn find_text_from(s: Seq<char>, p: Seq<char>, i: int) -> Option<int>
    decreases s.len() + 1 - i,
{
    if i > s.len() {
        None
    } else if stands_at(s, p, i) {
        Some(i)
    } else {
        find_text_from(s, p, i + 1)
    }
}

fn text_stands_at(s: &str, p: &str, i: usize, n: usize, m: usize) -> (r: bool)
    requires
        n == s@.len(),
        m == p@.len(),
        i <= n,
    ensures
        r == stands_at(s@, p@, i as int),
{
    if m > n - i {
        return false;
    }
    let mut k: usize = 0;
    while k < m
        invariant
            n == s@.len(),
            m == p@.len(),
            i + m <= n,
            k <= m,
            forall|j: int| 0 <= j < k ==> s@[i + j] == p@[j],
        decreases m - k,
    {
        if s.get_char(i + k) != p.get_char(k) {
            assert(s@.subrange(i as int, i + m)[k as int] != p@[k as int]);
            return false;
        }
        k = k + 1;
    }
    assert(s@.subrange(i as int, i + m) =~= p@);
    true
}

/// Where a text first stands in another.
pub fn find_text(s: &str, p: &str) -> (r: Option<usize>)
    ensures
        match r {
            Some(i) => find_text_from(s@, p@, 0) == Some(i as int) && i + p@.len() <= s@.len(),
            None => find_text_from(s@, p@, 0) is None,
        },
{
    let n = s.unicode_len();
    let m = p.unicode_len();
    let mut i: usize = 0;
    while i < n
        invariant
            n == s@.len(),
            m == p@.len(),
            i <= n,
            find_text_from(s@, p@, i as int) == find_text_from(s@, p@, 0),
        decreases n - i,
    {
        if text_stands_at(s, p, i, n, m) {
            return Some(i);
        }
        i = i + 1;
    }
    assert(find_text_from(s@, p@, n + 1) is None);
    if text_stands_at(s, p, n, n, m) {
        return Some(n);
    }
    None
}

/// The macro texture of a map and the size of its pattern.
#[derive(Debug)]
pub struct MacroTexture {
    pub path: Option<String>,
    pub size: i32,
}

/// The path ends before the first question mark.
pub open spec fn macro_path(s: Seq<char>) -> Seq<char> {
    with_slashes(s.take(first_of(s, '?')))
}

/// The size follows the letters `SIM`; it is one where it is missing or is no
/// number.
pub open spec fn macro_size(s: Seq<char>) -> i32 {
    match find_text_from(s, seq!['S', 'I', 'M'], 0) {
        Some(k) => match int_spec(s.subrange(k + 3, s.len() as int)) {
            Some(v) => v,
            None => 1,
        },
        None => 1,
    }
}

/// Read the macro texture property, such as `Matrix\Macrotexture\05?SIM80`.
pub fn parse_macro_texture(val: &str) -> (m: MacroTexture)
    ensures
        match m.path {
            Some(p) => p@ == macro_path(val@) && p@.len() > 0,
            None => macro_path(val@).len() == 0,
        },
        m.size == macro_size(val@),
{
    let pieces = split(val, '?');
    proof {
        assert(views(pieces@)[0] == pieces@[0]@);
        crate::text::lemma_first_of(val@, '?');
        if first_of(val@, '?') >= val@.len() {
            assert(val@.take(first_of(val@, '?')) =~= val@);
        }
        reveal_strlit("SIM");
        assert("SIM"@ =~= seq!['S', 'I', 'M']);
    }
    let p = slashed(pieces[0]);
    let path = if p.as_str().unicode_len() > 0 {
        Some(p)
    } else {
        None
    };
    let mut size: i32 = 1;
    match find_text(val, "SIM") {
        Some(k) => {
            let n = val.unicode_len();
            match parse_i32(val.substring_char(k + 3, n)) {
                Some(v) => {
                    size = v;
                },
                None => {},
            }
        },
        None => {},
    }
    MacroTexture { path, size }
}

// ── All of it ───────────────────────────────────────────────────────────
/// What a map takes from its properties, apart from the real numbers.
#[derive(Debug)]
pub struct MapProperties {
    pub tex_union_dim: i32,
    pub water_color: u32,
    pub sky_color: u32,
    pub sky_name: String,
    pub water_name: String,
    pub side_res_info: Vec<SideRes>,
    pub side_ai_info: Vec<SideAi>,
    /// Percentage that scales the reinforcement pause.
    pub maintenance_prc: i32,
    pub light_main_color: u32,
    pub light_main_color_obj: u32,
    pub ambient_color_obj: u32,
    pub ambient_color: u32,
    /// Alpha, red, green and blue, from the top.
    pub shadow_color: u32,
    pub inshorewave_color: u32,
    pub disable_inshore: bool,
    pub macro_texture: MacroTexture,
}

impl MapProperties {
    /// The properties as the tables give them, with the defaults of a map that
    /// leaves them out.
    pub open spec fn reads(&self, n: Seq<Seq<char>>, v: Seq<Seq<char>>) -> bool {
        let light = to_unsigned(int_or(n, v, "LightMainColor"@, 0x98_9898));
        &&& self.tex_union_dim == int_or(n, v, "TexUnionDim"@, 16)
        &&& self.water_color == to_unsigned(int_or(n, v, "WaterColor"@, 0x3060))
        &&& self.sky_color == to_unsigned(int_or(n, v, "SkyColor"@, 0x10_70ff))
        &&& self.sky_name@ == text_or(n, v, "SkyName"@, "Default"@)
        &&& self.water_name@ == text_or(n, v, "WaterName"@, "water_blue"@)
        &&& self.side_res_info@ == match property(n, v, "SideResInfo"@) {
            Some(t) => side_res_spec(t),
            None => Seq::empty(),
        }
        &&& side_ai_views(self.side_ai_info@) == match property(n, v, "SideAIInfo"@) {
            Some(t) => side_ai_spec(t),
            None => Seq::empty(),
        }
        &&& self.maintenance_prc == int_or(n, v, "MaintenanceTime"@, 100)
        &&& self.light_main_color == light
        &&& self.light_main_color_obj == match int_property(n, v, "LightMainColorObj"@) {
            Ok(c) => to_unsigned(c),
            Err(_) => light,
        }
        &&& self.ambient_color_obj == to_unsigned(int_or(n, v, "AmbientColorObj"@, 0x80_8080))
        &&& self.ambient_color == to_unsigned(int_or(n, v, "AmbientColor"@, 0x80_8080))
        &&& self.shadow_color == to_unsigned(int_or(n, v, "ShadowColor"@, 0x7300_0000))
        &&& self.inshorewave_color == to_unsigned(int_or(n, v, "InshorewaveColor"@, 0x8080))
        &&& self.disable_inshore == (int_or(n, v, "DisableInshore"@, 0) != 0)
        &&& match property(n, v, "MacroTexture"@) {
            Some(t) => {
                &&& self.macro_texture.size == macro_size(t)
                &&& match self.macro_texture.path {
                    Some(p) => p@ == macro_path(t) && p@.len() > 0,
                    None => macro_path(t).len() == 0,
                }
            },
            None => self.macro_texture.path is None && self.macro_texture.size == 1,
        }
    }
}

/// Read everything that a map takes from its properties.
pub fn load_properties(names: &Vec<String>, values: &Vec<String>) -> (p: MapProperties)
    ensures
        p.reads(rows(names@), rows(values@)),
{
    let side_res_info = match find_property(names, values, "SideResInfo") {
        Some(t) => parse_side_res_info(t),
        None => Vec::new(),
    };
    let side_ai_info = match find_property(names, values, "SideAIInfo") {
        Some(t) => parse_side_ai_info(t),
        None => Vec::new(),
    };
    proof {
        if property(rows(names@), rows(values@), "SideAIInfo"@) is None {
            assert(side_ai_views(side_ai_info@) =~= Seq::empty());
        }
    }
    let macro_texture = match find_property(names, values, "MacroTexture") {
        Some(t) => parse_macro_texture(t),
        None => MacroTexture { path: None, size: 1 },
    };
    let light_main_color = unsigned(property_int_or(names, values, "LightMainColor", 0x98_9898));
    let light_main_color_obj = match find_property_int(names, values, "LightMainColorObj") {
        Ok(c) => unsigned(c),
        Err(_) => light_main_color,
    };
    MapProperties {
        tex_union_dim: property_int_or(names, values, "TexUnionDim", 16),
        water_color: unsigned(property_int_or(names, values, "WaterColor", 0x3060)),
        sky_color: unsigned(property_int_or(names, values, "SkyColor", 0x10_70ff)),
        sky_name: property_text_or(names, values, "SkyName", "Default"),
        water_name: property_text_or(names, values, "WaterName", "water_blue"),
        side_res_info,
        side_ai_info,
        maintenance_prc: property_int_or(names, values, "MaintenanceTime", 100),
        light_main_color,
        light_main_color_obj,
        ambient_color_obj: unsigned(property_int_or(names, values, "AmbientColorObj", 0x80_8080)),
        ambient_color: unsigned(property_int_or(names, values, "AmbientColor", 0x80_8080)),
        shadow_color: unsigned(property_int_or(names, values, "ShadowColor", 0x7300_0000)),
        inshorewave_color: unsigned(property_int_or(names, values, "InshorewaveColor", 0x8080)),
        disable_inshore: property_int_or(names, values, "DisableInshore", 0) != 0,
        macro_texture,
    }
}

/// The macro textures to be tried, in order, as characters: the one that the map
/// names, then the common one.
pub open spec fn macro_names(path: Option<Seq<char>>) -> Seq<Seq<char>> {
    match path {
        Some(p) => seq![p, "macrotexture"@],
        None => seq!["macrotexture"@],
    }
}

pub fn macro_candidates(m: &MacroTexture) -> (r: Vec<String>)
    ensures
        rows(r@) == macro_names(
            match m.path {
                Some(p) => Some(p@),
                None => None,
            },
        ),
{
    let mut r: Vec<String> = Vec::new();
    match &m.path {
        Some(p) => {
            r.push(p.clone());
        },
        None => {},
    }
    r.push("macrotexture".to_string());
    assert(rows(r@) =~= macro_names(
        match m.path {
            Some(p) => Some(p@),
            None => None,
        },
    ));
    r
}

/// How far the colour of an object is drawn towards a target colour.
#[derive(Debug, Clone, Copy, PartialEq, Eq, Structural)]
pub struct Influence {
    /// Between zero and one, as a single-precision bit pattern.
    pub amount: u32,
    pub target: u32,
}

/// The influence that a map asks for by a number: white for a positive one,
/// black otherwise, by its size and by one at most.
pub open spec fn influence_spec(b: u32) -> Influence {
    let size = if float_bits::lt_spec(b, float_bits::ZERO) {
        (b - 0x8000_0000) as u32
    } else {
        b
    };
    Influence {
        amount: if float_bits::lt_spec(float_bits::ONE, size) {
            float_bits::ONE
        } else {
            size
        },
        target: if float_bits::lt_spec(float_bits::ZERO, b) {
            0xff_ffff
        } else {
            0
        },
    }
}

pub fn influence(b: u32) -> (r: Influence)
    ensures
        r == influence_spec(b),
        !float_bits::is_nan_spec(b) ==> float_bits::le_spec(float_bits::ZERO, r.amount)
            && float_bits::le_spec(r.amount, float_bits::ONE),
{
    let size = if float_bits::lt(b, float_bits::ZERO) {
        b - 0x8000_0000
    } else {
        b
    };
    Influence {
        amount: if float_bits::lt(float_bits::ONE, size) {
            float_bits::ONE
        } else {
            size
        },
        target: if float_bits::lt(float_bits::ZERO, b) {
            0xff_ffff
        } else {
            0
        },
    }
}

/// A property is the value in the first row that has its name; a name without a
/// value has an empty one, and without such a row there is none.
pub proof fn law_property_is_first_row(
    names: Seq<Seq<char>>,
    values: Seq<Seq<char>>,
    key: Seq<char>,
    k: int,
)
    ensures
        (forall|i: int| 0 <= i < names.len() ==> #[trigger] names[i] != key) ==> property(
            names,
            values,
            key,
        ) is None,
        0 <= k < names.len() && names[k] == key && (forall|i: int|
            0 <= i < k ==> #[trigger] names[i] != key) ==> property(names, values, key) == Some(
            if k < values.len() {
                values[k]
            } else {
                Seq::empty()
            },
        ),
{
    lemma_first_row(names, key, names.len() as int);
    let f = find_row(names, key, names.len() as int);
    if 0 <= k < names.len() && names[k] == key && (forall|i: int|
        0 <= i < k ==> #[trigger] names[i] != key) {
        if f < k {
            assert(names[f] != key);
        }
    }
}

proof fn lemma_first_row(v: Seq<Seq<char>>, key: Seq<char>, n: int)
    requires
        0 <= n <= v.len(),
    ensures
        0 <= find_row(v, key, n) <= n,
        find_row(v, key, n) < n ==> v[find_row(v, key, n)] == key,
        forall|i: int| 0 <= i < find_row(v, key, n) ==> #[trigger] v[i] != key,
    decreases n,
{
    if n > 0 {
        lemma_first_row(v, key, n - 1);
    }
}

/// A number property is the number that its trimmed text writes.
pub proof fn law_number_property(
    names: Seq<Seq<char>>,
    values: Seq<Seq<char>>,
    key: Seq<char>,
    default: i32,
)
    ensures
        property(names, values, key) is None ==> int_property(names, values, key) == Err::<
            i32,
            PropertyError,
        >(PropertyError::Missing) && int_or(names, values, key, default) == default,
        property(names, values, key) matches Some(t) ==> match int_spec(trim_spec(t)) {
            Some(v) => int_property(names, values, key) == Ok::<i32, PropertyError>(v) && int_or(
                names,
                values,
                key,
                default,
            ) == v,
            None => int_property(names, values, key) == Err::<i32, PropertyError>(
                PropertyError::NotANumber,
            ) && int_or(names, values, key, default) == default,
        },
{
}

/// A map without properties has the defaults.
pub proof fn law_default_properties(p: MapProperties)
    requires
        p.reads(Seq::empty(), Seq::empty()),
    ensures
        p.tex_union_dim == 16,
        p.water_color == 0x3060,
        p.sky_color == 0x10_70ff,
        p.sky_name@ == "Default"@,
        p.water_name@ == "water_blue"@,
        p.side_res_info@.len() == 0,
        p.side_ai_info@.len() == 0,
        p.maintenance_prc == 100,
        p.light_main_color == 0x98_9898,
        p.light_main_color_obj == 0x98_9898,
        p.ambient_color_obj == 0x80_8080,
        p.ambient_color == 0x80_8080,
        p.shadow_color == 0x7300_0000,
        p.inshorewave_color == 0x8080,
        !p.disable_inshore,
        p.macro_texture.path is None,
        p.macro_texture.size == 1,
{
    let none = Seq::<Seq<char>>::empty();
    assert(forall|key: Seq<char>| #[trigger] find_row(none, key, 0) == 0);
    assert(side_ai_views(p.side_ai_info@).len() == p.side_ai_info@.len());
}

/// What the tables say of a map is taken over, each under its own name.
pub proof fn law_properties_are_taken(p: MapProperties, n: Seq<Seq<char>>, v: Seq<Seq<char>>, c: i32)
    requires
        p.reads(n, v),
    ensures
        int_property(n, v, "TexUnionDim"@) == Ok::<i32, PropertyError>(c) ==> p.tex_union_dim == c,
        int_property(n, v, "WaterColor"@) == Ok::<i32, PropertyError>(c) ==> p.water_color
            == to_unsigned(c),
        int_property(n, v, "SkyColor"@) == Ok::<i32, PropertyError>(c) ==> p.sky_color
            == to_unsigned(c),
        int_property(n, v, "MaintenanceTime"@) == Ok::<i32, PropertyError>(c) ==> p.maintenance_prc
            == c,
        int_property(n, v, "LightMainColor"@) == Ok::<i32, PropertyError>(c) ==> p.light_main_color
            == to_unsigned(c),
        int_property(n, v, "LightMainColorObj"@) == Ok::<i32, PropertyError>(c)
            ==> p.light_main_color_obj == to_unsigned(c),
        int_property(n, v, "LightMainColorObj"@) is Err ==> p.light_main_color_obj
            == p.light_main_color,
        int_property(n, v, "AmbientColorObj"@) == Ok::<i32, PropertyError>(c)
            ==> p.ambient_color_obj == to_unsigned(c),
        int_property(n, v, "AmbientColor"@) == Ok::<i32, PropertyError>(c) ==> p.ambient_color
            == to_unsigned(c),
        int_property(n, v, "ShadowColor"@) == Ok::<i32, PropertyError>(c) ==> p.shadow_color
            == to_unsigned(c),
        int_property(n, v, "InshorewaveColor"@) == Ok::<i32, PropertyError>(c)
            ==> p.inshorewave_color == to_unsigned(c),
        int_property(n, v, "DisableInshore"@) == Ok::<i32, PropertyError>(c) ==> p.disable_inshore
            == (c != 0),
        property(n, v, "SkyName"@) matches Some(t) ==> (trim_spec(t).len() > 0 ==> p.sky_name@ == t),
        property(n, v, "WaterName"@) matches Some(t) ==> (trim_spec(t).len() > 0 ==> p.water_name@
            == t),
        property(n, v, "SideResInfo"@) matches Some(t) ==> p.side_res_info@ == side_res_spec(t),
        property(n, v, "SideAIInfo"@) matches Some(t) ==> side_ai_views(p.side_ai_info@)
            == side_ai_spec(t),
{
}

/// The resources of a side: its number, four amounts, and a sixth field that is
/// one hundred where it is missing. Entries with fewer than five fields are
/// passed over.
pub proof fn law_side_resources(s: Seq<char>)
    ensures
        ({
            let f = split_spec(trim_spec(s), ',');
            &&& trim_spec(s).len() == 0 || f.len() < 5 ==> side_res_entry(s) is None
            &&& trim_spec(s).len() > 0 && f.len() >= 5 ==> {
                let e = side_res_entry(s)->0;
                &&& side_res_entry(s) is Some
                &&& e.side == field_int(f[0])
                &&& e.res.0 == field_int(f[1])
                &&& e.res.1 == field_int(f[2])
                &&& e.res.2 == field_int(f[3])
                &&& e.res.3 == field_int(f[4])
                &&& f.len() == 5 ==> e.force_up == 100
                &&& f.len() > 5 ==> e.force_up == field_int(f[5])
            }
        }),
{
}

/// The entries of the sides are those of the parts between bars, in order, without
/// the parts that are none.
pub proof fn law_side_entries_in_order(p: Seq<Seq<char>>, n: int)
    requires
        0 <= n < p.len(),
    ensures
        side_res_upto(p, 0).len() == 0,
        side_res_entry(p[n]) matches Some(e) ==> side_res_upto(p, n + 1) == side_res_upto(p, n).push(
            e,
        ),
        side_res_entry(p[n]) is None ==> side_res_upto(p, n + 1) == side_res_upto(p, n),
        side_ai_upto(p, 0).len() == 0,
        side_ai_entry(p[n]) matches Some(e) ==> side_ai_upto(p, n + 1) == side_ai_upto(p, n).push(e),
        side_ai_entry(p[n]) is None ==> side_ai_upto(p, n + 1) == side_ai_upto(p, n),
{
}

/// The tuning of a side: a name, a colon, and keys and values in turn between
/// slashes, all trimmed. A part without a colon is none, and a key without a value
/// is dropped.
pub proof fn law_side_tuning(name: Seq<char>, rest: Seq<char>, i: int)
    requires
        !name.contains(':'),
    ensures
        ({
            let f = split_spec(rest, '/');
            let e = side_ai_entry(name.push(':') + rest);
            &&& side_ai_entry(name) is None
            &&& e matches Some(a) && {
                &&& a.name == trim_spec(name)
                &&& a.pairs.len() == f.len() / 2
                &&& 0 <= i < a.pairs.len() ==> a.pairs[i] == (
                    trim_spec(f[2 * i]),
                    trim_spec(f[2 * i + 1]),
                )
            }
        }),
{
    let s = name.push(':') + rest;
    lemma_first_of(name, ':');
    if first_of(name, ':') < name.len() {
        assert(name.contains(':'));
    }
    assert forall|j: int| 0 <= j < name.len() implies s[j] != ':' by {
        assert(s[j] == name[j]);
        assert(name.contains(name[j]));
    }
    assert(s[name.len() as int] == ':');
    lemma_first_of_is(s, ':', name.len() as int);
    assert(s.take(name.len() as int) =~= name);
    assert(s.subrange(name.len() as int + 1, s.len() as int) =~= rest);
}

/// A text is found at its first place.
pub proof fn law_found_at_first_place(s: Seq<char>, p: Seq<char>, from: int)
    requires
        0 <= from <= s.len(),
    ensures
        match find_text_from(s, p, from) {
            Some(k) => {
                &&& from <= k
                &&& k + p.len() <= s.len()
                &&& s.subrange(k, k + p.len()) == p
                &&& forall|i: int| from <= i < k ==> !#[trigger] stands_at(s, p, i)
            },
            None => forall|i: int| from <= i <= s.len() ==> !#[trigger] stands_at(s, p, i),
        },
    decreases s.len() + 1 - from,
{
    if !stands_at(s, p, from) {
        if from < s.len() {
            law_found_at_first_place(s, p, from + 1);
        } else {
            assert(find_text_from(s, p, from + 1) is None);
        }
    }
}

/// The path of a macro texture ends at the question mark and has plain slashes;
/// its size is the number behind the mark for it, one where there is none.
pub proof fn law_macro_texture(path: Seq<char>, rest: Seq<char>, i: int)
    requires
        !path.contains('?'),
        0 <= i < path.len(),
    ensures
        macro_path(path).len() == path.len(),
        macro_path(path.push('?') + rest) == macro_path(path),
        path[i] == '\\' ==> macro_path(path)[i] == '/',
        path[i] != '\\' ==> macro_path(path)[i] == path[i],
        find_text_from(rest, seq!['S', 'I', 'M'], 0) is None ==> macro_size(rest) == 1,
        find_text_from(rest, seq!['S', 'I', 'M'], 0) matches Some(k) ==> match int_spec(
            rest.subrange(k + 3, rest.len() as int),
        ) {
            Some(v) => macro_size(rest) == v,
            None => macro_size(rest) == 1,
        },
{
    let s = path.push('?') + rest;
    lemma_first_of(path, '?');
    if first_of(path, '?') < path.len() {
        assert(path.contains('?'));
    }
    assert(path.take(path.len() as int) =~= path);
    assert forall|j: int| 0 <= j < path.len() implies s[j] != '?' by {
        assert(s[j] == path[j]);
        assert(path.contains(path[j]));
    }
    assert(s[path.len() as int] == '?');
    lemma_first_of_is(s, '?', path.len() as int);
    assert(s.take(path.len() as int) =~= path);
}

/// Objects are drawn towards white by a positive influence and towards black by a
/// negative one, by its size and by one at most; none leaves them alone.
pub proof fn law_influence(b: u32)
    requires
        !float_bits::is_nan_spec(b),
    ensures
        float_bits::lt_spec(0, b) ==> influence_spec(b).target == 0xff_ffff,
        float_bits::le_spec(b, 0) ==> influence_spec(b).target == 0,
        float_bits::le_spec(0, b) && float_bits::le_spec(b, float_bits::ONE) ==> float_bits::eq_spec(
            influence_spec(b).amount,
            b,
        ),
        float_bits::lt_spec(float_bits::ONE, b) ==> influence_spec(b).amount == float_bits::ONE,
        float_bits::lt_spec(b, 0) ==> influence_spec(b).amount == influence_spec(
            (b - 0x8000_0000) as u32,
        ).amount,
{
}

/// A text property that is blank or missing has its default, any other its own
/// text.
pub proof fn law_text_property(
    names: Seq<Seq<char>>,
    values: Seq<Seq<char>>,
    key: Seq<char>,
    default: Seq<char>,
)
    ensures
        property(names, values, key) is None ==> text_or(names, values, key, default) == default,
        property(names, values, key) matches Some(t) ==> {
            &&& trim_spec(t).len() == 0 ==> text_or(names, values, key, default) == default
            &&& trim_spec(t).len() > 0 ==> text_or(names, values, key, default) == t
        },
{
}

/// The texture that was given is tried before the usual one.
pub proof fn law_texture_tried_first(p: Seq<char>)
    ensures
        macro_names(Some(p)).len() == 2,
        macro_names(Some(p))[0] == p,
        macro_names(Some(p))[1] == "macrotexture"@,
        macro_names(None).len() == 1,
        macro_names(None)[0] == "macrotexture"@,
{
}

/// The large texture of the ground is the one that its property names, in the
/// size given there; a property that names none leaves it out.
pub proof fn law_macro_property(p: MapProperties, n: Seq<Seq<char>>, v: Seq<Seq<char>>, t: Seq<char>)
    requires
        p.reads(n, v),
        property(n, v, "MacroTexture"@) == Some(t),
    ensures
        p.macro_texture.size == macro_size(t),
        p.macro_texture.path is Some <==> macro_path(t).len() > 0,
        p.macro_texture.path is Some ==> p.macro_texture.path->0@ == macro_path(t),
{
}

/// A property that is missing or is not a number has its default, whatever the
/// others are.
pub proof fn law_missing_properties(p: MapProperties, n: Seq<Seq<char>>, v: Seq<Seq<char>>)
    requires
        p.reads(n, v),
    ensures
        int_property(n, v, "TexUnionDim"@) is Err ==> p.tex_union_dim == 16,
        int_property(n, v, "WaterColor"@) is Err ==> p.water_color == 0x3060,
        int_property(n, v, "SkyColor"@) is Err ==> p.sky_color == 0x10_70ff,
        property(n, v, "SkyName"@) is None ==> p.sky_name@ == "Default"@,
        property(n, v, "WaterName"@) is None ==> p.water_name@ == "water_blue"@,
        property(n, v, "SideResInfo"@) is None ==> p.side_res_info@.len() == 0,
        property(n, v, "SideAIInfo"@) is None ==> p.side_ai_info@.len() == 0,
        int_property(n, v, "MaintenanceTime"@) is Err ==> p.maintenance_prc == 100,
        int_property(n, v, "LightMainColor"@) is Err ==> p.light_main_color == 0x98_9898,
        int_property(n, v, "AmbientColorObj"@) is Err ==> p.ambient_color_obj == 0x80_8080,
        int_property(n, v, "AmbientColor"@) is Err ==> p.ambient_color == 0x80_8080,
        int_property(n, v, "ShadowColor"@) is Err ==> p.shadow_color == 0x7300_0000,
        int_property(n, v, "InshorewaveColor"@) is Err ==> p.inshorewave_color == 0x8080,
        int_property(n, v, "DisableInshore"@) is Err ==> !p.disable_inshore,
        property(n, v, "MacroTexture"@) is None ==> p.macro_texture.path is None
            && p.macro_texture.size == 1,
{
    assert(side_ai_views(p.side_ai_info@).len() == p.side_ai_info@.len());
}

} // verus!
