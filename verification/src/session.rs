//! What holds for the running mission as a whole: the map's name, which
//! portraits are shown, the clock and the autopilot.
use crate::map::GameMap;
use vstd::prelude::*;

verus! {

/// The running mission.
#[derive(Debug)]
pub struct Session {
    pub map_name: String,
    /// Portraits were uncovered for good.
    pub portrets_shown: bool,
    /// A robot holds the trigger position.
    pub portrets_in_position: bool,
    /// A scope is open: turns are being taken on a map.
    pub map_in_scope: bool,
    /// Game time of the open scope, in milliseconds.
    pub elapsed_ms: i64,
    /// The player's side is played by the machine.
    pub full_auto: bool,
}

impl Session {
    pub fn new() -> (s: Session)
        ensures
            s.map_name@.len() == 0,
            !s.portrets_shown,
            !s.portrets_in_position,
            !s.map_in_scope,
            s.elapsed_ms == 0,
            !s.full_auto,
    {
        Session {
            map_name: String::new(),
            portrets_shown: false,
            portrets_in_position: false,
            map_in_scope: false,
            elapsed_ms: 0,
            full_auto: false,
        }
    }
}

/// Name the map that is being loaded. A fresh map covers the portraits again.
pub fn set_map_name(s: &mut Session, name: &str)
    ensures
        final(s).map_name@ == name@,
        !final(s).portrets_shown,
        !final(s).portrets_in_position,
        final(s).map_in_scope == old(s).map_in_scope,
        final(s).elapsed_ms == old(s).elapsed_ms,
        final(s).full_auto == old(s).full_auto,
{
    s.map_name = name.to_string();
    s.portrets_shown = false;
    s.portrets_in_position = false;
}

pub fn map_name(s: &Session) -> (n: String)
    ensures
        n@ == s.map_name@,
{
    s.map_name.clone()
}

/// A letter, whatever its case.
pub open spec fn is_letter(c: char, lower: char, upper: char) -> bool {
    c == lower || c == upper
}

/// The word `terron` stands at `i`, in any case.
pub open spec fn terron_at(s: Seq<char>, i: int) -> bool {
    &&& i + 6 <= s.len()
    &&& is_letter(s[i], 't', 'T')
    &&& is_letter(s[i + 1], 'e', 'E')
    &&& is_letter(s[i + 2], 'r', 'R')
    &&& is_letter(s[i + 3], 'r', 'R')
    &&& is_letter(s[i + 4], 'o', 'O')
    &&& is_letter(s[i + 5], 'n', 'N')
}

fn letter(c: char, lower: char, upper: char) -> (b: bool)
    ensures
        b == is_letter(c, lower, upper),
{
    c == lower || c == upper
}

/// Does the word `terron` stand in the map's name, in any case?
pub fn map_name_is_terron(s: &Session) -> (b: bool)
    ensures
        b == exists|i: int| 0 <= i && #[trigger] terron_at(s.map_name@, i),
{
    let t = s.map_name.as_str();
    let n = t.unicode_len();
    if n < 6 {
        return false;
    }
    let mut i: usize = 0;
    while i <= n - 6
        invariant
            6 <= n,
            n == t@.len(),
            t@ == s.map_name@,
            i <= n - 5,
            forall|k: int| 0 <= k < i ==> !#[trigger] terron_at(t@, k),
        decreases n - i,
    {
        if letter(t.get_char(i), 't', 'T') && letter(t.get_char(i + 1), 'e', 'E') && letter(
            t.get_char(i + 2),
            'r',
            'R',
        ) && letter(t.get_char(i + 3), 'r', 'R') && letter(t.get_char(i + 4), 'o', 'O') && letter(
            t.get_char(i + 5),
            'n',
            'N',
        ) {
            assert(terron_at(t@, i as int));
            return true;
        }
        i = i + 1;
    }
    false
}

/// Uncover the portraits for good.
pub fn show_portrets(s: &mut Session)
    ensures
        *final(s) == (Session { portrets_shown: true, ..*old(s) }),
{
    s.portrets_shown = true;
}

pub fn set_portrets_in_position(s: &mut Session, v: bool)
    ensures
        *final(s) == (Session { portrets_in_position: v, ..*old(s) }),
{
    s.portrets_in_position = v;
}

/// Portraits are seen once uncovered, and while the position is held.
pub open spec fn visible(s: Session) -> bool {
    s.portrets_shown || s.portrets_in_position
}

/// Portraits that were uncovered for good stay visible when the position is
/// given up, and whatever the clock and the autopilot do.
pub proof fn law_shown_for_good(s: Session, held: bool, elapsed_ms: i64, full_auto: bool)
    requires
        s.portrets_shown,
    ensures
        visible((Session { portrets_in_position: held, ..s })),
        visible((Session { elapsed_ms, full_auto, ..s })),
{
}

pub fn portrets_visible(s: &Session) -> (b: bool)
    ensures
        b == visible(*s),
{
    s.portrets_shown || s.portrets_in_position
}

/// The span of one tick, in which there is a map and the clock shows the game
/// time.
#[derive(Debug)]
pub struct MapScope;

impl MapScope {
    /// Open a scope: the map can be had, and the clock shows the given time.
    pub fn enter(s: &mut Session, elapsed_ms: i64) -> (scope: MapScope)
        ensures
            *final(s) == (Session { map_in_scope: true, elapsed_ms, ..*old(s) }),
    {
        s.map_in_scope = true;
        s.elapsed_ms = elapsed_ms;
        MapScope
    }

    /// Close the scope: no map can be had, and the clock goes back to zero, so
    /// that the next mission is set up as the first one was.
    pub fn leave(self, s: &mut Session)
        ensures
            *final(s) == (Session { map_in_scope: false, elapsed_ms: 0, ..*old(s) }),
    {
        s.map_in_scope = false;
        s.elapsed_ms = 0;
    }
}

/// The map, while a scope is open.
pub fn current_map<'a>(s: &Session, map: &'a GameMap) -> (m: Option<&'a GameMap>)
    ensures
        m == if s.map_in_scope {
            Some(map)
        } else {
            None
        },
{
    if s.map_in_scope {
        Some(map)
    } else {
        None
    }
}

/// After a scope was opened and closed everything is as before it, with no map
/// in scope and the clock at zero.
pub proof fn law_scope_leaves_no_trace(before: Session, inside: Session, after: Session, ms: i64)
    requires
        inside == (Session { map_in_scope: true, elapsed_ms: ms, ..before }),
        after == (Session { map_in_scope: false, elapsed_ms: 0, ..inside }),
    ensures
        after == (Session { map_in_scope: false, elapsed_ms: 0, ..before }),
        !before.map_in_scope && before.elapsed_ms == 0 ==> after == before,
{
}

pub fn current_elapsed_ms(s: &Session) -> (t: i64)
    ensures
        t == s.elapsed_ms,
{
    s.elapsed_ms
}

pub fn full_auto(s: &Session) -> (b: bool)
    ensures
        b == s.full_auto,
{
    s.full_auto
}

pub fn set_full_auto(s: &mut Session, on: bool)
    ensures
        *final(s) == (Session { full_auto: on, ..*old(s) }),
{
    s.full_auto = on;
}

/// The word is found by its letters alone, whatever the case of each.
pub proof fn law_word_in_any_case(s: Seq<char>, i: int)
    requires
        0 <= i,
    ensures
        terron_at(s, i) <==> i + 6 <= s.len() && forall|k: int|
            0 <= k < 6 ==> (#[trigger] s[i + k] == "terron"@[k] || s[i + k] == "TERRON"@[k]),
{
    reveal_strlit("terron");
    reveal_strlit("TERRON");
    let w = "terron"@;
    let u = "TERRON"@;
    assert(w[0] == 't' && w[1] == 'e' && w[2] == 'r' && w[3] == 'r' && w[4] == 'o' && w[5] == 'n');
    assert(u[0] == 'T' && u[1] == 'E' && u[2] == 'R' && u[3] == 'R' && u[4] == 'O' && u[5] == 'N');
    if terron_at(s, i) {
        assert forall|k: int| 0 <= k < 6 implies (#[trigger] s[i + k] == w[k] || s[i + k]
            == u[k]) by {
            assert(k == 0 || k == 1 || k == 2 || k == 3 || k == 4 || k == 5);
        }
    } else if i + 6 <= s.len() && forall|k: int|
        0 <= k < 6 ==> (#[trigger] s[i + k] == w[k] || s[i + k] == u[k]) {
        assert(s[i + 0] == w[0] || s[i + 0] == u[0]);
        assert(s[i + 1] == w[1] || s[i + 1] == u[1]);
        assert(s[i + 2] == w[2] || s[i + 2] == u[2]);
        assert(s[i + 3] == w[3] || s[i + 3] == u[3]);
        assert(s[i + 4] == w[4] || s[i + 4] == u[4]);
        assert(s[i + 5] == w[5] || s[i + 5] == u[5]);
    }
}

/// Portraits are covered only while they were never uncovered and the position
/// is not held.
pub proof fn law_covered(s: Session)
    ensures
        !visible(s) <==> !s.portrets_shown && !s.portrets_in_position,
{
}

} // verus!
