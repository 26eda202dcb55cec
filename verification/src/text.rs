//! Reading of short structured texts: trimming, splitting, whole numbers.
use vstd::prelude::*;

verus! {

/// White space as Unicode defines it.
pub open spec fn is_white_spec(c: char) -> bool {
    let u = c as u32;
    9 <= u <= 13 || u == 0x20 || u == 0x85 || u == 0xa0 || u == 0x1680 || 0x2000 <= u <= 0x200a || u
        == 0x2028 || u == 0x2029 || u == 0x202f || u == 0x205f || u == 0x3000
}

pub fn is_white(c: char) -> (b: bool)
    ensures
        b == is_white_spec(c),
{
    let u = c as u32;
    (9 <= u && u <= 13) || u == 0x20 || u == 0x85 || u == 0xa0 || u == 0x1680 || (0x2000 <= u && u
        <= 0x200a) || u == 0x2028 || u == 0x2029 || u == 0x202f || u == 0x205f || u == 0x3000
}

/// Without leading white space.
pub open spec fn trim_start_spec(s: Seq<char>) -> Seq<char>
    decreases s.len(),
{
    if s.len() > 0 && is_white_spec(s[0]) {
        trim_start_spec(s.subrange(1, s.len() as int))
    } else {
        s
    }
}

/// Without trailing white space.
pub open spec fn trim_end_spec(s: Seq<char>) -> Seq<char>
    decreases s.len(),
{
    if s.len() > 0 && is_white_spec(s.last()) {
        trim_end_spec(s.drop_last())
    } else {
        s
    }
}

pub open spec fn trim_spec(s: Seq<char>) -> Seq<char> {
    trim_end_spec(trim_start_spec(s))
}

/// Without white space at either end.
pub fn trim<'a>(s: &'a str) -> (r: &'a str)
    ensures
        r@ == trim_spec(s@),
{
    let n = s.unicode_len();
    let mut a: usize = 0;
    assert(s@.subrange(0, n as int) =~= s@);
    while a < n && is_white(s.get_char(a))
        invariant
            a <= n,
            n == s@.len(),
            trim_start_spec(s@.subrange(a as int, n as int)) == trim_start_spec(s@),
        ensures
            a <= n,
            a < n ==> !is_white_spec(s@[a as int]),
            trim_start_spec(s@.subrange(a as int, n as int)) == trim_start_spec(s@),
        decreases n - a,
    {
        proof {
            let t = s@.subrange(a as int, n as int);
            assert(t.subrange(1, t.len() as int) =~= s@.subrange(a + 1, n as int));
        }
        a = a + 1;
    }
    let mut b: usize = n;
    while b > a && is_white(s.get_char(b - 1))
        invariant
            a <= b <= n,
            n == s@.len(),
            trim_end_spec(s@.subrange(a as int, b as int)) == trim_end_spec(
                s@.subrange(a as int, n as int),
            ),
        ensures
            a <= b <= n,
            b > a ==> !is_white_spec(s@[b - 1]),
            trim_end_spec(s@.subrange(a as int, b as int)) == trim_end_spec(
                s@.subrange(a as int, n as int),
            ),
        decreases b - a,
    {
        proof {
            let t = s@.subrange(a as int, b as int);
            assert(t.drop_last() =~= s@.subrange(a as int, b - 1));
        }
        b = b - 1;
    }
    s.substring_char(a, b)
}

/// Where `c` first stands in `s`; the length of `s` where it does not.
pub open spec fn first_of(s: Seq<char>, c: char) -> int
    decreases s.len(),
{
    if s.len() == 0 || s[0] == c {
        0
    } else {
        1 + first_of(s.subrange(1, s.len() as int), c)
    }
}

pub proof fn lemma_first_of(s: Seq<char>, c: char)
    ensures
        0 <= first_of(s, c) <= s.len(),
        first_of(s, c) < s.len() ==> s[first_of(s, c)] == c,
        forall|i: int| 0 <= i < first_of(s, c) ==> s[i] != c,
    decreases s.len(),
{
    if s.len() > 0 && s[0] != c {
        let t = s.subrange(1, s.len() as int);
        lemma_first_of(t, c);
        assert forall|i: int| 0 <= i < first_of(s, c) implies s[i] != c by {
            if i > 0 {
                assert(t[i - 1] == s[i]);
            }
        }
    }
}

pub proof fn lemma_first_of_is(s: Seq<char>, c: char, k: int)
    requires
        0 <= k <= s.len(),
        k < s.len() ==> s[k] == c,
        forall|i: int| 0 <= i < k ==> s[i] != c,
    ensures
        first_of(s, c) == k,
    decreases s.len(),
{
    if s.len() > 0 && s[0] != c {
        let t = s.subrange(1, s.len() as int);
        assert(k > 0);
        assert forall|i: int| 0 <= i < k - 1 implies t[i] != c by {
            assert(s[i + 1] != c);
        }
        lemma_first_of_is(t, c, k - 1);
    }
}

/// The pieces of `s` between separators, empty ones included.
pub open spec fn split_spec(s: Seq<char>, sep: char) -> Seq<Seq<char>>
    decreases s.len(),
    via split_decreases
{
    let k = first_of(s, sep);
    if k >= s.len() {
        seq![s]
    } else {
        seq![s.take(k)] + split_spec(s.subrange(k + 1, s.len() as int), sep)
    }
}

#[via_fn]
proof fn split_decreases(s: Seq<char>, sep: char) {
    lemma_first_of(s, sep);
}

/// A list of texts as characters.
pub open spec fn views(v: Seq<&str>) -> Seq<Seq<char>> {
    Seq::new(v.len(), |i: int| v[i]@)
}

/// The index, from `from` on, of the first separator, or the length.
fn next_sep(s: &str, sep: char, from: usize, n: usize) -> (k: usize)
    requires
        n == s@.len(),
        from <= n,
    ensures
        from <= k <= n,
        k - from == first_of(s@.subrange(from as int, n as int), sep),
{
    let mut k: usize = from;
    while k < n && s.get_char(k) != sep
        invariant
            n == s@.len(),
            from <= k <= n,
            forall|i: int| from <= i < k ==> s@[i] != sep,
        ensures
            from <= k <= n,
            k < n ==> s@[k as int] == sep,
            forall|i: int| from <= i < k ==> s@[i] != sep,
        decreases n - k,
    {
        k = k + 1;
    }
    proof {
        let t = s@.subrange(from as int, n as int);
        assert forall|i: int| 0 <= i < k - from implies t[i] != sep by {
            assert(s@[from + i] != sep);
        }
        lemma_first_of_is(t, sep, k - from);
    }
    k
}

/// Split at every separator.
pub fn split<'a>(s: &'a str, sep: char) -> (r: Vec<&'a str>)
    ensures
        views(r@) == split_spec(s@, sep),
        r@.len() >= 1,
{
    let n = s.unicode_len();
    let mut r: Vec<&'a str> = Vec::new();
    let mut a: usize = 0;
    let ghost goal = split_spec(s@, sep);
    assert(s@.subrange(0, n as int) =~= s@);
    assert(views(r@) + split_spec(s@.subrange(0, n as int), sep) =~= goal);
    loop
        invariant_except_break
            n == s@.len(),
            a <= n,
            views(r@) + split_spec(s@.subrange(a as int, n as int), sep) == goal,
        ensures
            views(r@) == goal,
            r@.len() >= 1,
        decreases n - a,
    {
        let k = next_sep(s, sep, a, n);
        let ghost before = views(r@);
        let ghost t = s@.subrange(a as int, n as int);
        let piece = s.substring_char(a, k);
        r.push(piece);
        proof {
            assert(piece@ =~= t.take(k - a));
            assert(views(r@) =~= before.push(t.take(k - a)));
        }
        if k >= n {
            proof {
                assert(t.take(k - a) =~= t);
                assert(before + seq![t] =~= before.push(t));
            }
            break;
        }
        proof {
            assert(t.subrange(k - a + 1, t.len() as int) =~= s@.subrange(k + 1, n as int));
            let rest = split_spec(s@.subrange(k + 1, n as int), sep);
            assert(before + (seq![t.take(k - a)] + rest) =~= before.push(t.take(k - a)) + rest);
        }
        a = k + 1;
    }
    r
}

/// The parts before and after the first separator, if there is one.
pub open spec fn split_once_spec(s: Seq<char>, sep: char) -> Option<(Seq<char>, Seq<char>)> {
    let k = first_of(s, sep);
    if k < s.len() {
        Some((s.take(k), s.subrange(k + 1, s.len() as int)))
    } else {
        None
    }
}

pub fn split_once<'a>(s: &'a str, sep: char) -> (r: Option<(&'a str, &'a str)>)
    ensures
        match r {
            Some(p) => split_once_spec(s@, sep) == Some((p.0@, p.1@)),
            None => split_once_spec(s@, sep) is None,
        },
{
    let n = s.unicode_len();
    let k = next_sep(s, sep, 0, n);
    assert(s@.subrange(0, n as int) =~= s@);
    if k < n {
        let a = s.substring_char(0, k);
        let b = s.substring_char(k + 1, n);
        assert(a@ =~= s@.take(k as int));
        Some((a, b))
    } else {
        None
    }
}

// ── Whole numbers ───────────────────────────────────────────────────────
pub open spec fn is_digit(c: char) -> bool {
    '0' <= c <= '9'
}

pub open spec fn digit(c: char) -> int {
    c as int - '0' as int
}

/// All characters are decimal digits.
pub open spec fn all_digits(s: Seq<char>) -> bool {
    forall|i: int| 0 <= i < s.len() ==> is_digit(#[trigger] s[i])
}

/// The number that a run of digits writes.
pub open spec fn magnitude(s: Seq<char>) -> int
    decreases s.len(),
{
    if s.len() == 0 {
        0
    } else {
        10 * magnitude(s.drop_last()) + digit(s.last())
    }
}

/// The number that a text writes: an optional sign and at least one digit.
pub open spec fn number(s: Seq<char>) -> Option<int> {
    let signed = s.len() > 0 && (s[0] == '-' || s[0] == '+');
    let d = if signed {
        s.subrange(1, s.len() as int)
    } else {
        s
    };
    if d.len() == 0 || !all_digits(d) {
        None
    } else if signed && s[0] == '-' {
        Some(-magnitude(d))
    } else {
        Some(magnitude(d))
    }
}

/// The number that a text writes, where it fits.
pub open spec fn int_spec(s: Seq<char>) -> Option<i32> {
    match number(s) {
        Some(v) => if i32::MIN <= v <= i32::MAX {
            Some(v as i32)
        } else {
            None
        },
        None => None,
    }
}

proof fn lemma_magnitude_grows(s: Seq<char>, k: int)
    requires
        0 <= k <= s.len(),
        all_digits(s),
    ensures
        0 <= magnitude(s.take(k)) <= magnitude(s),
    decreases s.len() - k,
{
    if k == s.len() {
        assert(s.take(k) =~= s);
        lemma_magnitude_nonneg(s);
    } else {
        lemma_magnitude_grows(s, k + 1);
        let t = s.take(k + 1);
        assert(t.drop_last() =~= s.take(k));
        assert(is_digit(s[k]));
        assert(all_digits(s.take(k))) by {
            assert forall|i: int| 0 <= i < k implies is_digit(#[trigger] s.take(k)[i]) by {
                assert(is_digit(s[i]));
            }
        }
        lemma_magnitude_nonneg(s.take(k));
    }
}

proof fn lemma_magnitude_nonneg(s: Seq<char>)
    requires
        all_digits(s),
    ensures
        magnitude(s) >= 0,
    decreases s.len(),
{
    if s.len() > 0 {
        assert forall|i: int| 0 <= i < s.len() - 1 implies is_digit(
            #[trigger] s.drop_last()[i],
        ) by {
            assert(is_digit(s[i]));
        }
        lemma_magnitude_nonneg(s.drop_last());
        assert(is_digit(s[s.len() - 1]));
    }
}

/// The number that the digits from `start` on write, where they are digits and
/// it is no larger than the largest magnitude of thirty-two bits.
fn parse_digits(s: &str, start: usize, n: usize) -> (r: Option<i64>)
    requires
        n == s@.len(),
        start <= n,
    ensures
        ({
            let d = s@.subrange(start as int, n as int);
            match r {
                Some(m) => all_digits(d) && m == magnitude(d) && 0 <= m <= 0x8000_0000,
                None => !all_digits(d) || magnitude(d) > 0x8000_0000,
            }
        }),
{
    let ghost d = s@.subrange(start as int, n as int);
    let mut acc: i64 = 0;
    let mut i: usize = start;
    while i < n
        invariant
            n == s@.len(),
            start <= i <= n,
            d == s@.subrange(start as int, n as int),
            all_digits(d.take(i - start)),
            acc == magnitude(d.take(i - start)),
            0 <= acc <= 0x8000_0000,
        decreases n - i,
    {
        let c = s.get_char(i);
        assert(d[i - start] == c);
        if !('0' <= c && c <= '9') {
            assert(!is_digit(d[i - start]));
            return None;
        }
        let v: i64 = (c as u32 - '0' as u32) as i64;
        proof {
            let t = d.take(i - start + 1);
            assert(t.drop_last() =~= d.take(i - start));
            assert(t.last() == c);
            assert forall|k: int| 0 <= k < t.len() implies is_digit(#[trigger] t[k]) by {
                if k < i - start {
                    assert(d.take(i - start)[k] == t[k]);
                }
            }
        }
        acc = acc * 10 + v;
        i = i + 1;
        if acc > 0x8000_0000 {
            proof {
                if all_digits(d) {
                    lemma_magnitude_grows(d, i - start);
                }
            }
            return None;
        }
    }
    assert(d.take(i - start) =~= d);
    Some(acc)
}

/// A whole number: an optional sign and digits. `None` for anything else, and
/// for numbers beyond thirty-two bits.
pub fn parse_i32(s: &str) -> (r: Option<i32>)
    ensures
        r == int_spec(s@),
{
    let n = s.unicode_len();
    if n == 0 {
        return None;
    }
    let c0 = s.get_char(0);
    if c0 == '-' || c0 == '+' {
        if n == 1 {
            return None;
        }
        match parse_digits(s, 1, n) {
            Some(acc) => {
                if c0 == '-' {
                    Some((-acc) as i32)
                } else if acc <= 0x7fff_ffff {
                    Some(acc as i32)
                } else {
                    None
                }
            },
            None => None,
        }
    } else {
        assert(s@.subrange(0, n as int) =~= s@);
        match parse_digits(s, 0, n) {
            Some(acc) => {
                if acc <= 0x7fff_ffff {
                    Some(acc as i32)
                } else {
                    None
                }
            },
            None => None,
        }
    }
}

/// The parts of a text between the first separators, at most `n` of them; the
/// last part holds the rest.
pub open spec fn splitn_spec(s: Seq<char>, sep: char, n: nat) -> Seq<Seq<char>>
    decreases n,
{
    let k = first_of(s, sep);
    if n == 0 {
        Seq::empty()
    } else if n == 1 || k >= s.len() {
        seq![s]
    } else {
        seq![s.take(k)] + splitn_spec(s.subrange(k + 1, s.len() as int), sep, (n - 1) as nat)
    }
}

pub fn splitn<'a>(s: &'a str, sep: char, n: usize) -> (r: Vec<&'a str>)
    ensures
        views(r@) == splitn_spec(s@, sep, n as nat),
{
    let mut r: Vec<&'a str> = Vec::new();
    let mut rest: &'a str = s;
    let mut left: usize = n;
    let ghost goal = splitn_spec(s@, sep, n as nat);
    assert(views(r@) + splitn_spec(rest@, sep, left as nat) =~= goal);
    while left > 1
        invariant
            goal == splitn_spec(s@, sep, n as nat),
            left <= n,
            n > 0 ==> left > 0,
            views(r@) + splitn_spec(rest@, sep, left as nat) == goal,
        decreases left,
    {
        proof {
            lemma_first_of(rest@, sep);
        }
        let ghost before = views(r@);
        match split_once(rest, sep) {
            Some((a, b)) => {
                let ghost tail = splitn_spec(b@, sep, (left - 1) as nat);
                assert(splitn_spec(rest@, sep, left as nat) == seq![a@] + tail);
                r.push(a);
                proof {
                    assert(views(r@) =~= before + seq![a@]);
                    assert(views(r@) + tail =~= before + (seq![a@] + tail));
                }
                rest = b;
                left = left - 1;
            },
            None => {
                r.push(rest);
                assert(views(r@) =~= before + seq![rest@]);
                return r;
            },
        }
    }
    if left == 1 {
        let ghost before = views(r@);
        r.push(rest);
        assert(views(r@) =~= before + seq![rest@]);
    } else {
        assert(views(r@) =~= goal);
    }
    r
}

/// Trimming cuts white space off both ends and nothing else: what is left stands
/// in the middle of the text between white space, and has none at its ends.
pub proof fn law_trim(s: Seq<char>)
    ensures
        exists|a: int, b: int|
            {
                &&& 0 <= a <= b <= s.len()
                &&& #[trigger] s.subrange(a, b) == trim_spec(s)
                &&& forall|i: int| 0 <= i < a || b <= i < s.len() ==> is_white_spec(#[trigger] s[i])
            },
        trim_spec(s).len() > 0 ==> !is_white_spec(trim_spec(s)[0]) && !is_white_spec(
            trim_spec(s).last(),
        ),
{
    lemma_trim_start(s);
    let t = trim_start_spec(s);
    lemma_trim_end(t);
    let a = s.len() - t.len();
    let b = a + trim_end_spec(t).len();
    assert(s.subrange(a as int, b as int) =~= trim_spec(s));
    assert forall|i: int| 0 <= i < a || b <= i < s.len() implies is_white_spec(#[trigger] s[i]) by {
        if i >= b {
            assert(t[i - a] == s[i]);
        }
    }
    if trim_spec(s).len() > 0 {
        assert(trim_spec(s)[0] == t[0]);
    }
}

proof fn lemma_trim_start(s: Seq<char>)
    ensures
        trim_start_spec(s).len() <= s.len(),
        trim_start_spec(s) == s.subrange(s.len() - trim_start_spec(s).len(), s.len() as int),
        forall|i: int|
            0 <= i < s.len() - trim_start_spec(s).len() ==> is_white_spec(#[trigger] s[i]),
        trim_start_spec(s).len() > 0 ==> !is_white_spec(trim_start_spec(s)[0]),
    decreases s.len(),
{
    let t = trim_start_spec(s);
    if s.len() > 0 && is_white_spec(s[0]) {
        let r = s.subrange(1, s.len() as int);
        lemma_trim_start(r);
        assert(r.subrange(r.len() - t.len(), r.len() as int) =~= s.subrange(
            s.len() - t.len(),
            s.len() as int,
        ));
        assert forall|i: int| 0 <= i < s.len() - t.len() implies is_white_spec(#[trigger] s[i]) by {
            if i > 0 {
                assert(r[i - 1] == s[i]);
            }
        }
    } else {
        assert(s.subrange(0, s.len() as int) =~= s);
    }
}

proof fn lemma_trim_end(s: Seq<char>)
    ensures
        trim_end_spec(s).len() <= s.len(),
        trim_end_spec(s) == s.take(trim_end_spec(s).len() as int),
        forall|i: int| trim_end_spec(s).len() <= i < s.len() ==> is_white_spec(#[trigger] s[i]),
        trim_end_spec(s).len() > 0 ==> !is_white_spec(trim_end_spec(s).last()),
    decreases s.len(),
{
    let t = trim_end_spec(s);
    if s.len() > 0 && is_white_spec(s.last()) {
        lemma_trim_end(s.drop_last());
        assert(s.drop_last().take(t.len() as int) =~= s.take(t.len() as int));
        assert forall|i: int| t.len() <= i < s.len() implies is_white_spec(#[trigger] s[i]) by {
            if i < s.len() - 1 {
                assert(s.drop_last()[i] == s[i]);
            }
        }
    } else {
        assert(s.take(s.len() as int) =~= s);
    }
}

/// Parts with a separator between each two.
pub open spec fn joined(parts: Seq<Seq<char>>, sep: char) -> Seq<char>
    decreases parts.len(),
{
    if parts.len() == 0 {
        Seq::empty()
    } else if parts.len() == 1 {
        parts[0]
    } else {
        parts[0].push(sep) + joined(parts.subrange(1, parts.len() as int), sep)
    }
}

/// Splitting loses nothing: the parts, joined by the separator, are the text, and
/// no part holds the separator.
pub proof fn law_split_and_join(s: Seq<char>, sep: char)
    ensures
        joined(split_spec(s, sep), sep) == s,
        split_spec(s, sep).len() >= 1,
        forall|i: int|
            0 <= i < split_spec(s, sep).len() ==> !(#[trigger] split_spec(s, sep)[i]).contains(sep),
    decreases s.len(),
{
    lemma_first_of(s, sep);
    let k = first_of(s, sep);
    let p = split_spec(s, sep);
    if k >= s.len() {
        assert(!s.contains(sep));
    } else {
        let rest = s.subrange(k + 1, s.len() as int);
        law_split_and_join(rest, sep);
        assert(p.subrange(1, p.len() as int) =~= split_spec(rest, sep));
        assert(s.take(k).push(sep) + rest =~= s);
        assert forall|i: int| 0 <= i < p.len() implies !(#[trigger] p[i]).contains(sep) by {
            if i == 0 {
                assert(forall|j: int| 0 <= j < k ==> s.take(k)[j] == s[j]);
            } else {
                assert(p[i] == split_spec(rest, sep)[i - 1]);
            }
        }
    }
}

/// Splitting into at most so many parts loses nothing either; only the last part
/// may hold the separator.
pub proof fn law_splitn_and_join(s: Seq<char>, sep: char, n: nat)
    requires
        n >= 1,
    ensures
        joined(splitn_spec(s, sep, n), sep) == s,
        1 <= splitn_spec(s, sep, n).len() <= n,
        forall|i: int|
            0 <= i < splitn_spec(s, sep, n).len() - 1 ==> !(#[trigger] splitn_spec(
                s,
                sep,
                n,
            )[i]).contains(sep),
        splitn_spec(s, sep, n).len() < n ==> !splitn_spec(s, sep, n).last().contains(sep),
    decreases n,
{
    lemma_first_of(s, sep);
    let k = first_of(s, sep);
    let p = splitn_spec(s, sep, n);
    if n == 1 || k >= s.len() {
        if k >= s.len() {
            assert(!s.contains(sep));
        }
    } else {
        let rest = s.subrange(k + 1, s.len() as int);
        let q = splitn_spec(rest, sep, (n - 1) as nat);
        law_splitn_and_join(rest, sep, (n - 1) as nat);
        assert(p.subrange(1, p.len() as int) =~= q);
        assert(s.take(k).push(sep) + rest =~= s);
        assert forall|i: int| 0 <= i < p.len() - 1 implies !(#[trigger] p[i]).contains(sep) by {
            if i == 0 {
                assert(forall|j: int| 0 <= j < k ==> s.take(k)[j] == s[j]);
            } else {
                assert(p[i] == q[i - 1]);
            }
        }
        assert(p.last() == q.last());
    }
}

/// A text is split in two at the first separator.
pub proof fn law_split_once(s: Seq<char>, sep: char)
    ensures
        split_once_spec(s, sep) is None <==> !s.contains(sep),
        split_once_spec(s, sep) matches Some(p) ==> p.0.push(sep) + p.1 == s && !p.0.contains(sep),
{
    lemma_first_of(s, sep);
    let k = first_of(s, sep);
    if k < s.len() {
        assert(s.take(k).push(sep) + s.subrange(k + 1, s.len() as int) =~= s);
        assert(s.contains(sep));
        assert(forall|j: int| 0 <= j < k ==> s.take(k)[j] == s[j]);
    }
}

/// The digits of a number, without leading zeros; nothing for zero.
pub open spec fn digits_of(n: nat) -> Seq<char>
    decreases n,
{
    if n == 0 {
        Seq::empty()
    } else {
        digits_of(n / 10).push(digit_char(n % 10))
    }
}

pub open spec fn digit_char(d: nat) -> char {
    (0x30 + d) as char
}

proof fn lemma_digits_of(n: nat)
    ensures
        all_digits(digits_of(n)),
        magnitude(digits_of(n)) == n,
        n > 0 ==> digits_of(n).len() > 0,
    decreases n,
{
    if n > 0 {
        lemma_digits_of(n / 10);
        let s = digits_of(n);
        let c = digit_char(n % 10);
        assert(0x30 + n % 10 <= 0x39);
        assert(c as int == 0x30 + n % 10);
        assert(s.drop_last() =~= digits_of(n / 10));
        assert forall|i: int| 0 <= i < s.len() implies is_digit(#[trigger] s[i]) by {
            if i < s.len() - 1 {
                assert(s[i] == digits_of(n / 10)[i]);
            }
        }
    }
}

/// A written number is read as that number: with any zeros in front, with a plus
/// or without, and as its negative behind a minus, if it fits.
pub proof fn law_numbers_are_read(n: nat, zeros: nat)
    requires
        n > 0,
    ensures
        ({
            let d = Seq::new(zeros, |i: int| '0') + digits_of(n);
            &&& int_spec(d) == (if n <= i32::MAX {
                Some(n as i32)
            } else {
                None
            })
            &&& int_spec(seq!['+'] + d) == int_spec(d)
            &&& int_spec(seq!['-'] + d) == (if n <= i32::MAX + 1 {
                Some((-n) as i32)
            } else {
                None
            })
        }),
{
    let z = Seq::new(zeros, |i: int| '0');
    let d = z + digits_of(n);
    lemma_digits_of(n);
    lemma_leading_zeros(zeros, digits_of(n));
    assert(d.len() > 0);
    assert(is_digit(d[0]));
    assert((seq!['+'] + d).subrange(1, d.len() as int + 1) =~= d);
    assert((seq!['-'] + d).subrange(1, d.len() as int + 1) =~= d);
}

proof fn lemma_leading_zeros(zeros: nat, d: Seq<char>)
    requires
        all_digits(d),
    ensures
        all_digits(Seq::new(zeros, |i: int| '0') + d),
        magnitude(Seq::new(zeros, |i: int| '0') + d) == magnitude(d),
    decreases d.len() + zeros,
{
    let z = Seq::new(zeros, |i: int| '0');
    let s = z + d;
    if d.len() > 0 {
        let e = d.drop_last();
        assert(all_digits(e));
        lemma_leading_zeros(zeros, e);
        assert(s.drop_last() =~= z + e);
    } else if zeros > 0 {
        let m = (zeros - 1) as nat;
        lemma_leading_zeros(m, d);
        assert(s.drop_last() =~= Seq::new(m, |i: int| '0') + d);
    }
}

/// What is no number is not read: nothing, a lone sign, or anything else than
/// digits behind the sign.
pub proof fn law_other_texts_are_no_numbers(s: Seq<char>, i: int)
    ensures
        s.len() == 0 ==> int_spec(s) is None,
        s.len() == 1 && (s[0] == '-' || s[0] == '+') ==> int_spec(s) is None,
        0 <= i < s.len() && !is_digit(s[i]) && !(i == 0 && (s[0] == '-' || s[0] == '+')) ==> int_spec(
            s,
        ) is None,
{
    if 0 <= i < s.len() && !is_digit(s[i]) && s.len() > 0 {
        let signed = s[0] == '-' || s[0] == '+';
        let d = if signed {
            s.subrange(1, s.len() as int)
        } else {
            s
        };
        if signed && i > 0 {
            assert(d[i - 1] == s[i]);
        }
    }
}

/// Parts that hold no separator are found again when the text they were joined
/// to is split; where as many parts are asked for as there are, the last may
/// hold the separator too.
pub proof fn law_splitn_finds_parts(w: Seq<Seq<char>>, sep: char, n: nat)
    requires
        1 <= w.len() <= n,
        forall|i: int| 0 <= i < w.len() - 1 ==> !(#[trigger] w[i]).contains(sep),
        w.len() < n ==> !w.last().contains(sep),
    ensures
        splitn_spec(joined(w, sep), sep, n) == w,
    decreases n,
{
    let s = joined(w, sep);
    lemma_first_of(s, sep);
    let k = first_of(s, sep);
    if w.len() == 1 {
        assert(s == w[0]);
        if n > 1 {
            assert(!w.last().contains(sep));
            if k < s.len() {
                assert(s[k] == sep);
                assert(s.contains(sep));
            }
        }
        assert(splitn_spec(s, sep, n) =~= w);
    } else {
        let t = w.subrange(1, w.len() as int);
        let rest = joined(t, sep);
        assert(s == w[0].push(sep) + rest);
        assert(!w[0].contains(sep));
        assert(s[w[0].len() as int] == sep);
        if k < w[0].len() {
            assert(w[0][k] == s[k]);
            assert(w[0].contains(sep));
        }
        assert(k == w[0].len());
        assert(s.take(k) =~= w[0]);
        assert(s.subrange(k + 1, s.len() as int) =~= rest);
        assert forall|i: int| 0 <= i < t.len() - 1 implies !(#[trigger] t[i]).contains(sep) by {
            assert(t[i] == w[i + 1]);
        }
        assert(t.last() == w.last());
        law_splitn_finds_parts(t, sep, (n - 1) as nat);
        assert(splitn_spec(s, sep, n) =~= seq![w[0]] + t);
        assert(seq![w[0]] + t =~= w);
    }
}

} // verus!
