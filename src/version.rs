//! Version names of installed runtimes (`v18.2.0`, `9.11.1`): their numeric
//! components, the order on them, and the choice of the newest install.

use vstd::prelude::*;

verus! {

/// `s` without its leading `v` characters, from position `i` on.
pub open spec fn strip_v_from(s: Seq<char>, i: int) -> Seq<char>
    decreases s.len() - i,
{
    if 0 <= i < s.len() && s[i] == 'v' {
        strip_v_from(s, i + 1)
    } else {
        s.skip(i)
    }
}

/// `s` without its leading `v` characters.
pub open spec fn strip_v(s: Seq<char>) -> Seq<char> {
    strip_v_from(s, 0)
}

/// The pieces of `s` between dots (one more piece than there are dots).
pub open spec fn split_dots(s: Seq<char>) -> Seq<Seq<char>>
    decreases s.len(),
{
    if s.len() == 0 {
        seq![Seq::empty()]
    } else {
        let p = split_dots(s.drop_last());
        if s.last() == '.' {
            p.push(Seq::empty())
        } else {
            p.update(p.len() - 1, p.last().push(s.last()))
        }
    }
}

pub open spec fn is_digit(c: char) -> bool {
    '0' <= c <= '9'
}

/// Every character of `d` is an ASCII digit.
pub open spec fn all_digits(d: Seq<char>) -> bool {
    forall|i: int| 0 <= i < d.len() ==> is_digit(#[trigger] d[i])
}

/// The number that a string of decimal digits denotes.
pub open spec fn digits_value(s: Seq<char>) -> nat
    decreases s.len(),
{
    if s.len() == 0 {
        0
    } else {
        digits_value(s.drop_last()) * 10 + (s.last() as nat - '0' as nat) as nat
    }
}

/// The digits of an unsigned integer text: an optional `+`, then the rest.
pub open spec fn unsigned_digits(s: Seq<char>) -> Seq<char> {
    if s.len() > 0 && s[0] == '+' {
        s.drop_first()
    } else {
        s
    }
}

/// An unsigned integer text is an optional `+` and at least one ASCII
/// digit; `None` for anything else.
pub open spec fn unsigned_value(s: Seq<char>) -> Option<nat> {
    let d = unsigned_digits(s);
    if d.len() > 0 && all_digits(d) {
        Some(digits_value(d))
    } else {
        None
    }
}

/// The value of an unsigned integer text when it fits below `bound`.
pub open spec fn parsed_below(s: Seq<char>, bound: nat) -> Option<nat> {
    match unsigned_value(s) {
        Some(v) => if v <= bound {
            Some(v)
        } else {
            None
        },
        None => None,
    }
}

/// The values of the pieces that are unsigned 64-bit integers, in order.
pub open spec fn numeric_pieces(parts: Seq<Seq<char>>) -> Seq<u64>
    decreases parts.len(),
{
    if parts.len() == 0 {
        Seq::empty()
    } else {
        let k = numeric_pieces(parts.drop_last());
        match parsed_below(parts.last(), u64::MAX as nat) {
            Some(v) => k.push(v as u64),
            None => k,
        }
    }
}

/// The numeric key of a version name: leading `v`s dropped, split at dots,
/// and the pieces that are numbers kept.
pub open spec fn version_key(name: Seq<char>) -> Seq<u64> {
    numeric_pieces(split_dots(strip_v(name)))
}

/// `a` comes before `b` in lexicographic order from position `i` on (a
/// proper prefix comes first).
pub open spec fn lex_less_from(a: Seq<u64>, b: Seq<u64>, i: int) -> bool
    decreases a.len() - i,
{
    if i < 0 || i >= b.len() {
        false
    } else if i >= a.len() {
        true
    } else if a[i] != b[i] {
        a[i] < b[i]
    } else {
        lex_less_from(a, b, i + 1)
    }
}

/// Lexicographic order on version keys, component by component as numbers.
pub open spec fn lex_less(a: Seq<u64>, b: Seq<u64>) -> bool {
    lex_less_from(a, b, 0)
}

proof fn lemma_split_nonempty(s: Seq<char>)
    ensures
        split_dots(s).len() >= 1,
    decreases s.len(),
{
    if s.len() > 0 {
        lemma_split_nonempty(s.drop_last());
    }
}

/// The first piece of `t` runs up to its first dot, or the whole text.
pub proof fn lemma_first_piece(t: Seq<char>, k: int)
    requires
        0 <= k <= t.len(),
        forall|q: int| 0 <= q < k ==> t[q] != '.',
        k < t.len() ==> t[k] == '.',
    ensures
        split_dots(t)[0] == t.subrange(0, k),
    decreases t.len(),
{
    if t.len() > 0 {
        lemma_split_nonempty(t.drop_last());
        if k == t.len() {
            lemma_first_piece(t.drop_last(), k - 1);
            lemma_prefix_pieces(t.drop_last());
            assert(t.drop_last().subrange(0, k - 1).push(t.last()) =~= t.subrange(0, k));
        } else {
            lemma_first_piece(t.drop_last(), k);
            if k < t.len() - 1 {
                lemma_split_dot(t.drop_last(), k);
            }
            assert(t.drop_last().subrange(0, k) =~= t.subrange(0, k));
        }
    }
}

proof fn lemma_split_dot(s: Seq<char>, k: int)
    requires
        0 <= k < s.len(),
        s[k] == '.',
    ensures
        split_dots(s).len() >= 2,
    decreases s.len(),
{
    lemma_split_nonempty(s.drop_last());
    if k < s.len() - 1 {
        lemma_split_dot(s.drop_last(), k);
    }
}

proof fn lemma_prefix_pieces(s: Seq<char>)
    requires
        forall|q: int| 0 <= q < s.len() ==> s[q] != '.',
    ensures
        split_dots(s).len() == 1,
    decreases s.len(),
{
    if s.len() > 0 {
        lemma_prefix_pieces(s.drop_last());
    }
}

proof fn lemma_lex_asym(a: Seq<u64>, b: Seq<u64>, i: int)
    requires
        0 <= i,
    ensures
        lex_less_from(a, b, i) ==> !lex_less_from(b, a, i),
    decreases a.len() - i,
{
    if i < a.len() && i < b.len() && a[i] == b[i] {
        lemma_lex_asym(a, b, i + 1);
    }
}

proof fn lemma_lex_le_trans(a: Seq<u64>, b: Seq<u64>, c: Seq<u64>, i: int)
    requires
        0 <= i,
        !lex_less_from(b, a, i),
        !lex_less_from(c, b, i),
    ensures
        !lex_less_from(c, a, i),
    decreases a.len() - i,
{
    if i < a.len() && i < b.len() && i < c.len() && a[i] == b[i] && b[i] == c[i] {
        lemma_lex_le_trans(a, b, c, i + 1);
    }
}

/// Parses an unsigned 64-bit integer text as `str::parse::<u64>` does.
pub fn parse_u64(s: &str) -> (r: Option<u64>)
    ensures
        match r {
            Some(v) => parsed_below(s@, u64::MAX as nat) == Some(v as nat),
            None => parsed_below(s@, u64::MAX as nat) is None,
        },
{
    let n = s.unicode_len();
    let start: usize = if n > 0 && s.get_char(0) == '+' {
        1
    } else {
        0
    };
    let ghost d = unsigned_digits(s@);
    assert(d =~= s@.skip(start as int));
    if start >= n {
        return None;
    }
    let mut val: u64 = 0;
    let mut over = false;
    let mut j: usize = start;
    while j < n
        invariant
            n == s@.len(),
            start <= j <= n,
            d =~= s@.skip(start as int),
            d == unsigned_digits(s@),
            forall|k: int| 0 <= k < j - start ==> is_digit(#[trigger] d[k]),
            !over ==> val == digits_value(d.take(j - start)),
            over ==> digits_value(d.take(j - start)) > u64::MAX,
        decreases n - j,
    {
        let c = s.get_char(j);
        assert(d[j - start] == c);
        if !('0' <= c && c <= '9') {
            let ghost bad: int = j - start;
            assert(!is_digit(d[bad]));
            assert(!all_digits(d));
            assert(unsigned_value(s@) is None);
            return None;
        }
        assert(d.take(j + 1 - start).drop_last() =~= d.take(j - start));
        let digit = (c as u32 - '0' as u32) as u64;
        if !over {
            if val > (u64::MAX - digit) / 10 {
                over = true;
            } else {
                val = val * 10 + digit;
            }
        }
        j = j + 1;
    }
    assert(d.take(n - start) =~= d);
    if over {
        None
    } else {
        Some(val)
    }
}

/// The numeric key of a version name (see `version_key`).
pub fn parse_version(name: &str) -> (r: Vec<u64>)
    ensures
        r@ == version_key(name@),
{
    let n = name.unicode_len();
    let mut i: usize = 0;
    while i < n && name.get_char(i) == 'v'
        invariant
            n == name@.len(),
            i <= n,
            strip_v(name@) == strip_v_from(name@, i as int),
        decreases n - i,
    {
        i = i + 1;
    }
    let t = name.substring_char(i, n);
    assert(t@ =~= strip_v(name@));
    let m = t.unicode_len();
    let mut out: Vec<u64> = Vec::new();
    let mut seg: usize = 0;
    let mut k: usize = 0;
    proof {
        assert(t@.take(0) =~= Seq::<char>::empty());
        assert(t@.subrange(0, 0) =~= Seq::<char>::empty());
    }
    while k < m
        invariant
            m == t@.len(),
            seg <= k <= m,
            split_dots(t@.take(k as int)).len() >= 1,
            numeric_pieces(split_dots(t@.take(k as int)).drop_last()) == out@,
            split_dots(t@.take(k as int)).last() == t@.subrange(seg as int, k as int),
        decreases m - k,
    {
        let ghost before = split_dots(t@.take(k as int));
        assert(t@.take(k + 1).drop_last() =~= t@.take(k as int));
        let c = t.get_char(k);
        if c == '.' {
            let piece = t.substring_char(seg, k);
            match parse_u64(piece) {
                Some(v) => out.push(v),
                None => {},
            }
            proof {
                assert(before.push(Seq::empty()).drop_last() =~= before);
                assert(t@.subrange(k + 1, k + 1) =~= Seq::<char>::empty());
            }
            seg = k + 1;
        } else {
            proof {
                let after = before.update(before.len() - 1, before.last().push(c));
                assert(after.drop_last() =~= before.drop_last());
                assert(after.last() =~= t@.subrange(seg as int, k + 1));
            }
        }
        k = k + 1;
    }
    assert(t@.take(m as int) =~= t@);
    let piece = t.substring_char(seg, m);
    match parse_u64(piece) {
        Some(v) => out.push(v),
        None => {},
    }
    proof {
        let parts = split_dots(t@);
        assert(parts.drop_last().push(parts.last()) =~= parts);
    }
    out
}

/// Whether `a` comes before `b` (see `lex_less`).
pub fn version_less(a: &Vec<u64>, b: &Vec<u64>) -> (r: bool)
    ensures
        r == lex_less(a@, b@),
{
    let mut i: usize = 0;
    while i < a.len() && i < b.len() && a[i] == b[i]
        invariant
            i <= a@.len(),
            i <= b@.len(),
            lex_less(a@, b@) == lex_less_from(a@, b@, i as int),
        decreases a@.len() - i,
    {
        i = i + 1;
    }
    if i >= b.len() {
        false
    } else if i >= a.len() {
        true
    } else {
        a[i] < b[i]
    }
}

/// A directory found under a version manager's root: its name, and whether
/// it holds a runtime binary.
#[derive(Debug, Clone, PartialEq, Eq)]
pub struct InstalledVersion {
    pub name: String,
    pub has_runtime: bool,
}

/// Entry `b` is the newest install: it holds a runtime, no install that
/// holds one has a greater key, and every later one has a smaller key (so
/// among equal keys the last one listed wins).
pub open spec fn is_newest(v: Seq<InstalledVersion>, b: int) -> bool {
    &&& 0 <= b < v.len()
    &&& v[b].has_runtime
    &&& forall|j: int|
        0 <= j < v.len() && #[trigger] v[j].has_runtime ==> !lex_less(
            version_key(v[b].name@),
            version_key(v[j].name@),
        )
    &&& forall|j: int|
        b < j < v.len() && #[trigger] v[j].has_runtime ==> lex_less(
            version_key(v[j].name@),
            version_key(v[b].name@),
        )
}

/// Picks the newest install, comparing versions as numbers so that `18`
/// comes after `9`; `None` when no entry holds a runtime.
pub fn select_latest(versions: &Vec<InstalledVersion>) -> (r: Option<usize>)
    ensures
        match r {
            Some(b) => is_newest(versions@, b as int),
            None => forall|j: int| 0 <= j < versions@.len() ==> !(#[trigger] versions@[j]).has_runtime,
        },
{
    let mut best: Option<usize> = None;
    let mut best_key: Vec<u64> = Vec::new();
    let mut i: usize = 0;
    while i < versions.len()
        invariant
            i <= versions@.len(),
            match best {
                Some(b) => {
                    &&& b < i
                    &&& versions@[b as int].has_runtime
                    &&& best_key@ == version_key(versions@[b as int].name@)
                    &&& forall|j: int|
                        0 <= j < i && #[trigger] versions@[j].has_runtime ==> !lex_less(
                            version_key(versions@[b as int].name@),
                            version_key(versions@[j].name@),
                        )
                    &&& forall|j: int|
                        b < j < i && #[trigger] versions@[j].has_runtime ==> lex_less(
                            version_key(versions@[j].name@),
                            version_key(versions@[b as int].name@),
                        )
                },
                None => forall|j: int| 0 <= j < i ==> !(#[trigger] versions@[j]).has_runtime,
            },
        decreases versions@.len() - i,
    {
        if versions[i].has_runtime {
            let key = parse_version(versions[i].name.as_str());
            match best {
                None => {
                    proof {
                        lemma_lex_asym(key@, key@, 0);
                    }
                    best = Some(i);
                    best_key = key;
                },
                Some(b) => {
                    if !version_less(&key, &best_key) {
                        proof {
                            let kb = best_key@;
                            assert forall|j: int|
                                0 <= j <= i && #[trigger] versions@[j].has_runtime implies !lex_less(
                                key@,
                                version_key(versions@[j].name@),
                            ) by {
                                if j < i {
                                    lemma_lex_le_trans(
                                        version_key(versions@[j].name@),
                                        kb,
                                        key@,
                                        0,
                                    );
                                } else {
                                    lemma_lex_asym(key@, key@, 0);
                                }
                            }
                        }
                        best = Some(i);
                        best_key = key;
                    } else {
                        proof {
                            lemma_lex_asym(key@, best_key@, 0);
                        }
                    }
                },
            }
        }
        i = i + 1;
    }
    best
}

} // verus!
