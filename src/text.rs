//! Character-level helpers shared by the descriptor parsers: whitespace,
//! trimming, word splitting and a small model of file-system paths held as
//! strings. The paths are those that directory walks and system queries
//! produce: without a trailing separator and without `.` or `..`
//! components. On such paths the model agrees with `std::path::Path`; a
//! trailing separator would count here as an empty last component.
use vstd::prelude::*;

verus! {

/// The characters of `s`, in order.
pub fn chars_of(s: &str) -> (r: Vec<char>)
    ensures
        r@ == s@,
{
    let mut r: Vec<char> = Vec::new();
    for c in it: s.chars()
        invariant
            r@ == it.seq().take(it.index() as int),
            it.seq() == s@,
    {
        r.push(c);
    }
    r
}

/// Relies on `String::push`: appends one character.
#[verifier::external_body]
fn push_char(s: &mut String, c: char)
    ensures
        final(s)@ == old(s)@.push(c),
{
    s.push(c)
}

/// The string made of the characters of `cs`.
pub fn string_of(cs: &[char]) -> (r: String)
    ensures
        r@ == cs@,
{
    let mut r = String::new();
    let mut i: usize = 0;
    while i < cs.len()
        invariant
            i <= cs@.len(),
            r@ == cs@.take(i as int),
        decreases cs@.len() - i,
    {
        push_char(&mut r, cs[i]);
        assert(cs@.take(i as int).push(cs@[i as int]) =~= cs@.take(i + 1 as int));
        i = i + 1;
    }
    assert(cs@.take(cs@.len() as int) =~= cs@);
    r
}

/// The characters `from..to` of `s`.
pub fn slice_of(s: &[char], from: usize, to: usize) -> (r: Vec<char>)
    requires
        from <= to <= s@.len(),
    ensures
        r@ == s@.subrange(from as int, to as int),
{
    let mut r: Vec<char> = Vec::new();
    let mut i: usize = from;
    while i < to
        invariant
            from <= i <= to <= s@.len(),
            r@ == s@.subrange(from as int, i as int),
        decreases to - i,
    {
        r.push(s[i]);
        assert(s@.subrange(from as int, i as int).push(s@[i as int]) =~= s@.subrange(
            from as int,
            i + 1 as int,
        ));
        i = i + 1;
    }
    r
}

/// `a` followed by `b`.
pub fn concat(a: &[char], b: &[char]) -> (r: Vec<char>)
    ensures
        r@ == a@ + b@,
{
    let mut r = slice_of(a, 0, a.len());
    let mut i: usize = 0;
    assert(a@.subrange(0, a@.len() as int) =~= a@);
    while i < b.len()
        invariant
            i <= b@.len(),
            r@ == a@ + b@.take(i as int),
        decreases b@.len() - i,
    {
        r.push(b[i]);
        assert(a@ + b@.take(i as int) + seq![b@[i as int]] =~= a@ + b@.take(i + 1 as int));
        i = i + 1;
    }
    assert(b@.take(b@.len() as int) =~= b@);
    r
}

/// Whether two character sequences are equal.
pub fn chars_eq(a: &[char], b: &[char]) -> (r: bool)
    ensures
        r == (a@ == b@),
{
    if a.len() != b.len() {
        return false;
    }
    let mut i: usize = 0;
    while i < a.len()
        invariant
            a@.len() == b@.len(),
            i <= a@.len(),
            forall|k: int| 0 <= k < i ==> a@[k] == b@[k],
        decreases a@.len() - i,
    {
        if a[i] != b[i] {
            return false;
        }
        i = i + 1;
    }
    assert(a@ =~= b@);
    true
}

/// The white-space characters of Unicode, as `char::is_whitespace` knows them.
pub open spec fn is_ws(c: char) -> bool {
    let u = c as u32;
    ||| u == 0x20
    ||| 0x09 <= u <= 0x0d
    ||| u == 0x85
    ||| u == 0xa0
    ||| u == 0x1680
    ||| 0x2000 <= u <= 0x200a
    ||| u == 0x2028
    ||| u == 0x2029
    ||| u == 0x202f
    ||| u == 0x205f
    ||| u == 0x3000
}

/// Whether `c` is white space.
pub fn is_whitespace(c: char) -> (r: bool)
    ensures
        r == is_ws(c),
{
    let u = c as u32;
    u == 0x20 || (0x09 <= u && u <= 0x0d) || u == 0x85 || u == 0xa0 || u == 0x1680 || (0x2000
        <= u && u <= 0x200a) || u == 0x2028 || u == 0x2029 || u == 0x202f || u == 0x205f || u
        == 0x3000
}

/// The number of white-space characters at the start of `s`.
pub open spec fn lead_ws(s: Seq<char>) -> nat
    decreases s.len(),
{
    if s.len() > 0 && is_ws(s[0]) {
        1 + lead_ws(s.drop_first())
    } else {
        0
    }
}

/// The number of white-space characters at the end of `s`.
pub open spec fn trail_ws(s: Seq<char>) -> nat
    decreases s.len(),
{
    if s.len() > 0 && is_ws(s.last()) {
        1 + trail_ws(s.drop_last())
    } else {
        0
    }
}

/// `s` without leading and trailing white space.
pub open spec fn trim(s: Seq<char>) -> Seq<char> {
    let t = s.skip(lead_ws(s) as int);
    t.take(t.len() - trail_ws(t))
}

/// `s@.subrange(from, to)` without leading and trailing white space.
pub fn trim_range(s: &[char], from: usize, to: usize) -> (r: Vec<char>)
    requires
        from <= to <= s@.len(),
    ensures
        r@ == trim(s@.subrange(from as int, to as int)),
{
    let ghost t = s@.subrange(from as int, to as int);
    assert(t.skip(0) =~= t);
    let mut lo: usize = from;
    while lo < to && is_whitespace(s[lo])
        invariant
            from <= lo <= to <= s@.len(),
            t == s@.subrange(from as int, to as int),
            lead_ws(t) == (lo - from) + lead_ws(t.skip(lo - from)),
        decreases to - lo,
    {
        assert(t.skip(lo - from).drop_first() =~= t.skip(lo + 1 - from));
        lo = lo + 1;
    }
    let ghost u = t.skip(lead_ws(t) as int);
    assert(u =~= s@.subrange(lo as int, to as int));
    assert(u.take(u.len() as int) =~= u);
    let mut hi: usize = to;
    while hi > lo && is_whitespace(s[hi - 1])
        invariant
            from <= lo <= hi <= to <= s@.len(),
            u == s@.subrange(lo as int, to as int),
            trail_ws(u) == (to - hi) + trail_ws(u.take(hi - lo)),
        decreases hi - lo,
    {
        assert(u.take(hi - lo).drop_last() =~= u.take(hi - 1 - lo));
        hi = hi - 1;
    }
    assert(u.take(u.len() - trail_ws(u)) =~= s@.subrange(lo as int, hi as int));
    slice_of(s, lo, hi)
}

/// Whether `p` occurs in `s` at position `at`.
pub open spec fn occurs_at(s: Seq<char>, at: int, p: Seq<char>) -> bool {
    0 <= at && at + p.len() <= s.len() && s.subrange(at, at + p.len()) == p
}

/// Whether `p` occurs in `s` at position `at`.
pub fn matches_at(s: &[char], at: usize, p: &[char]) -> (r: bool)
    ensures
        r == occurs_at(s@, at as int, p@),
{
    let n = s.len();
    if at > n || p.len() > n - at {
        return false;
    }
    let mut i: usize = 0;
    while i < p.len()
        invariant
            n == s@.len(),
            at + p@.len() <= n,
            i <= p@.len(),
            forall|k: int| 0 <= k < i ==> s@[at + k] == p@[k],
        decreases p@.len() - i,
    {
        if s[at + i] != p[i] {
            assert(s@.subrange(at as int, at + p@.len())[i as int] != p@[i as int]);
            return false;
        }
        i = i + 1;
    }
    assert(s@.subrange(at as int, at + p@.len()) =~= p@);
    true
}

/// Whether `c` separates path components: `/`, and on Windows also `\`.
pub open spec fn is_sep(c: char, windows: bool) -> bool {
    c == '/' || (windows && c == '\\')
}

/// The position of the last separator in `s`, if there is one.
pub open spec fn last_sep(s: Seq<char>, windows: bool) -> Option<int>
    decreases s.len(),
{
    if s.len() == 0 {
        None
    } else if is_sep(s.last(), windows) {
        Some(s.len() - 1)
    } else {
        last_sep(s.drop_last(), windows)
    }
}

proof fn lemma_last_sep(s: Seq<char>, windows: bool)
    ensures
        match last_sep(s, windows) {
            Some(k) => 0 <= k < s.len() && is_sep(s[k], windows) && forall|j: int|
                k < j < s.len() ==> !is_sep(#[trigger] s[j], windows),
            None => forall|j: int| 0 <= j < s.len() ==> !is_sep(#[trigger] s[j], windows),
        },
    decreases s.len(),
{
    if s.len() > 0 && !is_sep(s.last(), windows) {
        lemma_last_sep(s.drop_last(), windows);
        assert forall|j: int| 0 <= j < s.len() - 1 implies s[j] == s.drop_last()[j] by {}
    }
}

/// Where the last separator of `s` stands.
pub fn find_last_sep(s: &[char], windows: bool) -> (r: Option<usize>)
    ensures
        r == (match last_sep(s@, windows) {
            Some(k) => Some(k as usize),
            None => None::<usize>,
        }),
        r matches Some(k) ==> k < s.len(),
{
    let mut i: usize = s.len();
    assert(s@.take(i as int) =~= s@);
    while i > 0
        invariant
            i <= s@.len(),
            last_sep(s@, windows) == last_sep(s@.take(i as int), windows),
        decreases i,
    {
        let c = s[i - 1];
        if c == '/' || (windows && c == '\\') {
            return Some(i - 1);
        }
        assert(s@.take(i as int).drop_last() =~= s@.take(i - 1 as int));
        i = i - 1;
    }
    None
}

/// The last component of the path `p`.
pub open spec fn file_name(p: Seq<char>, windows: bool) -> Seq<char> {
    match last_sep(p, windows) {
        Some(k) => p.skip(k + 1),
        None => p,
    }
}

/// The path `p` without its last component; the root stays the root.
pub open spec fn parent(p: Seq<char>, windows: bool) -> Seq<char> {
    match last_sep(p, windows) {
        Some(k) => if k == 0 {
            p.take(1)
        } else {
            p.take(k)
        },
        None => Seq::empty(),
    }
}

/// The position of the last `.` in `s`, if there is one.
pub open spec fn last_dot(s: Seq<char>) -> Option<int>
    decreases s.len(),
{
    if s.len() == 0 {
        None
    } else if s.last() == '.' {
        Some(s.len() - 1)
    } else {
        last_dot(s.drop_last())
    }
}

proof fn lemma_last_dot(s: Seq<char>)
    ensures
        last_dot(s) matches Some(k) ==> 0 <= k < s.len(),
    decreases s.len(),
{
    if s.len() > 0 && s.last() != '.' {
        lemma_last_dot(s.drop_last());
    }
}

/// The extension of a file name: what follows its last `.`, unless that
/// `.` opens the name.
pub open spec fn name_extension(name: Seq<char>) -> Option<Seq<char>> {
    match last_dot(name) {
        Some(k) => if k > 0 {
            Some(name.skip(k + 1))
        } else {
            None
        },
        None => None,
    }
}

/// A file name without its extension.
pub open spec fn name_stem(name: Seq<char>) -> Seq<char> {
    match last_dot(name) {
        Some(k) => if k > 0 {
            name.take(k)
        } else {
            name
        },
        None => name,
    }
}

/// The extension of the last component of `p`.
pub open spec fn extension(p: Seq<char>, windows: bool) -> Option<Seq<char>> {
    name_extension(file_name(p, windows))
}

/// The last component of `p` without its extension.
pub open spec fn file_stem(p: Seq<char>, windows: bool) -> Seq<char> {
    name_stem(file_name(p, windows))
}

/// Whether `p` is absolute: it starts with a separator, or on Windows with a
/// drive letter and `:`.
pub open spec fn is_absolute(p: Seq<char>, windows: bool) -> bool {
    (p.len() > 0 && is_sep(p[0], windows)) || (windows && p.len() > 1 && p[1] == ':')
}

/// The separator that joining writes.
pub open spec fn sep_char(windows: bool) -> char {
    if windows {
        '\\'
    } else {
        '/'
    }
}

/// `rel` taken relative to `base`: an absolute `rel` replaces `base`.
pub open spec fn join(base: Seq<char>, rel: Seq<char>, windows: bool) -> Seq<char> {
    if is_absolute(rel, windows) || base.len() == 0 {
        rel
    } else if is_sep(base.last(), windows) {
        base + rel
    } else {
        base + seq![sep_char(windows)] + rel
    }
}

/// The last component of the path `p`.
pub fn file_name_of(p: &[char], windows: bool) -> (r: Vec<char>)
    ensures
        r@ == file_name(p@, windows),
{
    proof {
        lemma_last_sep(p@, windows);
    }
    match find_last_sep(p, windows) {
        Some(k) => slice_of(p, k + 1, p.len()),
        None => {
            assert(p@.subrange(0, p@.len() as int) =~= p@);
            slice_of(p, 0, p.len())
        },
    }
}

/// The path `p` without its last component.
pub fn parent_of(p: &[char], windows: bool) -> (r: Vec<char>)
    ensures
        r@ == parent(p@, windows),
{
    proof {
        lemma_last_sep(p@, windows);
    }
    match find_last_sep(p, windows) {
        Some(k) => {
            let end = if k == 0 {
                1
            } else {
                k
            };
            let r = slice_of(p, 0, end);
            assert(r@ =~= p@.take(end as int));
            r
        },
        None => Vec::new(),
    }
}

/// Where the last `.` of `s` stands.
pub fn find_last_dot(s: &[char]) -> (r: Option<usize>)
    ensures
        r == (match last_dot(s@) {
            Some(k) => Some(k as usize),
            None => None::<usize>,
        }),
        r matches Some(k) ==> k < s.len(),
{
    let mut i: usize = s.len();
    assert(s@.take(i as int) =~= s@);
    while i > 0
        invariant
            i <= s@.len(),
            last_dot(s@) == last_dot(s@.take(i as int)),
        decreases i,
    {
        if s[i - 1] == '.' {
            return Some(i - 1);
        }
        assert(s@.take(i as int).drop_last() =~= s@.take(i - 1 as int));
        i = i - 1;
    }
    None
}

/// The extension of the last component of `p`.
pub fn extension_of(p: &[char], windows: bool) -> (r: Option<Vec<char>>)
    ensures
        r matches Some(e) ==> extension(p@, windows) == Some(e@),
        r is None ==> extension(p@, windows) is None,
{
    let name = file_name_of(p, windows);
    proof {
        lemma_last_dot(name@);
    }
    match find_last_dot(&name) {
        Some(k) => if k > 0 {
            Some(slice_of(&name, k + 1, name.len()))
        } else {
            None
        },
        None => None,
    }
}

/// The last component of `p` without its extension.
pub fn file_stem_of(p: &[char], windows: bool) -> (r: Vec<char>)
    ensures
        r@ == file_stem(p@, windows),
{
    let name = file_name_of(p, windows);
    proof {
        lemma_last_dot(name@);
    }
    match find_last_dot(&name) {
        Some(k) => if k > 0 {
            slice_of(&name, 0, k)
        } else {
            name
        },
        None => name,
    }
}

/// Whether the last component of `p` has the extension `ext`.
pub fn has_extension(p: &[char], ext: &[char], windows: bool) -> (r: bool)
    ensures
        r == (extension(p@, windows) == Some(ext@)),
{
    match extension_of(p, windows) {
        Some(e) => chars_eq(&e, ext),
        None => false,
    }
}

/// `rel` taken relative to `base`.
pub fn join_path(base: &[char], rel: &[char], windows: bool) -> (r: Vec<char>)
    ensures
        r@ == join(base@, rel@, windows),
{
    let absolute = (rel.len() > 0 && (rel[0] == '/' || (windows && rel[0] == '\\'))) || (windows
        && rel.len() > 1 && rel[1] == ':');
    if absolute || base.len() == 0 {
        return slice_of(rel, 0, rel.len());
    }
    let last = base[base.len() - 1];
    if last == '/' || (windows && last == '\\') {
        concat(base, rel)
    } else {
        let mut b = slice_of(base, 0, base.len());
        b.push(if windows { '\\' } else { '/' });
        assert(base@.subrange(0, base@.len() as int) =~= base@);
        concat(&b, rel)
    }
}

/// The position of the last `c` in `s`, if there is one.
pub open spec fn last_of(s: Seq<char>, c: char) -> Option<int>
    decreases s.len(),
{
    if s.len() == 0 {
        None
    } else if s.last() == c {
        Some(s.len() - 1)
    } else {
        last_of(s.drop_last(), c)
    }
}

proof fn lemma_last_of(s: Seq<char>, c: char)
    ensures
        last_of(s, c) matches Some(k) ==> 0 <= k < s.len() && s[k] == c,
    decreases s.len(),
{
    if s.len() > 0 && s.last() != c {
        lemma_last_of(s.drop_last(), c);
    }
}

/// Where the last `c` in `s` stands.
pub fn find_last_of(s: &[char], c: char) -> (r: Option<usize>)
    ensures
        r == (match last_of(s@, c) {
            Some(k) => Some(k as usize),
            None => None::<usize>,
        }),
        r matches Some(k) ==> k < s.len(),
{
    let mut i: usize = s.len();
    assert(s@.take(i as int) =~= s@);
    while i > 0
        invariant
            i <= s@.len(),
            last_of(s@, c) == last_of(s@.take(i as int), c),
        decreases i,
    {
        if s[i - 1] == c {
            return Some(i - 1);
        }
        assert(s@.take(i as int).drop_last() =~= s@.take(i - 1 as int));
        i = i - 1;
    }
    None
}

/// What follows the last `c` in `s`; all of `s` when it holds no `c`.
pub open spec fn after_last(s: Seq<char>, c: char) -> Seq<char> {
    match last_of(s, c) {
        Some(k) => s.skip(k + 1),
        None => s,
    }
}

/// What follows the last `c` in `s`; all of `s` when it holds no `c`.
pub fn after_last_of(s: &[char], c: char) -> (r: Vec<char>)
    ensures
        r@ == after_last(s@, c),
{
    proof {
        lemma_last_of(s@, c);
    }
    match find_last_of(s, c) {
        Some(k) => slice_of(s, k + 1, s.len()),
        None => {
            assert(s@.subrange(0, s@.len() as int) =~= s@);
            slice_of(s, 0, s.len())
        },
    }
}

/// The pieces of `s` between occurrences of `c`: one more piece than there
/// are occurrences.
pub open spec fn split(s: Seq<char>, c: char) -> Seq<Seq<char>>
    decreases s.len(),
{
    match last_of(s, c) {
        Some(k) => if 0 <= k < s.len() {
            split(s.take(k), c).push(s.skip(k + 1))
        } else {
            seq![s]
        },
        None => seq![s],
    }
}

/// The pieces of `s` between occurrences of `c`.
pub fn split_on(s: &[char], c: char) -> (r: Vec<Vec<char>>)
    ensures
        r@.map_values(|v: Vec<char>| v@) == split(s@, c),
{
    let mut done: Vec<Vec<char>> = Vec::new();
    let mut st: usize = 0;
    let mut i: usize = 0;
    assert(s@.take(0).len() == 0);
    assert(split(s@.take(0), c) =~= seq![s@.subrange(0, 0)]);
    while i < s.len()
        invariant
            st <= i <= s@.len(),
            last_of(s@.take(i as int), c) == (if st == 0 {
                None
            } else {
                Some(st - 1)
            }),
            st == 0 ==> done@.len() == 0,
            st > 0 ==> done@.map_values(|v: Vec<char>| v@) == split(s@.take(st - 1), c),
            st > 0 ==> s@[st - 1] == c,
            split(s@.take(i as int), c) == done@.map_values(|v: Vec<char>| v@).push(
                s@.subrange(st as int, i as int),
            ),
        decreases s@.len() - i,
    {
        let ghost t0 = s@.take(i as int);
        let ghost t1 = s@.take(i + 1 as int);
        assert(t1.drop_last() =~= t0);
        assert(t1.last() == s@[i as int]);
        if s[i] == c {
            assert(t1.take(i as int) =~= t0);
            assert(t1.skip(i + 1) =~= s@.subrange(i + 1, i + 1));
            assert(last_of(t1, c) == Some(i as int));
            assert(split(t1, c) == split(t0, c).push(t1.skip(i + 1)));
            let piece = slice_of(s, st, i);
            done.push(piece);
            assert(done@.map_values(|v: Vec<char>| v@) =~= split(t0, c));
            st = i + 1;
            assert(s@.subrange(st as int, i + 1) =~= t1.skip(i + 1));
            assert(split(t1, c) == done@.map_values(|v: Vec<char>| v@).push(
                s@.subrange(st as int, i + 1),
            ));
        } else {
            assert(last_of(t1, c) == last_of(t0, c));
            if st > 0 {
                assert(t1.take(st - 1) =~= t0.take(st - 1));
                assert(t0.take(st - 1) =~= s@.take(st - 1));
                assert(t1.skip(st as int) =~= s@.subrange(st as int, i + 1));
                assert(t0.skip(st as int) =~= s@.subrange(st as int, i as int));
                assert(split(t1, c) == split(t1.take(st - 1), c).push(t1.skip(st as int)));
                assert(split(t0, c) == split(t0.take(st - 1), c).push(t0.skip(st as int)));
                assert(split(t1, c) == done@.map_values(|v: Vec<char>| v@).push(
                    s@.subrange(st as int, i + 1),
                ));
            } else {
                assert(t1 =~= s@.subrange(0, i + 1));
                assert(split(t1, c) == seq![t1]);
                assert(done@.map_values(|v: Vec<char>| v@) =~= Seq::<Seq<char>>::empty());
            }
        }
        i = i + 1;
    }
    let last = slice_of(s, st, s.len());
    done.push(last);
    assert(s@.take(s@.len() as int) =~= s@);
    assert(done@.map_values(|v: Vec<char>| v@) =~= split(s@, c));
    done
}

/// Whether every character of `s` is an ASCII digit.
pub open spec fn all_digits(s: Seq<char>) -> bool {
    forall|i: int| 0 <= i < s.len() ==> '0' <= #[trigger] s[i] <= '9'
}

/// The number that the decimal digits `s` write.
pub open spec fn digits_value(s: Seq<char>) -> nat
    decreases s.len(),
{
    if s.len() == 0 {
        0
    } else {
        digits_value(s.drop_last()) * 10 + ((s.last() as u32) - ('0' as u32)) as nat
    }
}

proof fn lemma_digits_monotone(s: Seq<char>, i: int)
    requires
        0 <= i <= s.len(),
        all_digits(s),
    ensures
        digits_value(s.take(i)) <= digits_value(s),
    decreases s.len() - i,
{
    if i < s.len() {
        lemma_digits_monotone(s, i + 1);
        assert(s.take(i + 1).drop_last() =~= s.take(i));
        assert('0' <= s[i] <= '9');
    } else {
        assert(s.take(i) =~= s);
    }
}

/// What `u16::from_str` gives: decimal digits, after at most one leading
/// `+`, whose value fits in 16 bits.
pub open spec fn parse_u16(s: Seq<char>) -> Option<u16> {
    let d = if s.len() > 0 && s[0] == '+' {
        s.drop_first()
    } else {
        s
    };
    if d.len() > 0 && all_digits(d) && digits_value(d) <= 0xffff {
        Some(digits_value(d) as u16)
    } else {
        None
    }
}

/// The 16-bit number that `s` writes in decimal.
pub fn parse_u16_of(s: &[char]) -> (r: Option<u16>)
    ensures
        r == parse_u16(s@),
{
    let start: usize = if s.len() > 0 && s[0] == '+' {
        1
    } else {
        0
    };
    let ghost d = s@.skip(start as int);
    assert(d =~= (if s@.len() > 0 && s@[0] == '+' {
        s@.drop_first()
    } else {
        s@
    }));
    assert(parse_u16(s@) == (if d.len() > 0 && all_digits(d) && digits_value(d) <= 0xffff {
        Some(digits_value(d) as u16)
    } else {
        None
    }));
    if start >= s.len() {
        return None;
    }
    let mut v: u32 = 0;
    let mut i: usize = start;
    assert(d.take(0) =~= Seq::<char>::empty());
    while i < s.len()
        invariant
            start <= i <= s@.len(),
            d == s@.skip(start as int),
            parse_u16(s@) == (if d.len() > 0 && all_digits(d) && digits_value(d) <= 0xffff {
                Some(digits_value(d) as u16)
            } else {
                None
            }),
            all_digits(d.take(i - start)),
            v == digits_value(d.take(i - start)),
            v <= 0xffff,
        decreases s@.len() - i,
    {
        let ch = s[i];
        if ch < '0' || ch > '9' {
            assert(d[i - start] == s@[i as int]);
            assert(!all_digits(d));
            return None;
        }
        let digit = (ch as u32) - ('0' as u32);
        let next = v * 10 + digit;
        let ghost t1 = d.take(i + 1 - start);
        assert(t1.drop_last() =~= d.take(i - start));
        assert(t1.last() == ch);
        assert(all_digits(t1)) by {
            assert forall|k: int| 0 <= k < t1.len() implies '0' <= #[trigger] t1[k] <= '9' by {
                if k < t1.len() - 1 {
                    assert(t1[k] == d.take(i - start)[k]);
                }
            }
        }
        if next > 0xffff {
            proof {
                if all_digits(d) {
                    lemma_digits_monotone(d, i + 1 - start);
                }
            }
            return None;
        }
        v = next;
        i = i + 1;
    }
    assert(d.take(i - start) =~= d);
    Some(v as u16)
}

} // verus!
