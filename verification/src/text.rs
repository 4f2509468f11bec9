//! Text utilities over character sequences.
//!
//! Every operation here works on the `Seq<char>` view of Rust strings and
//! states its result through the spec functions defined in this module.
use vstd::prelude::*;

verus! {

/// Unicode `White_Space` code points, as `char::is_whitespace` documents them.
pub open spec fn is_ws(c: char) -> bool {
    let n = c as u32;
    ||| (0x09 <= n && n <= 0x0d)
    ||| n == 0x20
    ||| n == 0x85
    ||| n == 0xa0
    ||| n == 0x1680
    ||| (0x2000 <= n && n <= 0x200a)
    ||| n == 0x2028
    ||| n == 0x2029
    ||| n == 0x202f
    ||| n == 0x205f
    ||| n == 0x3000
}

/// Executable whitespace test.
pub fn is_whitespace(c: char) -> (b: bool)
    ensures
        b == is_ws(c),
{
    let n = c as u32;
    (0x09 <= n && n <= 0x0d) || n == 0x20 || n == 0x85 || n == 0xa0 || n == 0x1680 || (0x2000
        <= n && n <= 0x200a) || n == 0x2028 || n == 0x2029 || n == 0x202f || n == 0x205f || n
        == 0x3000
}

/// `s` with leading whitespace removed.
pub open spec fn trim_start(s: Seq<char>) -> Seq<char>
    decreases s.len(),
{
    if s.len() > 0 && is_ws(s[0]) {
        trim_start(s.drop_first())
    } else {
        s
    }
}

/// `s` with trailing whitespace removed.
pub open spec fn trim_end(s: Seq<char>) -> Seq<char>
    decreases s.len(),
{
    if s.len() > 0 && is_ws(s.last()) {
        trim_end(s.drop_last())
    } else {
        s
    }
}

/// `s` with leading and trailing whitespace removed (`str::trim`).
pub open spec fn trim(s: Seq<char>) -> Seq<char> {
    trim_end(trim_start(s))
}

/// `p` occurs in `s` at position `i`.
pub open spec fn match_at(s: Seq<char>, p: Seq<char>, i: int) -> bool {
    0 <= i && i + p.len() <= s.len() && s.subrange(i, i + p.len()) == p
}

/// First position at or after `i` where `p` occurs in `s`.
pub open spec fn find_from(s: Seq<char>, p: Seq<char>, i: int) -> Option<int>
    decreases s.len() + 1 - i,
{
    if i < 0 || i + p.len() > s.len() {
        None
    } else if match_at(s, p, i) {
        Some(i)
    } else {
        find_from(s, p, i + 1)
    }
}

/// A found position lies in range and holds a match.
pub proof fn lemma_find_from(s: Seq<char>, p: Seq<char>, i: int)
    ensures
        find_from(s, p, i) matches Some(j) ==> i <= j && match_at(s, p, j),
    decreases s.len() + 1 - i,
{
    if !(i < 0 || i + p.len() > s.len()) && !match_at(s, p, i) {
        lemma_find_from(s, p, i + 1);
    }
}

/// First position of `p` in `s` (`str::find`).
pub open spec fn find(s: Seq<char>, p: Seq<char>) -> Option<int> {
    find_from(s, p, 0)
}

/// Last position at or before `i` where `p` occurs in `s`.
pub open spec fn rfind_from(s: Seq<char>, p: Seq<char>, i: int) -> Option<int>
    decreases i + 1,
{
    if i < 0 {
        None
    } else if match_at(s, p, i) {
        Some(i)
    } else {
        rfind_from(s, p, i - 1)
    }
}

/// Last position of `p` in `s` (`str::rfind`).
pub open spec fn rfind(s: Seq<char>, p: Seq<char>) -> Option<int> {
    rfind_from(s, p, s.len() - p.len())
}

/// `p` occurs somewhere in `s` (`str::contains`).
pub open spec fn contains(s: Seq<char>, p: Seq<char>) -> bool {
    find(s, p) is Some
}

/// `s` begins with `p` (`str::starts_with`).
pub open spec fn starts_with(s: Seq<char>, p: Seq<char>) -> bool {
    p.len() <= s.len() && s.subrange(0, p.len() as int) == p
}

/// `s` ends with `p` (`str::ends_with`).
pub open spec fn ends_with(s: Seq<char>, p: Seq<char>) -> bool {
    p.len() <= s.len() && s.subrange(s.len() - p.len(), s.len() as int) == p
}

/// `s` cut at every occurrence of `c` (`str::split` with a `char`).
pub open spec fn split_char(s: Seq<char>, c: char) -> Seq<Seq<char>>
    decreases s.len(),
{
    proof {
        lemma_find_from(s, seq![c], 0);
    }
    match find(s, seq![c]) {
        None => seq![s],
        Some(i) => seq![s.subrange(0, i)] + split_char(s.subrange(i + 1, s.len() as int), c),
    }
}

/// A line without its trailing carriage return.
pub open spec fn strip_cr(s: Seq<char>) -> Seq<char> {
    if s.len() > 0 && s.last() == '\r' {
        s.drop_last()
    } else {
        s
    }
}

/// The lines of `s` (`str::lines`): cut at `\n`, a trailing `\r` removed
/// from each, no final empty line.
pub open spec fn lines(s: Seq<char>) -> Seq<Seq<char>>
    decreases s.len(),
{
    if s.len() == 0 {
        seq![]
    } else {
        proof {
            lemma_find_from(s, seq!['\n'], 0);
        }
        match find(s, seq!['\n']) {
            None => seq![strip_cr(s)],
            Some(i) => seq![strip_cr(s.subrange(0, i))] + lines(
                s.subrange(i + 1, s.len() as int),
            ),
        }
    }
}

/// Number of leading non-whitespace characters of `s`.
pub open spec fn word_len(s: Seq<char>) -> nat
    decreases s.len(),
{
    if s.len() == 0 || is_ws(s[0]) {
        0
    } else {
        1 + word_len(s.drop_first())
    }
}

/// A run of non-whitespace characters is never longer than the text.
pub proof fn lemma_word_len(s: Seq<char>)
    ensures
        word_len(s) <= s.len(),
        s.len() > 0 && !is_ws(s[0]) ==> word_len(s) > 0,
    decreases s.len(),
{
    if s.len() > 0 && !is_ws(s[0]) {
        lemma_word_len(s.drop_first());
    }
}

/// The whitespace-separated words of `s` (`str::split_whitespace`).
pub open spec fn words(s: Seq<char>) -> Seq<Seq<char>>
    decreases s.len(),
{
    if s.len() == 0 {
        seq![]
    } else if is_ws(s[0]) {
        words(s.drop_first())
    } else {
        let n = word_len(s);
        proof {
            lemma_word_len(s);
        }
        seq![s.subrange(0, n as int)] + words(s.subrange(n as int, s.len() as int))
    }
}

/// Lower-case mapping of a whole string, as `str::to_lowercase` computes it.
pub uninterp spec fn lowercase(s: Seq<char>) -> Seq<char>;

/// Calls `str::to_lowercase`; the result is the string's lower-case mapping.
#[verifier::external_body]
pub(crate) fn to_lowercase(s: &str) -> (r: String)
    ensures
        r@ == lowercase(s@),
{
    s.to_lowercase()
}

/// Calls `String::push`: the character is appended at the end.
#[verifier::external_body]
pub(crate) fn push_char(s: &mut String, c: char)
    ensures
        final(s)@ == old(s)@.push(c),
{
    s.push(c)
}

/// The characters of a string slice, in order.
pub fn chars_of(s: &str) -> (v: Vec<char>)
    ensures
        v@ == s@,
{
    let n = s.unicode_len();
    let mut v: Vec<char> = Vec::new();
    let mut i: usize = 0;
    while i < n
        invariant
            n == s@.len(),
            i <= n,
            v@ == s@.subrange(0, i as int),
        decreases n - i,
    {
        let c = s.get_char(i);
        v.push(c);
        i = i + 1;
        assert(v@ =~= s@.subrange(0, i as int));
    }
    assert(v@ =~= s@);
    v
}

/// A new string holding `v[lo..hi]`.
pub fn string_of(v: &[char], lo: usize, hi: usize) -> (s: String)
    requires
        lo <= hi <= v@.len(),
    ensures
        s@ == v@.subrange(lo as int, hi as int),
{
    let mut s = String::new();
    let mut i: usize = lo;
    while i < hi
        invariant
            lo <= i <= hi,
            hi <= v@.len(),
            s@ == v@.subrange(lo as int, i as int),
        decreases hi - i,
    {
        push_char(&mut s, v[i]);
        i = i + 1;
        assert(s@ =~= v@.subrange(lo as int, i as int));
    }
    s
}

/// A new string holding all of `v`.
pub fn string_of_all(v: &[char]) -> (s: String)
    ensures
        s@ == v@,
{
    let s = string_of(v, 0, v.len());
    assert(v@.subrange(0, v@.len() as int) =~= v@);
    s
}

/// A copy of a string slice.
pub fn owned(s: &str) -> (r: String)
    ensures
        r@ == s@,
{
    s.to_owned()
}

/// Character-wise equality of two string slices.
pub fn str_eq(a: &str, b: &str) -> (r: bool)
    ensures
        r == (a@ == b@),
{
    let x = chars_of(a);
    let y = chars_of(b);
    seq_eq(&x, &y)
}

/// Equality of two character slices.
pub fn seq_eq(x: &[char], y: &[char]) -> (r: bool)
    ensures
        r == (x@ == y@),
{
    if x.len() != y.len() {
        return false;
    }
    let mut i: usize = 0;
    while i < x.len()
        invariant
            x@.len() == y@.len(),
            i <= x@.len(),
            forall|j: int| 0 <= j < i ==> x@[j] == y@[j],
        decreases x.len() - i,
    {
        if x[i] != y[i] {
            return false;
        }
        i = i + 1;
    }
    assert(x@ =~= y@);
    true
}

/// Whether `p` occurs in `s` at position `i`.
pub fn matches_at(s: &[char], p: &[char], i: usize) -> (r: bool)
    ensures
        r == match_at(s@, p@, i as int),
{
    if i > s.len() || p.len() > s.len() - i {
        return false;
    }
    let slen = s.len();
    let mut k: usize = 0;
    while k < p.len()
        invariant
            slen == s@.len(),
            i + p@.len() <= s@.len(),
            k <= p@.len(),
            forall|j: int| 0 <= j < k ==> s@[i + j] == p@[j],
        decreases p.len() - k,
    {
        assert(i + k < s@.len());
        if s[i + k] != p[k] {
            assert(s@.subrange(i as int, i + p@.len())[k as int] != p@[k as int]);
            return false;
        }
        k = k + 1;
    }
    assert(s@.subrange(i as int, i + p@.len()) =~= p@);
    true
}

/// First position at or after `from` where `p` occurs in `s`.
pub fn find_from_exec(s: &[char], p: &[char], from: usize) -> (r: Option<usize>)
    ensures
        r is None <==> find_from(s@, p@, from as int) is None,
        r matches Some(k) ==> find_from(s@, p@, from as int) == Some(k as int),
{
    let slen = s.len();
    if p.len() > s.len() {
        return None;
    }
    let last = s.len() - p.len();
    if from > last {
        return None;
    }
    let mut i: usize = from;
    loop
        invariant
            slen == s@.len(),
            last + p@.len() == s@.len(),
            from <= i <= last,
            find_from(s@, p@, from as int) == find_from(s@, p@, i as int),
        decreases last - i,
    {
        if matches_at(s, p, i) {
            return Some(i);
        }
        if i >= last {
            assert(find_from(s@, p@, i + 1) is None);
            return None;
        }
        i = i + 1;
    }
}

/// First position of `p` in `s`.
pub fn find_exec(s: &[char], p: &[char]) -> (r: Option<usize>)
    ensures
        r is None <==> find(s@, p@) is None,
        r matches Some(k) ==> find(s@, p@) == Some(k as int),
{
    find_from_exec(s, p, 0)
}

/// Last position of `p` in `s`.
pub fn rfind_exec(s: &[char], p: &[char]) -> (r: Option<usize>)
    ensures
        r is None <==> rfind(s@, p@) is None,
        r matches Some(k) ==> rfind(s@, p@) == Some(k as int),
{
    if p.len() > s.len() {
        return None;
    }
    let slen = s.len();
    let mut i: usize = s.len() - p.len();
    loop
        invariant
            slen == s@.len(),
            i + p@.len() <= s@.len(),
            rfind(s@, p@) == rfind_from(s@, p@, i as int),
        decreases i,
    {
        if matches_at(s, p, i) {
            return Some(i);
        }
        if i == 0 {
            assert(rfind_from(s@, p@, -1) is None);
            return None;
        }
        i = i - 1;
    }
}

/// Whether `s` begins with `p`.
pub fn starts_with_exec(s: &[char], p: &[char]) -> (r: bool)
    ensures
        r == starts_with(s@, p@),
{
    matches_at(s, p, 0)
}

/// Whether `s` ends with `p`.
pub fn ends_with_exec(s: &[char], p: &[char]) -> (r: bool)
    ensures
        r == ends_with(s@, p@),
{
    if p.len() > s.len() {
        false
    } else {
        matches_at(s, p, s.len() - p.len())
    }
}

/// Bounds `(lo, hi)` of `s` without surrounding whitespace.
pub fn trim_bounds(s: &[char], lo: usize, hi: usize) -> (r: (usize, usize))
    requires
        lo <= hi <= s@.len(),
    ensures
        lo <= r.0 <= r.1 <= hi,
        s@.subrange(r.0 as int, r.1 as int) == trim(s@.subrange(lo as int, hi as int)),
{
    let mut a: usize = lo;
    while a < hi && is_whitespace(s[a])
        invariant
            lo <= a <= hi <= s@.len(),
            trim_start(s@.subrange(lo as int, hi as int)) == trim_start(
                s@.subrange(a as int, hi as int),
            ),
        decreases hi - a,
    {
        assert(s@.subrange(a as int, hi as int).drop_first() =~= s@.subrange(
            a + 1,
            hi as int,
        ));
        a = a + 1;
    }
    assert(trim_start(s@.subrange(a as int, hi as int)) == s@.subrange(a as int, hi as int));
    let mut b: usize = hi;
    while b > a && is_whitespace(s[b - 1])
        invariant
            lo <= a <= b <= hi <= s@.len(),
            trim_end(s@.subrange(a as int, hi as int)) == trim_end(
                s@.subrange(a as int, b as int),
            ),
        decreases b - a,
    {
        assert(s@.subrange(a as int, b as int).drop_last() =~= s@.subrange(
            a as int,
            b - 1,
        ));
        b = b - 1;
    }
    (a, b)
}

/// `str::trim` as a new string.
pub fn trim_str(s: &str) -> (r: String)
    ensures
        r@ == trim(s@),
{
    let v = chars_of(s);
    let (a, b) = trim_bounds(&v, 0, v.len());
    assert(v@.subrange(0, v@.len() as int) =~= v@);
    string_of(&v, a, b)
}

/// The substrings of `s` that a list of ranges picks out.
pub open spec fn pieces(s: Seq<char>, r: Seq<(usize, usize)>) -> Seq<Seq<char>> {
    r.map_values(|x: (usize, usize)| s.subrange(x.0 as int, x.1 as int))
}

/// Every range lies within `s` and is ordered.
pub open spec fn valid_ranges(s: Seq<char>, r: Seq<(usize, usize)>) -> bool {
    forall|i: int| 0 <= i < r.len() ==> (#[trigger] r[i]).0 <= r[i].1 <= s.len()
}

/// Searching a suffix is searching the whole text from an offset.
pub proof fn lemma_find_from_suffix(s: Seq<char>, p: Seq<char>, a: int, i: int)
    requires
        0 <= a <= s.len(),
        0 <= i,
    ensures
        find_from(s.subrange(a, s.len() as int), p, i) == (match find_from(s, p, a + i) {
            Some(j) => Some(j - a),
            None => None::<int>,
        }),
    decreases s.len() + 1 - (a + i),
{
    let t = s.subrange(a, s.len() as int);
    if i + p.len() > t.len() {
    } else {
        assert(t.subrange(i, i + p.len()) =~= s.subrange(a + i, a + i + p.len()));
        if !match_at(t, p, i) {
            lemma_find_from_suffix(s, p, a, i + 1);
        }
    }
}

/// Ranges of the pieces of `s[lo..]` cut at `c`.
pub fn split_ranges(s: &[char], c: char) -> (r: Vec<(usize, usize)>)
    ensures
        pieces(s@, r@) == split_char(s@, c),
        valid_ranges(s@, r@),
{
    let sep: Vec<char> = vec![c];
    assert(sep@ =~= seq![c]);
    let mut r: Vec<(usize, usize)> = Vec::new();
    let mut pos: usize = 0;
    let slen = s.len();
    assert(s@.subrange(0, s@.len() as int) =~= s@);
    loop
        invariant
            slen == s@.len(),
            sep@ == seq![c],
            pos <= s@.len(),
            valid_ranges(s@, r@),
            pieces(s@, r@) + split_char(s@.subrange(pos as int, s@.len() as int), c) == split_char(s@, c),
        decreases s@.len() - pos,
    {
        let ghost t = s@.subrange(pos as int, s@.len() as int);
        proof {
            lemma_find_from_suffix(s@, seq![c], pos as int, 0);
            lemma_find_from(s@, seq![c], pos as int);
        }
        match find_from_exec(s, &sep, pos) {
            None => {
                let ghost old_r = r@;
                r.push((pos, s.len()));
                assert(pieces(s@, r@) =~= pieces(s@, old_r).push(t));
                assert(split_char(t, c) == seq![t]);
                assert(pieces(s@, r@) =~= split_char(s@, c));
                return r;
            },
            Some(j) => {
                assert(find_from(s@, seq![c], pos as int) == Some(j as int));
                assert(pos <= j && j < s@.len());
                let ghost old_r = r@;
                r.push((pos, j));
                let ghost rest = s@.subrange(j + 1, s@.len() as int);
                assert(t.subrange((j - pos) as int + 1, t.len() as int) =~= rest);
                assert(t.subrange(0, j - pos) =~= s@.subrange(pos as int, j as int));
                assert(split_char(t, c) == seq![s@.subrange(pos as int, j as int)] + split_char(rest, c));
                assert(pieces(s@, r@) =~= pieces(s@, old_r).push(s@.subrange(pos as int, j as int)));
                assert(pieces(s@, r@) + split_char(rest, c) =~= pieces(s@, old_r) + split_char(t, c));
                pos = j + 1;
            },
        }
    }
}

/// End of a line range without its trailing carriage return.
fn strip_cr_end(s: &[char], lo: usize, hi: usize) -> (e: usize)
    requires
        lo <= hi <= s@.len(),
    ensures
        lo <= e <= hi,
        s@.subrange(lo as int, e as int) == strip_cr(s@.subrange(lo as int, hi as int)),
{
    if hi > lo && s[hi - 1] == '\r' {
        assert(s@.subrange(lo as int, hi as int).drop_last() =~= s@.subrange(lo as int, hi - 1));
        hi - 1
    } else {
        hi
    }
}

/// Ranges of the lines of `s`.
pub fn line_ranges(s: &[char]) -> (r: Vec<(usize, usize)>)
    ensures
        pieces(s@, r@) == lines(s@),
        valid_ranges(s@, r@),
{
    let sep: Vec<char> = vec!['\n'];
    assert(sep@ =~= seq!['\n']);
    let mut r: Vec<(usize, usize)> = Vec::new();
    let mut pos: usize = 0;
    let slen = s.len();
    assert(s@.subrange(0, s@.len() as int) =~= s@);
    while pos < slen
        invariant
            slen == s@.len(),
            sep@ == seq!['\n'],
            pos <= s@.len(),
            valid_ranges(s@, r@),
            pieces(s@, r@) + lines(s@.subrange(pos as int, s@.len() as int)) == lines(s@),
        decreases s@.len() - pos,
    {
        let ghost t = s@.subrange(pos as int, s@.len() as int);
        proof {
            lemma_find_from_suffix(s@, seq!['\n'], pos as int, 0);
            lemma_find_from(s@, seq!['\n'], pos as int);
        }
        match find_from_exec(s, &sep, pos) {
            None => {
                let e = strip_cr_end(s, pos, slen);
                let ghost old_r = r@;
                r.push((pos, e));
                assert(pieces(s@, r@) =~= pieces(s@, old_r).push(strip_cr(t)));
                assert(lines(t) == seq![strip_cr(t)]);
                assert(pieces(s@, r@) =~= lines(s@));
                return r;
            },
            Some(j) => {
                assert(find_from(s@, seq!['\n'], pos as int) == Some(j as int));
                let e = strip_cr_end(s, pos, j);
                let ghost old_r = r@;
                r.push((pos, e));
                let ghost rest = s@.subrange(j + 1, s@.len() as int);
                assert(t.subrange((j - pos) as int + 1, t.len() as int) =~= rest);
                assert(t.subrange(0, j - pos) =~= s@.subrange(pos as int, j as int));
                let ghost piece = strip_cr(s@.subrange(pos as int, j as int));
                assert(lines(t) == seq![piece] + lines(rest));
                assert(pieces(s@, r@) =~= pieces(s@, old_r).push(piece));
                assert(pieces(s@, r@) + lines(rest) =~= pieces(s@, old_r) + lines(t));
                pos = j + 1;
            },
        }
    }
    assert(s@.subrange(pos as int, s@.len() as int).len() == 0);
    assert(pieces(s@, r@) + lines(s@.subrange(pos as int, s@.len() as int)) =~= pieces(s@, r@));
    r
}

/// A run of non-whitespace characters ending at whitespace or at the end has the run's length.
pub proof fn lemma_word_len_range(s: Seq<char>, a: int, e: int, hi: int)
    requires
        0 <= a <= e <= hi <= s.len(),
        forall|k: int| a <= k < e ==> !is_ws(s[k]),
        e == hi || is_ws(s[e]),
    ensures
        word_len(s.subrange(a, hi)) == e - a,
    decreases e - a,
{
    let t = s.subrange(a, hi);
    if a < e {
        assert(t.drop_first() =~= s.subrange(a + 1, hi));
        lemma_word_len_range(s, a + 1, e, hi);
    }
}

/// Ranges of the whitespace-separated words of `s[lo..hi]`.
pub fn word_ranges(s: &[char], lo: usize, hi: usize) -> (r: Vec<(usize, usize)>)
    requires
        lo <= hi <= s@.len(),
    ensures
        pieces(s@, r@) == words(s@.subrange(lo as int, hi as int)),
        valid_ranges(s@, r@),
{
    let mut r: Vec<(usize, usize)> = Vec::new();
    let mut pos: usize = lo;
    while pos < hi
        invariant
            lo <= pos <= hi <= s@.len(),
            valid_ranges(s@, r@),
            pieces(s@, r@) + words(s@.subrange(pos as int, hi as int)) == words(
                s@.subrange(lo as int, hi as int),
            ),
        decreases hi - pos,
    {
        let ghost t = s@.subrange(pos as int, hi as int);
        if is_whitespace(s[pos]) {
            assert(t.drop_first() =~= s@.subrange(pos + 1, hi as int));
            pos = pos + 1;
        } else {
            let mut e: usize = pos;
            while e < hi && !is_whitespace(s[e])
                invariant
                    pos <= e <= hi <= s@.len(),
                    forall|k: int| pos <= k < e ==> !is_ws(s@[k]),
                decreases hi - e,
            {
                e = e + 1;
            }
            proof {
                lemma_word_len_range(s@, pos as int, e as int, hi as int);
            }
            assert(t.subrange(0, (e - pos) as int) =~= s@.subrange(pos as int, e as int));
            assert(t.subrange((e - pos) as int, t.len() as int) =~= s@.subrange(e as int, hi as int));
            let ghost old_r = r@;
            r.push((pos, e));
            assert(pieces(s@, r@) =~= pieces(s@, old_r).push(s@.subrange(pos as int, e as int)));
            assert(pieces(s@, r@) + words(s@.subrange(e as int, hi as int)) =~= pieces(s@, old_r) + words(t));
            pos = e;
        }
    }
    assert(pieces(s@, r@) + words(s@.subrange(pos as int, hi as int)) =~= pieces(s@, r@));
    r
}

/// Whether `w` is one of the whitespace-separated words of `s`.
pub fn has_word(s: &[char], w: &[char]) -> (b: bool)
    ensures
        b == words(s@).contains(w@),
{
    let r = word_ranges(s, 0, s.len());
    assert(s@.subrange(0, s@.len() as int) =~= s@);
    let mut i: usize = 0;
    while i < r.len()
        invariant
            i <= r@.len(),
            valid_ranges(s@, r@),
            pieces(s@, r@) == words(s@),
            forall|j: int| 0 <= j < i ==> pieces(s@, r@)[j] != w@,
        decreases r.len() - i,
    {
        let (a, b) = r[i];
        let piece = string_of(s, a, b);
        let pc = chars_of(piece.as_str());
        if seq_eq(&pc, w) {
            assert(pieces(s@, r@)[i as int] == w@);
            return true;
        }
        i = i + 1;
    }
    false
}

/// A new vector holding `v[lo..hi]`.
pub fn sub_chars(v: &[char], lo: usize, hi: usize) -> (r: Vec<char>)
    requires
        lo <= hi <= v@.len(),
    ensures
        r@ == v@.subrange(lo as int, hi as int),
{
    let mut r: Vec<char> = Vec::new();
    let mut i: usize = lo;
    while i < hi
        invariant
            lo <= i <= hi <= v@.len(),
            r@ == v@.subrange(lo as int, i as int),
        decreases hi - i,
    {
        r.push(v[i]);
        i = i + 1;
        assert(r@ =~= v@.subrange(lo as int, i as int));
    }
    r
}

/// `v` without surrounding whitespace, as a new vector.
pub fn trimmed(v: &[char]) -> (r: Vec<char>)
    ensures
        r@ == trim(v@),
{
    let (a, b) = trim_bounds(v, 0, v.len());
    assert(v@.subrange(0, v@.len() as int) =~= v@);
    sub_chars(v, a, b)
}


/// A string without surrounding whitespace is its own trim.
pub proof fn lemma_trim_plain(s: Seq<char>)
    requires
        s.len() == 0 || (!is_ws(s[0]) && !is_ws(s.last())),
    ensures
        trim(s) == s,
{
}

/// Whether every character is an ASCII digit.
pub open spec fn all_digits(s: Seq<char>) -> bool {
    forall|i: int| 0 <= i < s.len() ==> '0' <= #[trigger] s[i] && s[i] <= '9'
}

/// Decimal value of a string of digits.
pub open spec fn digits_value(s: Seq<char>) -> int
    decreases s.len(),
{
    if s.len() == 0 {
        0
    } else {
        digits_value(s.drop_last()) * 10 + (s.last() as int - '0' as int)
    }
}

/// The unsigned number that `str::parse` reads: an optional `+` and at least
/// one digit, nothing else.
pub open spec fn parse_uint(s: Seq<char>) -> Option<int> {
    let d = if s.len() > 0 && s[0] == '+' { s.drop_first() } else { s };
    if d.len() > 0 && all_digits(d) {
        Some(digits_value(d))
    } else {
        None
    }
}

/// The signed number that `str::parse` reads: an optional sign and at least
/// one digit, nothing else.
pub open spec fn parse_int(s: Seq<char>) -> Option<int> {
    if s.len() > 0 && s[0] == '-' {
        let d = s.drop_first();
        if d.len() > 0 && all_digits(d) {
            Some(-digits_value(d))
        } else {
            None
        }
    } else {
        parse_uint(s)
    }
}

/// `parse_uint` as a `usize`, when it fits.
pub open spec fn parse_usize_spec(s: Seq<char>) -> Option<usize> {
    match parse_uint(s) {
        Some(v) => if v <= usize::MAX { Some(v as usize) } else { None },
        None => None,
    }
}

/// `parse_int` as an `i32`, when it fits.
pub open spec fn parse_i32_spec(s: Seq<char>) -> Option<i32> {
    match parse_int(s) {
        Some(v) => if i32::MIN <= v <= i32::MAX { Some(v as i32) } else { None },
        None => None,
    }
}

/// Digit values never go down as digits are added.
pub proof fn lemma_digits_value_grows(s: Seq<char>, i: int)
    requires
        0 <= i <= s.len(),
        all_digits(s),
    ensures
        0 <= digits_value(s.take(i)) <= digits_value(s),
    decreases s.len() - i,
{
    if i < s.len() {
        lemma_digits_value_grows(s, i + 1);
        assert(s.take(i + 1).drop_last() =~= s.take(i));
        assert(s.take(i + 1).last() == s[i]);
    } else {
        assert(s.take(i) =~= s);
    }
    lemma_digits_value_nonneg(s);
}

/// Digit values are not negative.
pub proof fn lemma_digits_value_nonneg(s: Seq<char>)
    requires
        all_digits(s),
    ensures
        digits_value(s) >= 0,
    decreases s.len(),
{
    if s.len() > 0 {
        assert(all_digits(s.drop_last())) by {
            assert forall|i: int| 0 <= i < s.drop_last().len() implies '0' <= #[trigger] s.drop_last()[i] && s.drop_last()[i] <= '9' by {
                assert(s.drop_last()[i] == s[i]);
            }
        }
        lemma_digits_value_nonneg(s.drop_last());
        assert('0' <= s[s.len() - 1]);
    }
}

/// Reads the digits of `v[lo..]` as a number no larger than `max`.
fn read_digits(v: &Vec<char>, lo: usize, max: u64) -> (r: Option<u64>)
    requires
        lo <= v@.len(),
    ensures
        match r {
            Some(x) => {
                let d = v@.skip(lo as int);
                d.len() > 0 && all_digits(d) && x == digits_value(d) && x <= max
            },
            None => {
                let d = v@.skip(lo as int);
                !(d.len() > 0 && all_digits(d) && digits_value(d) <= max)
            },
        },
{
    let ghost d = v@.skip(lo as int);
    if lo >= v.len() {
        return None;
    }
    let mut acc: u64 = 0;
    let mut i: usize = lo;
    while i < v.len()
        invariant
            lo <= i <= v@.len(),
            d == v@.skip(lo as int),
            all_digits(d.take(i - lo)),
            acc == digits_value(d.take(i - lo)),
            acc <= max,
        decreases v@.len() - i,
    {
        let c = v[i];
        if !('0' <= c && c <= '9') {
            proof {
                assert(d[i - lo] == c);
            }
            return None;
        }
        let digit = (c as u32 - '0' as u32) as u64;
        proof {
            assert(d.take(i - lo + 1).drop_last() =~= d.take(i - lo));
            assert(d.take(i - lo + 1).last() == c);
            assert(all_digits(d.take(i - lo + 1))) by {
                assert forall|j: int| 0 <= j < d.take(i - lo + 1).len() implies '0' <= #[trigger] d.take(i - lo + 1)[j] && d.take(i - lo + 1)[j] <= '9' by {
                    if j < i - lo {
                        assert(d.take(i - lo + 1)[j] == d.take(i - lo)[j]);
                    }
                }
            }
        }
        if digit > max || acc > (max - digit) / 10 {
            proof {
                let ghost next = d.take(i - lo + 1);
                assert(digits_value(next) == acc * 10 + digit);
                assert(acc * 10 + digit > max) by (nonlinear_arith)
                    requires
                        digit > max || acc > (max - digit) / 10,
                        digit <= 9,
                ;
                // the rest only adds digits, or is not all digits
                if all_digits(d) {
                    lemma_digits_value_grows(d, i - lo + 1);
                }
            }
            return None;
        }
        acc = acc * 10 + digit;
        i = i + 1;
    }
    proof {
        assert(d.take(i - lo) =~= d);
    }
    Some(acc)
}


/// `str::parse::<usize>`: an optional `+` and decimal digits, within range.
pub fn parse_usize(s: &str) -> (r: Option<usize>)
    ensures
        r == parse_usize_spec(s@),
{
    let v = chars_of(s);
    let lo: usize = if v.len() > 0 && v[0] == '+' { 1 } else { 0 };
    let ghost d = if s@.len() > 0 && s@[0] == '+' { s@.drop_first() } else { s@ };
    assert(v@.skip(lo as int) =~= d);
    match read_digits(&v, lo, usize::MAX as u64) {
        Some(x) => Some(x as usize),
        None => None,
    }
}

/// `str::parse::<i32>`: an optional sign and decimal digits, within range.
pub fn parse_i32(s: &str) -> (r: Option<i32>)
    ensures
        r == parse_i32_spec(s@),
{
    let v = chars_of(s);
    if v.len() > 0 && v[0] == '-' {
        assert(v@.skip(1) =~= s@.drop_first());
        match read_digits(&v, 1, 2147483648) {
            Some(x) => Some((0i64 - x as i64) as i32),
            None => None,
        }
    } else {
        let lo: usize = if v.len() > 0 && v[0] == '+' { 1 } else { 0 };
        let ghost d = if s@.len() > 0 && s@[0] == '+' { s@.drop_first() } else { s@ };
        assert(v@.skip(lo as int) =~= d);
        match read_digits(&v, lo, 2147483647) {
            Some(x) => Some(x as i32),
            None => None,
        }
    }
}


/// A position found searching backwards from `i` holds a match at or before `i`.
pub proof fn lemma_rfind_from(s: Seq<char>, p: Seq<char>, i: int)
    ensures
        rfind_from(s, p, i) matches Some(j) ==> 0 <= j <= i && match_at(s, p, j),
    decreases i + 1,
{
    if i >= 0 && !match_at(s, p, i) {
        lemma_rfind_from(s, p, i - 1);
    }
}


/// A search from `i` finds a match at or before any match at `k >= i`.
pub proof fn lemma_find_first(s: Seq<char>, p: Seq<char>, i: int, k: int)
    requires
        0 <= i <= k,
        match_at(s, p, k),
    ensures
        find_from(s, p, i) matches Some(j) && i <= j <= k,
    decreases k - i,
{
    if !match_at(s, p, i) {
        lemma_find_first(s, p, i + 1, k);
    }
}


/// `s` with every occurrence of `p` (left to right, not overlapping)
/// replaced by `r` (`str::replace`, for a nonempty `p`).
pub open spec fn replace_all(s: Seq<char>, p: Seq<char>, r: Seq<char>) -> Seq<char>
    decreases s.len(),
{
    if p.len() == 0 {
        s
    } else {
        proof {
            lemma_find_from(s, p, 0);
        }
        match find(s, p) {
            None => s,
            Some(i) => s.subrange(0, i) + r + replace_all(s.subrange(i + p.len(), s.len() as int), p, r),
        }
    }
}

/// `s` with every occurrence of `p` replaced by `r`.
pub fn replace_exec(s: &[char], p: &[char], r: &[char]) -> (out: Vec<char>)
    requires
        p@.len() > 0,
    ensures
        out@ == replace_all(s@, p@, r@),
{
    let mut out: Vec<char> = Vec::new();
    let mut pos: usize = 0;
    let slen = s.len();
    assert(s@.subrange(0, s@.len() as int) =~= s@);
    loop
        invariant
            slen == s@.len(),
            p@.len() > 0,
            pos <= s@.len(),
            out@ + replace_all(s@.subrange(pos as int, s@.len() as int), p@, r@) == replace_all(s@, p@, r@),
        decreases s@.len() - pos,
    {
        let ghost t = s@.subrange(pos as int, s@.len() as int);
        proof {
            lemma_find_from_suffix(s@, p@, pos as int, 0);
            lemma_find_from(s@, p@, pos as int);
        }
        match find_from_exec(s, p, pos) {
            None => {
                let ghost before = out@;
                let mut i: usize = pos;
                while i < slen
                    invariant
                        pos <= i <= slen,
                        slen == s@.len(),
                        out@ == before + s@.subrange(pos as int, i as int),
                    decreases slen - i,
                {
                    out.push(s[i]);
                    i = i + 1;
                    assert(out@ =~= before + s@.subrange(pos as int, i as int));
                }
                assert(replace_all(t, p@, r@) == t);
                return out;
            },
            Some(j) => {
                let ghost before = out@;
                let mut i: usize = pos;
                while i < j
                    invariant
                        pos <= i <= j,
                        j + p@.len() <= slen,
                        slen == s@.len(),
                        out@ == before + s@.subrange(pos as int, i as int),
                    decreases j - i,
                {
                    out.push(s[i]);
                    i = i + 1;
                    assert(out@ =~= before + s@.subrange(pos as int, i as int));
                }
                let mut k: usize = 0;
                while k < r.len()
                    invariant
                        k <= r@.len(),
                        out@ == before + s@.subrange(pos as int, j as int) + r@.subrange(0, k as int),
                    decreases r@.len() - k,
                {
                    out.push(r[k]);
                    k = k + 1;
                    assert(out@ =~= before + s@.subrange(pos as int, j as int) + r@.subrange(0, k as int));
                }
                assert(r@.subrange(0, r@.len() as int) =~= r@);
                let ghost rest = s@.subrange(j + p@.len(), s@.len() as int);
                assert(t.subrange((j - pos) + p@.len(), t.len() as int) =~= rest);
                assert(t.subrange(0, j - pos) =~= s@.subrange(pos as int, j as int));
                assert(replace_all(t, p@, r@) == s@.subrange(pos as int, j as int) + r@ + replace_all(rest, p@, r@));
                pos = j + p.len();
                assert(out@ + replace_all(s@.subrange(pos as int, s@.len() as int), p@, r@) =~= before + replace_all(t, p@, r@));
            },
        }
    }
}


/// `parse_uint` as a `u32`, when it fits.
pub open spec fn parse_u32_spec(s: Seq<char>) -> Option<u32> {
    match parse_uint(s) {
        Some(v) => if v <= u32::MAX { Some(v as u32) } else { None },
        None => None,
    }
}

/// `str::parse::<u32>`: an optional `+` and decimal digits, within range.
pub fn parse_u32(s: &str) -> (r: Option<u32>)
    ensures
        r == parse_u32_spec(s@),
{
    let v = chars_of(s);
    let lo: usize = if v.len() > 0 && v[0] == '+' { 1 } else { 0 };
    let ghost d = if s@.len() > 0 && s@[0] == '+' { s@.drop_first() } else { s@ };
    assert(v@.skip(lo as int) =~= d);
    match read_digits(&v, lo, 4294967295) {
        Some(x) => Some(x as u32),
        None => None,
    }
}

/// The decimal digit of `d`.
pub open spec fn decimal_digit(d: int) -> char {
    seq!['0', '1', '2', '3', '4', '5', '6', '7', '8', '9'][d]
}

/// `n` in decimal, without leading zeros (`to_string`).
pub open spec fn decimal(n: nat) -> Seq<char>
    decreases n,
{
    if n < 10 {
        seq![decimal_digit(n as int)]
    } else {
        decimal(n / 10) + seq![decimal_digit((n % 10) as int)]
    }
}

/// Appends `n` in decimal.
fn push_decimal(n: u64, out: &mut Vec<char>)
    ensures
        final(out)@ == old(out)@ + decimal(n as nat),
    decreases n,
{
    let digits = ['0', '1', '2', '3', '4', '5', '6', '7', '8', '9'];
    assert(digits@ == seq!['0', '1', '2', '3', '4', '5', '6', '7', '8', '9']);
    if n >= 10 {
        push_decimal(n / 10, out);
    }
    let d = (n % 10) as usize;
    out.push(digits[d]);
    assert(out@ =~= old(out)@ + decimal(n as nat));
}

/// `n` in decimal.
pub fn to_decimal(n: u64) -> (s: String)
    ensures
        s@ == decimal(n as nat),
{
    let mut v: Vec<char> = Vec::new();
    push_decimal(n, &mut v);
    assert(v@ =~= decimal(n as nat));
    string_of_all(&v)
}

} // verus!
