//! Character-sequence helpers shared by the whole crate, each with the
//! mathematical statement of what it computes.

use vstd::prelude::*;

verus! {

/// Pushes one character onto a `String` (std's `String::push`).
#[verifier::external_body]
pub(crate) fn push_char(s: &mut String, c: char)
    ensures
        final(s)@ == old(s)@.push(c),
{
    s.push(c);
}

/// Number of characters in `s` (`s.chars().count()`); a string occupies at
/// most `isize::MAX` bytes and every character at least one of them.
#[verifier::external_body]
pub(crate) fn char_count(s: &str) -> (n: usize)
    ensures
        n == s@.len(),
        n <= isize::MAX,
{
    s.chars().count()
}

/// The characters of `s`, in order.
pub fn chars_of(s: &str) -> (v: Vec<char>)
    ensures
        v@ == s@,
        v@.len() <= isize::MAX,
{
    let n = char_count(s);
    let mut v: Vec<char> = Vec::new();
    let mut i: usize = 0;
    while i < n
        invariant
            n == s@.len(),
            i <= n,
            v@ == s@.subrange(0, i as int),
        decreases n - i,
    {
        v.push(s.get_char(i));
        i = i + 1;
    }
    assert(s@.subrange(0, n as int) =~= s@);
    v
}

/// A `String` holding exactly the characters `cs`.
pub fn string_of(cs: &[char]) -> (r: String)
    ensures
        r@ == cs@,
{
    let mut r = String::new();
    let mut i: usize = 0;
    while i < cs.len()
        invariant
            i <= cs@.len(),
            r@ == cs@.subrange(0, i as int),
        decreases cs@.len() - i,
    {
        push_char(&mut r, cs[i]);
        assert(cs@.subrange(0, i + 1) =~= cs@.subrange(0, i as int).push(cs@[i as int]));
        i = i + 1;
    }
    assert(cs@.subrange(0, cs@.len() as int) =~= cs@);
    r
}

} // verus!

verus! {

// ---------------------------------------------------------------------------
// ASCII case folding
// ---------------------------------------------------------------------------

pub open spec fn is_ascii_upper(c: char) -> bool {
    'A' <= c && c <= 'Z'
}

pub open spec fn is_ascii_lower(c: char) -> bool {
    'a' <= c && c <= 'z'
}

pub open spec fn is_ascii_digit(c: char) -> bool {
    '0' <= c && c <= '9'
}

pub open spec fn is_ascii_alnum(c: char) -> bool {
    is_ascii_upper(c) || is_ascii_lower(c) || is_ascii_digit(c)
}

/// `char::to_ascii_lowercase`.
pub open spec fn ascii_lower(c: char) -> char {
    if is_ascii_upper(c) {
        ((c as u32) + 32) as char
    } else {
        c
    }
}

/// `char::to_ascii_uppercase`.
pub open spec fn ascii_upper(c: char) -> char {
    if is_ascii_lower(c) {
        ((c as u32) - 32) as char
    } else {
        c
    }
}

pub open spec fn seq_ascii_lower(s: Seq<char>) -> Seq<char> {
    s.map_values(|c: char| ascii_lower(c))
}

pub open spec fn seq_ascii_upper(s: Seq<char>) -> Seq<char> {
    s.map_values(|c: char| ascii_upper(c))
}

pub fn char_ascii_lower(c: char) -> (r: char)
    ensures
        r == ascii_lower(c),
{
    if 'A' <= c && c <= 'Z' {
        let b: u8 = c as u8;
        assert(b as u32 == c as u32);
        ((b + 32) as u8) as char
    } else {
        c
    }
}

pub fn char_ascii_upper(c: char) -> (r: char)
    ensures
        r == ascii_upper(c),
{
    if 'a' <= c && c <= 'z' {
        let b: u8 = c as u8;
        assert(b as u32 == c as u32);
        ((b - 32) as u8) as char
    } else {
        c
    }
}

pub fn is_digit_char(c: char) -> (r: bool)
    ensures
        r == is_ascii_digit(c),
{
    '0' <= c && c <= '9'
}

/// `str::to_ascii_lowercase`.
pub fn to_ascii_lowercase(s: &str) -> (r: String)
    ensures
        r@ == seq_ascii_lower(s@),
{
    let cs = chars_of(s);
    let mut out: Vec<char> = Vec::new();
    let mut i: usize = 0;
    while i < cs.len()
        invariant
            cs@ == s@,
            i <= cs@.len(),
            out@ == seq_ascii_lower(s@).subrange(0, i as int),
        decreases cs@.len() - i,
    {
        out.push(char_ascii_lower(cs[i]));
        assert(seq_ascii_lower(s@).subrange(0, i + 1) =~= seq_ascii_lower(s@).subrange(0, i as int).push(ascii_lower(s@[i as int])));
        i = i + 1;
    }
    assert(seq_ascii_lower(s@).subrange(0, cs@.len() as int) =~= seq_ascii_lower(s@));
    string_of(&out)
}

/// `str::to_ascii_uppercase`.
pub fn to_ascii_uppercase(s: &str) -> (r: String)
    ensures
        r@ == seq_ascii_upper(s@),
{
    let cs = chars_of(s);
    let mut out: Vec<char> = Vec::new();
    let mut i: usize = 0;
    while i < cs.len()
        invariant
            cs@ == s@,
            i <= cs@.len(),
            out@ == seq_ascii_upper(s@).subrange(0, i as int),
        decreases cs@.len() - i,
    {
        out.push(char_ascii_upper(cs[i]));
        assert(seq_ascii_upper(s@).subrange(0, i + 1) =~= seq_ascii_upper(s@).subrange(0, i as int).push(ascii_upper(s@[i as int])));
        i = i + 1;
    }
    assert(seq_ascii_upper(s@).subrange(0, cs@.len() as int) =~= seq_ascii_upper(s@));
    string_of(&out)
}

/// `str::eq_ignore_ascii_case`: same length and equal after ASCII folding.
pub fn eq_ignore_ascii_case(a: &str, b: &str) -> (r: bool)
    ensures
        r == (seq_ascii_lower(a@) == seq_ascii_lower(b@)),
{
    let x = chars_of(a);
    let y = chars_of(b);
    if x.len() != y.len() {
        assert(seq_ascii_lower(a@).len() != seq_ascii_lower(b@).len());
        return false;
    }
    let mut i: usize = 0;
    while i < x.len()
        invariant
            x@ == a@,
            y@ == b@,
            x@.len() == y@.len(),
            i <= x@.len(),
            forall|k: int| 0 <= k < i ==> ascii_lower(#[trigger] a@[k]) == ascii_lower(b@[k]),
        decreases x@.len() - i,
    {
        if char_ascii_lower(x[i]) != char_ascii_lower(y[i]) {
            assert(seq_ascii_lower(a@)[i as int] != seq_ascii_lower(b@)[i as int]);
            return false;
        }
        i = i + 1;
    }
    assert(seq_ascii_lower(a@) =~= seq_ascii_lower(b@));
    true
}

/// Equality of two character strings.
pub fn str_eq(a: &str, b: &str) -> (r: bool)
    ensures
        r == (a@ == b@),
{
    let x = chars_of(a);
    let y = chars_of(b);
    if x.len() != y.len() {
        return false;
    }
    let mut i: usize = 0;
    while i < x.len()
        invariant
            x@ == a@,
            y@ == b@,
            x@.len() == y@.len(),
            i <= x@.len(),
            forall|k: int| 0 <= k < i ==> a@[k] == b@[k],
        decreases x@.len() - i,
    {
        if x[i] != y[i] {
            return false;
        }
        i = i + 1;
    }
    assert(a@ =~= b@);
    true
}

// ---------------------------------------------------------------------------
// Whitespace and trimming
// ---------------------------------------------------------------------------

/// `char::is_whitespace`: the Unicode `White_Space` property.
pub open spec fn is_ws(c: char) -> bool {
    let u = c as u32;
    (0x09 <= u && u <= 0x0D) || u == 0x20 || u == 0x85 || u == 0xA0 || u == 0x1680
        || (0x2000 <= u && u <= 0x200A) || u == 0x2028 || u == 0x2029 || u == 0x202F
        || u == 0x205F || u == 0x3000
}

pub fn is_whitespace(c: char) -> (r: bool)
    ensures
        r == is_ws(c),
{
    let u = c as u32;
    (0x09 <= u && u <= 0x0D) || u == 0x20 || u == 0x85 || u == 0xA0 || u == 0x1680
        || (0x2000 <= u && u <= 0x200A) || u == 0x2028 || u == 0x2029 || u == 0x202F
        || u == 0x205F || u == 0x3000
}

/// `str::trim_start`.
pub open spec fn trim_start(s: Seq<char>) -> Seq<char>
    decreases s.len(),
{
    if s.len() > 0 && is_ws(s[0]) {
        trim_start(s.drop_first())
    } else {
        s
    }
}

/// `str::trim_end`.
pub open spec fn trim_end(s: Seq<char>) -> Seq<char>
    decreases s.len(),
{
    if s.len() > 0 && is_ws(s.last()) {
        trim_end(s.drop_last())
    } else {
        s
    }
}

/// `str::trim`.
pub open spec fn trim(s: Seq<char>) -> Seq<char> {
    trim_end(trim_start(s))
}

proof fn lemma_trim_start_skip(s: Seq<char>, i: int)
    requires
        0 <= i < s.len(),
        is_ws(s[i]),
    ensures
        trim_start(s.subrange(i, s.len() as int)) == trim_start(s.subrange(i + 1, s.len() as int)),
{
    assert(s.subrange(i, s.len() as int).drop_first() =~= s.subrange(i + 1, s.len() as int));
}

proof fn lemma_trim_end_skip(s: Seq<char>, j: int)
    requires
        0 < j <= s.len(),
        is_ws(s[j - 1]),
    ensures
        trim_end(s.subrange(0, j)) == trim_end(s.subrange(0, j - 1)),
{
    assert(s.subrange(0, j).drop_last() =~= s.subrange(0, j - 1));
}

/// Index range `[lo, hi)` that `trim` keeps of `cs`.
pub fn trim_bounds(cs: &[char]) -> (r: (usize, usize))
    ensures
        r.0 <= r.1 <= cs@.len(),
        trim(cs@) == cs@.subrange(r.0 as int, r.1 as int),
{
    let n = cs.len();
    let mut lo: usize = 0;
    assert(cs@.subrange(0, n as int) =~= cs@);
    while lo < n && is_whitespace(cs[lo])
        invariant
            n == cs@.len(),
            lo <= n,
            trim_start(cs@) == trim_start(cs@.subrange(lo as int, n as int)),
        decreases n - lo,
    {
        proof { lemma_trim_start_skip(cs@, lo as int); }
        lo = lo + 1;
    }
    let ghost mid = cs@.subrange(lo as int, n as int);
    assert(trim_start(mid) == mid);
    let mut hi: usize = n;
    assert(mid.subrange(0, (n - lo) as int) =~= mid);
    while hi > lo && is_whitespace(cs[hi - 1])
        invariant
            n == cs@.len(),
            lo <= hi <= n,
            mid == cs@.subrange(lo as int, n as int),
            trim_end(mid) == trim_end(mid.subrange(0, (hi - lo) as int)),
        decreases hi,
    {
        proof { lemma_trim_end_skip(mid, (hi - lo) as int); }
        hi = hi - 1;
    }
    assert(mid.subrange(0, (hi - lo) as int) =~= cs@.subrange(lo as int, hi as int));
    (lo, hi)
}

/// `str::trim`.
pub fn trim_str(s: &str) -> (r: String)
    ensures
        r@ == trim(s@),
{
    let cs = chars_of(s);
    let (lo, hi) = trim_bounds(&cs);
    string_of(slice_range(&cs, lo, hi))
}

/// The sub-slice `cs[lo..hi]`.
pub fn slice_range(cs: &[char], lo: usize, hi: usize) -> (r: &[char])
    requires
        lo <= hi <= cs@.len(),
    ensures
        r@ == cs@.subrange(lo as int, hi as int),
{
    vstd::slice::slice_subrange(cs, lo, hi)
}

} // verus!

verus! {

// ---------------------------------------------------------------------------
// Searching
// ---------------------------------------------------------------------------

/// `needle` occurs in `hay` starting at character index `i`.
pub open spec fn occurs_at(hay: Seq<char>, needle: Seq<char>, i: int) -> bool {
    0 <= i && i + needle.len() <= hay.len() && hay.subrange(i, i + needle.len()) == needle
}

/// `str::contains` with a string pattern.
pub open spec fn seq_contains(hay: Seq<char>, needle: Seq<char>) -> bool {
    exists|i: int| occurs_at(hay, needle, i)
}

/// `str::starts_with`.
pub open spec fn seq_starts_with(s: Seq<char>, p: Seq<char>) -> bool {
    occurs_at(s, p, 0)
}

/// `str::ends_with`.
pub open spec fn seq_ends_with(s: Seq<char>, p: Seq<char>) -> bool {
    occurs_at(s, p, s.len() - p.len())
}

/// `i` is the first character index at which `needle` occurs.
pub open spec fn first_occurrence(hay: Seq<char>, needle: Seq<char>, i: int) -> bool {
    occurs_at(hay, needle, i) && forall|k: int| 0 <= k < i ==> !occurs_at(hay, needle, k)
}

/// `i` is the last character index at which `needle` occurs.
pub open spec fn last_occurrence(hay: Seq<char>, needle: Seq<char>, i: int) -> bool {
    occurs_at(hay, needle, i) && forall|k: int| i < k ==> !occurs_at(hay, needle, k)
}

/// Does `needle` occur at `i` in `hay`?
pub fn matches_at(hay: &[char], needle: &[char], i: usize) -> (r: bool)
    ensures
        r == occurs_at(hay@, needle@, i as int),
{
    let hl = hay.len();
    if i > hl || needle.len() > hl - i {
        return false;
    }
    let mut k: usize = 0;
    while k < needle.len()
        invariant
            i + needle@.len() <= hay@.len(),
            hl == hay@.len(),
            k <= needle@.len(),
            forall|m: int| 0 <= m < k ==> hay@[i + m] == needle@[m],
        decreases needle@.len() - k,
    {
        if hay[i + k] != needle[k] {
            assert(hay@.subrange(i as int, i + needle@.len())[k as int] != needle@[k as int]);
            return false;
        }
        k = k + 1;
    }
    assert(hay@.subrange(i as int, i + needle@.len()) =~= needle@);
    true
}

/// First character index of `needle` in `hay`.
pub fn find_seq(hay: &[char], needle: &[char]) -> (r: Option<usize>)
    ensures
        r matches Some(i) ==> first_occurrence(hay@, needle@, i as int),
        r is None ==> !seq_contains(hay@, needle@),
{
    if needle.len() > hay.len() {
        return None;
    }
    let last = hay.len() - needle.len();
    let mut i: usize = 0;
    loop
        invariant
            i <= last,
            last + needle@.len() == hay@.len(),
            forall|k: int| 0 <= k < i ==> !occurs_at(hay@, needle@, k),
        ensures
            forall|k: int| 0 <= k <= last ==> !occurs_at(hay@, needle@, k),
        decreases last - i,
    {
        if matches_at(hay, needle, i) {
            return Some(i);
        }
        if i == last {
            break;
        }
        i = i + 1;
    }
    None
}

/// Last character index of `needle` in `hay`.
pub fn rfind_seq(hay: &[char], needle: &[char]) -> (r: Option<usize>)
    ensures
        r matches Some(i) ==> last_occurrence(hay@, needle@, i as int),
        r is None ==> !seq_contains(hay@, needle@),
{
    if needle.len() > hay.len() {
        return None;
    }
    let mut i: usize = hay.len() - needle.len();
    loop
        invariant
            i + needle@.len() <= hay@.len(),
            forall|k: int| i < k ==> !occurs_at(hay@, needle@, k),
        ensures
            forall|k: int| 0 <= k ==> !occurs_at(hay@, needle@, k),
        decreases i,
    {
        if matches_at(hay, needle, i) {
            return Some(i);
        }
        if i == 0 {
            break;
        }
        i = i - 1;
    }
    None
}

/// `str::contains` with a string pattern.
pub fn contains_str(hay: &str, needle: &str) -> (r: bool)
    ensures
        r == seq_contains(hay@, needle@),
{
    let h = chars_of(hay);
    let n = chars_of(needle);
    find_seq(&h, &n).is_some()
}

/// `str::starts_with`.
pub fn starts_with_str(s: &str, p: &str) -> (r: bool)
    ensures
        r == seq_starts_with(s@, p@),
{
    let a = chars_of(s);
    let b = chars_of(p);
    matches_at(&a, &b, 0)
}

/// `str::ends_with`.
pub fn ends_with_str(s: &str, p: &str) -> (r: bool)
    ensures
        r == seq_ends_with(s@, p@),
{
    let a = chars_of(s);
    let b = chars_of(p);
    if b.len() > a.len() {
        return false;
    }
    matches_at(&a, &b, a.len() - b.len())
}

/// `str::strip_prefix`.
pub fn strip_prefix_str(s: &str, p: &str) -> (r: Option<String>)
    ensures
        r is Some <==> seq_starts_with(s@, p@),
        r matches Some(t) ==> t@ == s@.subrange(p@.len() as int, s@.len() as int),
{
    let a = chars_of(s);
    let b = chars_of(p);
    if matches_at(&a, &b, 0) {
        Some(string_of(slice_range(&a, b.len(), a.len())))
    } else {
        None
    }
}

/// `str::strip_suffix`.
pub fn strip_suffix_str(s: &str, p: &str) -> (r: Option<String>)
    ensures
        r is Some <==> seq_ends_with(s@, p@),
        r matches Some(t) ==> t@ == s@.subrange(0, s@.len() - p@.len()),
{
    let a = chars_of(s);
    let b = chars_of(p);
    if b.len() > a.len() {
        return None;
    }
    if matches_at(&a, &b, a.len() - b.len()) {
        Some(string_of(slice_range(&a, 0, a.len() - b.len())))
    } else {
        None
    }
}

/// `str::split_once` with a string pattern: the text before and after the
/// first occurrence of `pat`.
pub open spec fn split_once_spec(s: Seq<char>, pat: Seq<char>, i: int) -> (Seq<char>, Seq<char>) {
    (s.subrange(0, i), s.subrange(i + pat.len(), s.len() as int))
}

pub fn split_once_str(s: &str, pat: &str) -> (r: Option<(String, String)>)
    ensures
        r is None <==> !seq_contains(s@, pat@),
        r matches Some(p) ==> exists|i: int| first_occurrence(s@, pat@, i)
            && p.0@ == split_once_spec(s@, pat@, i).0 && p.1@ == split_once_spec(s@, pat@, i).1,
{
    let a = chars_of(s);
    let b = chars_of(pat);
    match find_seq(&a, &b) {
        Some(i) => {
            let an = a.len();
            let l = string_of(slice_range(&a, 0, i));
            let r = string_of(slice_range(&a, i + b.len(), a.len()));
            assert(first_occurrence(s@, pat@, i as int));
            Some((l, r))
        },
        None => None,
    }
}

/// `str::rsplit_once` with a string pattern: the text before and after the
/// last occurrence of `pat`.
pub fn rsplit_once_str(s: &str, pat: &str) -> (r: Option<(String, String)>)
    ensures
        r is None <==> !seq_contains(s@, pat@),
        r matches Some(p) ==> exists|i: int| last_occurrence(s@, pat@, i)
            && p.0@ == split_once_spec(s@, pat@, i).0 && p.1@ == split_once_spec(s@, pat@, i).1,
{
    let a = chars_of(s);
    let b = chars_of(pat);
    match rfind_seq(&a, &b) {
        Some(i) => {
            let an = a.len();
            let l = string_of(slice_range(&a, 0, i));
            let r = string_of(slice_range(&a, i + b.len(), a.len()));
            assert(last_occurrence(s@, pat@, i as int));
            Some((l, r))
        },
        None => None,
    }
}

/// The text before the first occurrence of `pat`, or all of `s`
/// (`s.split(pat).next().unwrap()`).
pub open spec fn before_first(s: Seq<char>, pat: Seq<char>) -> Seq<char> {
    if seq_contains(s, pat) {
        s.subrange(0, choose|i: int| first_occurrence(s, pat, i))
    } else {
        s
    }
}

/// The text after the last occurrence of `pat`, or all of `s`
/// (`s.rsplit(pat).next().unwrap()`).
pub open spec fn after_last(s: Seq<char>, pat: Seq<char>) -> Seq<char> {
    if seq_contains(s, pat) {
        s.subrange((choose|i: int| last_occurrence(s, pat, i)) + pat.len(), s.len() as int)
    } else {
        s
    }
}

pub proof fn lemma_first_occurrence_unique(s: Seq<char>, p: Seq<char>, i: int, j: int)
    requires
        first_occurrence(s, p, i),
        first_occurrence(s, p, j),
    ensures
        i == j,
{
    if i < j {
        assert(!occurs_at(s, p, i));
    } else if j < i {
        assert(!occurs_at(s, p, j));
    }
}

proof fn lemma_last_occurrence_unique(s: Seq<char>, p: Seq<char>, i: int, j: int)
    requires
        last_occurrence(s, p, i),
        last_occurrence(s, p, j),
    ensures
        i == j,
{
    if i < j {
        assert(!occurs_at(s, p, j));
    } else if j < i {
        assert(!occurs_at(s, p, i));
    }
}

pub fn before_first_str(s: &str, pat: &str) -> (r: String)
    ensures
        r@ == before_first(s@, pat@),
{
    let a = chars_of(s);
    let b = chars_of(pat);
    match find_seq(&a, &b) {
        Some(i) => {
            proof {
                let c = choose|k: int| first_occurrence(s@, pat@, k);
                lemma_first_occurrence_unique(s@, pat@, i as int, c);
            }
            string_of(slice_range(&a, 0, i))
        },
        None => string_of(&a),
    }
}

pub fn after_last_str(s: &str, pat: &str) -> (r: String)
    ensures
        r@ == after_last(s@, pat@),
{
    let a = chars_of(s);
    let b = chars_of(pat);
    match rfind_seq(&a, &b) {
        Some(i) => {
            proof {
                let c = choose|k: int| last_occurrence(s@, pat@, k);
                lemma_last_occurrence_unique(s@, pat@, i as int, c);
            }
            let an = a.len();
            string_of(slice_range(&a, i + b.len(), an))
        },
        None => string_of(&a),
    }
}

/// `str::replace` with a non-empty string pattern: every non-overlapping
/// occurrence, scanned left to right, is replaced by `rep`.
pub open spec fn replace_all(s: Seq<char>, pat: Seq<char>, rep: Seq<char>) -> Seq<char>
    recommends
        pat.len() > 0,
    decreases s.len(),
{
    if s.len() == 0 || pat.len() == 0 {
        s
    } else if occurs_at(s, pat, 0) {
        rep + replace_all(s.subrange(pat.len() as int, s.len() as int), pat, rep)
    } else {
        seq![s[0]] + replace_all(s.drop_first(), pat, rep)
    }
}

pub fn replace_str(s: &str, pat: &str, rep: &str) -> (r: String)
    requires
        pat@.len() > 0,
    ensures
        r@ == replace_all(s@, pat@, rep@),
{
    let a = chars_of(s);
    let b = chars_of(pat);
    let c = chars_of(rep);
    let n = a.len();
    let mut out: Vec<char> = Vec::new();
    let mut i: usize = 0;
    assert(a@.subrange(0, n as int) =~= a@);
    while i < n
        invariant
            n == a@.len(),
            a@ == s@,
            b@ == pat@,
            c@ == rep@,
            b@.len() > 0,
            i <= n,
            replace_all(s@, pat@, rep@) == out@ + replace_all(a@.subrange(i as int, n as int), pat@, rep@),
        decreases n - i,
    {
        let ghost rest = a@.subrange(i as int, n as int);
        if matches_at(&a, &b, i) {
            assert(occurs_at(rest, pat@, 0)) by {
                assert(rest.subrange(0, pat@.len() as int) =~= a@.subrange(i as int, i + pat@.len()));
            }
            assert(rest.subrange(pat@.len() as int, rest.len() as int) =~= a@.subrange(i + b@.len(), n as int));
            let mut k: usize = 0;
            let ghost out0 = out@;
            while k < c.len()
                invariant
                    k <= c@.len(),
                    out@ == out0 + c@.subrange(0, k as int),
                decreases c@.len() - k,
            {
                out.push(c[k]);
                assert(c@.subrange(0, k + 1) =~= c@.subrange(0, k as int).push(c@[k as int]));
                k = k + 1;
            }
            assert(c@.subrange(0, c@.len() as int) =~= c@);
            assert(out0 + (rep@ + replace_all(a@.subrange(i + b@.len(), n as int), pat@, rep@))
                =~= out@ + replace_all(a@.subrange(i + b@.len(), n as int), pat@, rep@));
            i = i + b.len();
        } else {
            assert(!occurs_at(rest, pat@, 0)) by {
                if i + pat@.len() <= n {
                    assert(rest.subrange(0, pat@.len() as int) =~= a@.subrange(i as int, i + pat@.len()));
                }
            }
            assert(rest.drop_first() =~= a@.subrange(i + 1, n as int));
            assert(out@ + (seq![a@[i as int]] + replace_all(a@.subrange(i + 1, n as int), pat@, rep@))
                =~= out@.push(a@[i as int]) + replace_all(a@.subrange(i + 1, n as int), pat@, rep@));
            out.push(a[i]);
            i = i + 1;
        }
    }
    assert(out@ + replace_all(a@.subrange(n as int, n as int), pat@, rep@) =~= out@);
    string_of(&out)
}

/// Index of the first occurrence of the character `c`.
pub open spec fn is_first_char(s: Seq<char>, c: char, i: int) -> bool {
    0 <= i < s.len() && s[i] == c && forall|k: int| 0 <= k < i ==> s[k] != c
}

/// Index of the last occurrence of the character `c`.
pub open spec fn is_last_char(s: Seq<char>, c: char, i: int) -> bool {
    0 <= i < s.len() && s[i] == c && forall|k: int| i < k < s.len() ==> s[k] != c
}

pub fn find_char(s: &[char], c: char) -> (r: Option<usize>)
    ensures
        r matches Some(i) ==> is_first_char(s@, c, i as int),
        r is None ==> !s@.contains(c),
{
    let mut i: usize = 0;
    while i < s.len()
        invariant
            i <= s@.len(),
            forall|k: int| 0 <= k < i ==> s@[k] != c,
        decreases s@.len() - i,
    {
        if s[i] == c {
            return Some(i);
        }
        i = i + 1;
    }
    None
}

pub fn rfind_char(s: &[char], c: char) -> (r: Option<usize>)
    ensures
        r matches Some(i) ==> is_last_char(s@, c, i as int),
        r is None ==> !s@.contains(c),
{
    let mut i: usize = s.len();
    while i > 0
        invariant
            i <= s@.len(),
            forall|k: int| i <= k < s@.len() ==> s@[k] != c,
        decreases i,
    {
        if s[i - 1] == c {
            return Some(i - 1);
        }
        i = i - 1;
    }
    None
}

proof fn lemma_first_char_unique(s: Seq<char>, c: char, i: int, j: int)
    requires
        is_first_char(s, c, i),
        is_first_char(s, c, j),
    ensures
        i == j,
{
    if i < j {
        assert(s[i] == c);
    } else if j < i {
        assert(s[j] == c);
    }
}

/// `str::split_once` with a char pattern: the text before and after the first
/// `c`, or `None` when `c` does not occur.
pub open spec fn split_at_char(s: Seq<char>, c: char) -> Option<(Seq<char>, Seq<char>)> {
    if s.contains(c) {
        let i = choose|i: int| is_first_char(s, c, i);
        Some((s.subrange(0, i), s.subrange(i + 1, s.len() as int)))
    } else {
        None
    }
}

/// The text before the first `c`, or all of `s` (`s.split(c).next()`).
pub open spec fn before_char(s: Seq<char>, c: char) -> Seq<char> {
    match split_at_char(s, c) {
        Some((a, _)) => a,
        None => s,
    }
}

pub fn split_char_once(s: &str, c: char) -> (r: Option<(String, String)>)
    ensures
        match r {
            Some((a, b)) => split_at_char(s@, c) == Some((a@, b@)),
            None => split_at_char(s@, c) is None,
        },
{
    let cs = chars_of(s);
    match find_char(&cs, c) {
        Some(i) => {
            proof {
                assert(s@[i as int] == c);
                let k = choose|k: int| is_first_char(s@, c, k);
                lemma_first_char_unique(s@, c, i as int, k);
            }
            let a = string_of(slice_range(&cs, 0, i));
            let b = string_of(slice_range(&cs, i + 1, cs.len()));
            Some((a, b))
        },
        None => None,
    }
}

/// A character that occurs has a last occurrence.
pub proof fn lemma_last_char_exists(s: Seq<char>, c: char)
    requires
        s.contains(c),
    ensures
        exists|i: int| is_last_char(s, c, i),
    decreases s.len(),
{
    if s.last() == c {
        assert(is_last_char(s, c, s.len() - 1));
    } else {
        let k = choose|k: int| 0 <= k < s.len() && s[k] == c;
        assert(s.drop_last()[k] == c);
        lemma_last_char_exists(s.drop_last(), c);
        let i = choose|i: int| is_last_char(s.drop_last(), c, i);
        assert forall|k: int| i < k < s.len() implies s[k] != c by {
            if k < s.len() - 1 {
                assert(s[k] == s.drop_last()[k]);
            }
        }
        assert(s[i] == s.drop_last()[i]);
        assert(is_last_char(s, c, i));
    }
}

pub proof fn lemma_last_char_unique(s: Seq<char>, c: char, i: int, j: int)
    requires
        is_last_char(s, c, i),
        is_last_char(s, c, j),
    ensures
        i == j,
{
    if i < j {
        assert(s[j] == c);
    } else if j < i {
        assert(s[i] == c);
    }
}

/// `str::rsplit_once` with a char pattern: the text before and after the
/// last `c`, or `None` when `c` does not occur.
pub open spec fn split_at_last_char(s: Seq<char>, c: char) -> Option<(Seq<char>, Seq<char>)> {
    if s.contains(c) {
        let i = choose|i: int| is_last_char(s, c, i);
        Some((s.subrange(0, i), s.subrange(i + 1, s.len() as int)))
    } else {
        None
    }
}

pub fn rsplit_char_once(s: &str, c: char) -> (r: Option<(String, String)>)
    ensures
        match r {
            Some((a, b)) => split_at_last_char(s@, c) == Some((a@, b@)),
            None => split_at_last_char(s@, c) is None,
        },
{
    let cs = chars_of(s);
    match rfind_char(&cs, c) {
        Some(i) => {
            proof {
                assert(s@[i as int] == c);
                let k = choose|k: int| is_last_char(s@, c, k);
                lemma_last_char_unique(s@, c, i as int, k);
            }
            let a = string_of(slice_range(&cs, 0, i));
            let b = string_of(slice_range(&cs, i + 1, cs.len()));
            Some((a, b))
        },
        None => None,
    }
}

pub fn before_char_str(s: &str, c: char) -> (r: String)
    ensures
        r@ == before_char(s@, c),
{
    match split_char_once(s, c) {
        Some((a, _)) => a,
        None => string_of(&chars_of(s)),
    }
}

pub fn contains_char(s: &[char], c: char) -> (r: bool)
    ensures
        r == s@.contains(c),
{
    match find_char(s, c) {
        Some(i) => {
            assert(s@[i as int] == c);
            true
        },
        None => false,
    }
}

} // verus!

verus! {

// ---------------------------------------------------------------------------
// Unicode case mapping and classification (std's tables)
// ---------------------------------------------------------------------------

/// What `str::to_lowercase` returns for a string (Unicode `Lowercase` mapping,
/// including the final-sigma rule).
pub uninterp spec fn unicode_lowercase(s: Seq<char>) -> Seq<char>;

/// What `char::to_lowercase` yields for one character.
pub uninterp spec fn char_lowercase(c: char) -> Seq<char>;

/// What `char::is_alphanumeric` returns.
pub uninterp spec fn char_alphanumeric(c: char) -> bool;

/// `str::to_lowercase`; the contract names the result, which depends on the
/// argument alone. Nothing else about Unicode case mapping is stated.
#[verifier::external_body]
pub(crate) fn to_lowercase(s: &str) -> (r: String)
    ensures
        r@ == unicode_lowercase(s@),
{
    s.to_lowercase()
}

/// `char::to_lowercase`, collected; the contract names the result.
#[verifier::external_body]
pub(crate) fn lowercase_char(c: char) -> (r: Vec<char>)
    ensures
        r@ == char_lowercase(c),
{
    c.to_lowercase().collect()
}

/// `char::is_alphanumeric`; the contract names the result.
#[verifier::external_body]
pub(crate) fn is_alphanumeric(c: char) -> (r: bool)
    ensures
        r == char_alphanumeric(c),
{
    c.is_alphanumeric()
}

// ---------------------------------------------------------------------------
// Decimal integers: `str::parse` and `Display`
// ---------------------------------------------------------------------------

pub open spec fn digit_val(c: char) -> int {
    (c as int) - ('0' as int)
}

pub open spec fn all_digits(s: Seq<char>) -> bool {
    forall|i: int| 0 <= i < s.len() ==> is_ascii_digit(#[trigger] s[i])
}

pub open spec fn digits_value(s: Seq<char>) -> int
    decreases s.len(),
{
    if s.len() == 0 {
        0
    } else {
        digits_value(s.drop_last()) * 10 + digit_val(s.last())
    }
}

/// The digit part after an optional leading `+`.
pub open spec fn unsigned_digits(s: Seq<char>) -> Seq<char> {
    if s.len() > 0 && s[0] == '+' {
        s.drop_first()
    } else {
        s
    }
}

/// `str::parse::<u32>()`: an optional `+`, then at least one ASCII digit, and
/// a value that fits.
pub open spec fn parse_u32_spec(s: Seq<char>) -> Option<u32> {
    let d = unsigned_digits(s);
    if d.len() > 0 && all_digits(d) && digits_value(d) <= u32::MAX {
        Some(digits_value(d) as u32)
    } else {
        None
    }
}

/// `str::parse::<u64>()`: an optional `+`, then at least one ASCII digit, and
/// a value that fits.
pub open spec fn parse_u64_spec(s: Seq<char>) -> Option<u64> {
    let d = unsigned_digits(s);
    if d.len() > 0 && all_digits(d) && digits_value(d) <= u64::MAX {
        Some(digits_value(d) as u64)
    } else {
        None
    }
}

/// `str::parse::<i64>()`: an optional `+` or `-`, then at least one ASCII
/// digit, and a value that fits.
pub open spec fn parse_i64_spec(s: Seq<char>) -> Option<i64> {
    let neg = s.len() > 0 && s[0] == '-';
    let d = if s.len() > 0 && (s[0] == '+' || s[0] == '-') {
        s.drop_first()
    } else {
        s
    };
    if d.len() > 0 && all_digits(d) {
        if neg && digits_value(d) <= 0x8000_0000_0000_0000 {
            Some((-digits_value(d)) as i64)
        } else if !neg && digits_value(d) <= i64::MAX {
            Some(digits_value(d) as i64)
        } else {
            None
        }
    } else {
        None
    }
}

proof fn lemma_digits_value_nonneg(s: Seq<char>)
    requires
        all_digits(s),
    ensures
        digits_value(s) >= 0,
    decreases s.len(),
{
    if s.len() > 0 {
        assert(is_ascii_digit(s[s.len() - 1]));
        assert(all_digits(s.drop_last())) by {
            assert forall|i: int| 0 <= i < s.drop_last().len() implies is_ascii_digit(
                #[trigger] s.drop_last()[i],
            ) by {
                assert(s.drop_last()[i] == s[i]);
            }
        }
        lemma_digits_value_nonneg(s.drop_last());
    }
}

proof fn lemma_digits_value_prefix(s: Seq<char>, i: int)
    requires
        all_digits(s),
        0 <= i <= s.len(),
    ensures
        digits_value(s.subrange(0, i)) <= digits_value(s),
    decreases s.len() - i,
{
    if i < s.len() {
        lemma_digits_value_prefix(s, i + 1);
        let p = s.subrange(0, i + 1);
        assert(p.drop_last() =~= s.subrange(0, i));
        assert(is_ascii_digit(s[i]));
        assert(all_digits(s.subrange(0, i))) by {
            assert forall|k: int| 0 <= k < s.subrange(0, i).len() implies is_ascii_digit(
                #[trigger] s.subrange(0, i)[k],
            ) by {
                assert(s.subrange(0, i)[k] == s[k]);
            }
        }
        lemma_digits_value_nonneg(s.subrange(0, i));
    } else {
        assert(s.subrange(0, i) =~= s);
    }
}

/// Value of the all-digit run `cs[lo..]`, if it is non-empty, all digits and
/// at most `bound`.
fn digits_upto(cs: &[char], lo: usize, bound: u64) -> (r: Option<u64>)
    requires
        lo <= cs@.len(),
        bound >= 9,
    ensures
        ({
            let d = cs@.subrange(lo as int, cs@.len() as int);
            match r {
                Some(v) => d.len() > 0 && all_digits(d) && v == digits_value(d) && v <= bound,
                None => !(d.len() > 0 && all_digits(d) && digits_value(d) <= bound),
            }
        }),
{
    let n = cs.len();
    let ghost d = cs@.subrange(lo as int, n as int);
    if lo == n {
        return None;
    }
    let mut acc: u64 = 0;
    let mut i: usize = lo;
    while i < n
        invariant
            n == cs@.len(),
            lo <= i <= n,
            d == cs@.subrange(lo as int, n as int),
            all_digits(d.subrange(0, i - lo)),
            acc == digits_value(d.subrange(0, i - lo)),
            acc <= bound,
            bound >= 9,
        decreases n - i,
    {
        let c = cs[i];
        let ghost p = d.subrange(0, i - lo + 1);
        assert(p.drop_last() =~= d.subrange(0, i - lo));
        assert(p.last() == c);
        if !is_digit_char(c) {
            assert(!all_digits(d)) by {
                assert(d[i - lo] == c);
            }
            return None;
        }
        let dv: u64 = (c as u64) - ('0' as u64);
        assert(all_digits(p)) by {
            assert forall|k: int| 0 <= k < p.len() implies is_ascii_digit(#[trigger] p[k]) by {
                if k < p.len() - 1 {
                    assert(p[k] == d.subrange(0, i - lo)[k]);
                }
            }
        }
        if acc > (bound - dv) / 10 {
            proof {
                assert(digits_value(p) == acc * 10 + dv);
                assert(digits_value(p) > bound);
                if all_digits(d) {
                    lemma_digits_value_prefix(d, i - lo + 1);
                }
            }
            return None;
        }
        acc = acc * 10 + dv;
        i = i + 1;
    }
    assert(d.subrange(0, n - lo) =~= d);
    Some(acc)
}

/// `str::parse::<u32>()`.
pub fn parse_u32(s: &str) -> (r: Option<u32>)
    ensures
        r == parse_u32_spec(s@),
{
    let cs = chars_of(s);
    let lo: usize = if cs.len() > 0 && cs[0] == '+' { 1 } else { 0 };
    assert(cs@.subrange(lo as int, cs@.len() as int) =~= unsigned_digits(s@));
    match digits_upto(&cs, lo, 0xFFFF_FFFF) {
        Some(v) => Some(v as u32),
        None => None,
    }
}

/// `str::parse::<u64>()`.
pub fn parse_u64(s: &str) -> (r: Option<u64>)
    ensures
        r == parse_u64_spec(s@),
{
    let cs = chars_of(s);
    let lo: usize = if cs.len() > 0 && cs[0] == '+' { 1 } else { 0 };
    assert(cs@.subrange(lo as int, cs@.len() as int) =~= unsigned_digits(s@));
    digits_upto(&cs, lo, 0xFFFF_FFFF_FFFF_FFFF)
}

/// `str::parse::<i64>()`.
pub fn parse_i64(s: &str) -> (r: Option<i64>)
    ensures
        r == parse_i64_spec(s@),
{
    let cs = chars_of(s);
    let neg = cs.len() > 0 && cs[0] == '-';
    let lo: usize = if cs.len() > 0 && (cs[0] == '+' || cs[0] == '-') { 1 } else { 0 };
    let ghost d = cs@.subrange(lo as int, cs@.len() as int);
    assert(lo == 1 ==> d =~= s@.drop_first());
    assert(lo == 0 ==> d =~= s@);
    if neg {
        match digits_upto(&cs, lo, 0x8000_0000_0000_0000) {
            Some(v) => {
                if v == 0x8000_0000_0000_0000 {
                    Some(i64::MIN)
                } else {
                    Some(-(v as i64))
                }
            },
            None => None,
        }
    } else {
        match digits_upto(&cs, lo, 0x7FFF_FFFF_FFFF_FFFF) {
            Some(v) => Some(v as i64),
            None => None,
        }
    }
}

pub open spec fn digit_char(d: int) -> char {
    ((d + ('0' as int)) as u32) as char
}

/// `Display` of a non-negative integer.
pub open spec fn decimal(n: nat) -> Seq<char>
    decreases n,
{
    if n < 10 {
        seq![digit_char(n as int)]
    } else {
        decimal(n / 10) + seq![digit_char((n % 10) as int)]
    }
}

/// `format!("{:02}", n)` of a non-negative integer.
pub open spec fn decimal_pad2(n: nat) -> Seq<char> {
    if n < 10 {
        seq!['0'] + decimal(n)
    } else {
        decimal(n)
    }
}

/// A number below 100, padded to two places, is two ASCII digits.
pub proof fn lemma_pad2_digits(n: nat)
    requires
        n < 100,
    ensures
        decimal_pad2(n).len() == 2,
        is_ascii_digit(decimal_pad2(n)[0]),
        is_ascii_digit(decimal_pad2(n)[1]),
{
    reveal_with_fuel(decimal, 2);
    if n >= 10 {
        assert(decimal(n) == decimal(n / 10) + seq![digit_char((n % 10) as int)]);
        assert(decimal(n / 10) == seq![digit_char((n / 10) as int)]);
    }
}

/// `Display` of an `i64`.
pub open spec fn decimal_i64(n: i64) -> Seq<char> {
    if n < 0 {
        seq!['-'] + decimal((-(n as int)) as nat)
    } else {
        decimal(n as nat)
    }
}

fn digit_of(d: u64) -> (c: char)
    requires
        d < 10,
    ensures
        c == digit_char(d as int),
{
    let b: u8 = (d as u8) + 48;
    b as char
}

/// `u64::to_string`.
pub fn fmt_u64(n: u64) -> (r: String)
    ensures
        r@ == decimal(n as nat),
{
    let mut cur: u64 = n;
    let mut acc: Vec<char> = Vec::new();
    assert(decimal(n as nat) =~= decimal(n as nat) + acc@);
    while cur >= 10
        invariant
            decimal(n as nat) == decimal(cur as nat) + acc@,
        decreases cur,
    {
        let d = digit_of(cur % 10);
        let ghost old_acc = acc@;
        acc.insert(0, d);
        assert(acc@ =~= seq![d] + old_acc);
        assert(decimal(cur as nat) == decimal((cur / 10) as nat) + seq![digit_char((cur % 10) as int)]);
        assert(decimal(cur as nat) + old_acc =~= decimal((cur / 10) as nat) + acc@);
        cur = cur / 10;
    }
    let ghost old_acc = acc@;
    acc.insert(0, digit_of(cur));
    assert(decimal(cur as nat) == seq![digit_char(cur as int)]);
    assert(acc@ =~= decimal(cur as nat) + old_acc);
    string_of(&acc)
}

/// `format!("{:02}", n)`.
pub fn fmt_u64_pad2(n: u64) -> (r: String)
    ensures
        r@ == decimal_pad2(n as nat),
{
    let s = fmt_u64(n);
    if n < 10 {
        let mut r = String::new();
        push_char(&mut r, '0');
        r.append(s.as_str());
        r
    } else {
        s
    }
}

/// `i64::to_string`.
pub fn fmt_i64(n: i64) -> (r: String)
    ensures
        r@ == decimal_i64(n),
{
    if n < 0 {
        let m: u64 = if n == i64::MIN { 0x8000_0000_0000_0000 } else { (-n) as u64 };
        let s = fmt_u64(m);
        let mut r = String::new();
        push_char(&mut r, '-');
        r.append(s.as_str());
        r
    } else {
        fmt_u64(n as u64)
    }
}

} // verus!

verus! {

/// A new vector holding `cs[lo..hi]`.
pub fn sub_vec(cs: &[char], lo: usize, hi: usize) -> (r: Vec<char>)
    requires
        lo <= hi <= cs@.len(),
    ensures
        r@ == cs@.subrange(lo as int, hi as int),
{
    vstd::slice::slice_to_vec(slice_range(cs, lo, hi))
}

} // verus!

verus! {

/// The characters of an optional string.
pub open spec fn opt_view(o: Option<String>) -> Option<Seq<char>> {
    match o {
        Some(s) => Some(s@),
        None => None,
    }
}

/// The characters of each string.
pub open spec fn strs_view(v: Seq<String>) -> Seq<Seq<char>> {
    v.map_values(|s: String| s@)
}

/// A copy of an optional string.
pub fn copy_opt(o: &Option<String>) -> (r: Option<String>)
    ensures
        opt_view(r) == opt_view(*o),
{
    match o {
        Some(s) => Some(s.clone()),
        None => None,
    }
}

/// A copy of a list of strings.
pub fn copy_strs(v: &Vec<String>) -> (r: Vec<String>)
    ensures
        strs_view(r@) == strs_view(v@),
{
    let mut out: Vec<String> = Vec::new();
    let mut i: usize = 0;
    while i < v.len()
        invariant
            i <= v@.len(),
            out@.len() == i,
            forall|k: int| 0 <= k < i ==> (#[trigger] out@[k])@ == v@[k]@,
        decreases v@.len() - i,
    {
        let c = v[i].clone();
        out.push(c);
        i = i + 1;
    }
    assert(strs_view(out@) =~= strs_view(v@));
    out
}

} // verus!

verus! {

// ---------------------------------------------------------------------------
// Lexicographic order (by code point, which is also UTF-8 byte order)
// ---------------------------------------------------------------------------

/// `a` sorts strictly before `b`: at the first difference `a` has the smaller
/// character, or `a` is a proper prefix of `b`.
pub open spec fn seq_lt(a: Seq<char>, b: Seq<char>) -> bool
    decreases a.len(),
{
    if a.len() == 0 {
        b.len() > 0
    } else if b.len() == 0 {
        false
    } else if a[0] != b[0] {
        a[0] < b[0]
    } else {
        seq_lt(a.drop_first(), b.drop_first())
    }
}

pub proof fn lemma_seq_lt_irreflexive(a: Seq<char>)
    ensures
        !seq_lt(a, a),
    decreases a.len(),
{
    if a.len() > 0 {
        lemma_seq_lt_irreflexive(a.drop_first());
    }
}

pub proof fn lemma_seq_lt_total(a: Seq<char>, b: Seq<char>)
    ensures
        a == b || seq_lt(a, b) || seq_lt(b, a),
    decreases a.len(),
{
    if a.len() > 0 && b.len() > 0 && a[0] == b[0] {
        lemma_seq_lt_total(a.drop_first(), b.drop_first());
        if a.drop_first() == b.drop_first() {
            assert(a =~= seq![a[0]] + a.drop_first());
            assert(b =~= seq![b[0]] + b.drop_first());
            assert(a =~= b);
        }
    } else if a.len() > 0 && b.len() > 0 {
        assert(a[0] < b[0] || b[0] < a[0]);
    } else if a.len() == 0 && b.len() == 0 {
        assert(a =~= b);
    }
}

pub proof fn lemma_seq_lt_transitive(a: Seq<char>, b: Seq<char>, c: Seq<char>)
    requires
        seq_lt(a, b),
        seq_lt(b, c),
    ensures
        seq_lt(a, c),
    decreases a.len(),
{
    if a.len() > 0 && b.len() > 0 && c.len() > 0 && a[0] == b[0] && b[0] == c[0] {
        lemma_seq_lt_transitive(a.drop_first(), b.drop_first(), c.drop_first());
    }
}

pub proof fn lemma_seq_lt_asym(a: Seq<char>, b: Seq<char>)
    requires
        seq_lt(a, b),
    ensures
        !seq_lt(b, a),
    decreases a.len(),
{
    if a.len() > 0 && b.len() > 0 && a[0] == b[0] {
        lemma_seq_lt_asym(a.drop_first(), b.drop_first());
    }
}

/// `a` sorts strictly before `b`.
pub fn str_lt(a: &str, b: &str) -> (r: bool)
    ensures
        r == seq_lt(a@, b@),
{
    let x = chars_of(a);
    let y = chars_of(b);
    let mut i: usize = 0;
    assert(a@.subrange(0, a@.len() as int) =~= a@);
    assert(b@.subrange(0, b@.len() as int) =~= b@);
    while i < x.len() && i < y.len() && x[i] == y[i]
        invariant
            x@ == a@,
            y@ == b@,
            i <= x@.len(),
            i <= y@.len(),
            seq_lt(a@, b@) == seq_lt(a@.subrange(i as int, a@.len() as int), b@.subrange(i as int, b@.len() as int)),
        decreases x@.len() - i,
    {
        let ghost sa = a@.subrange(i as int, a@.len() as int);
        let ghost sb = b@.subrange(i as int, b@.len() as int);
        assert(sa.drop_first() =~= a@.subrange(i + 1, a@.len() as int));
        assert(sb.drop_first() =~= b@.subrange(i + 1, b@.len() as int));
        i = i + 1;
    }
    proof {
        assert(a@.subrange(0, a@.len() as int) =~= a@);
        assert(b@.subrange(0, b@.len() as int) =~= b@);
    }
    if i == x.len() {
        i < y.len()
    } else if i == y.len() {
        false
    } else {
        let ghost sa = a@.subrange(i as int, a@.len() as int);
        assert(sa[0] == x@[i as int]);
        x[i] < y[i]
    }
}

/// Strictly increasing, hence free of duplicates.
pub open spec fn strictly_sorted(v: Seq<String>) -> bool {
    forall|i: int, j: int| 0 <= i < j < v.len() ==> seq_lt((#[trigger] v[i])@, (#[trigger] v[j])@)
}

/// Some string of `v` is `t`.
pub open spec fn strs_contain(v: Seq<String>, t: Seq<char>) -> bool {
    exists|i: int| 0 <= i < v.len() && (#[trigger] v[i])@ == t
}

/// Adds `s` to a strictly sorted list unless an equal string is there.
pub fn insert_sorted(v: &mut Vec<String>, s: String)
    requires
        strictly_sorted(old(v)@),
    ensures
        strictly_sorted(final(v)@),
        forall|t: Seq<char>|
            #[trigger] strs_contain(final(v)@, t) <==> (t == s@ || strs_contain(old(v)@, t)),
{
    let ghost v0 = v@;
    let mut i: usize = 0;
    while i < v.len() && str_lt(v[i].as_str(), s.as_str())
        invariant
            v@ == v0,
            strictly_sorted(v0),
            i <= v@.len(),
            forall|k: int| 0 <= k < i ==> seq_lt((#[trigger] v0[k])@, s@),
        decreases v@.len() - i,
    {
        i = i + 1;
    }
    if i < v.len() && str_eq(v[i].as_str(), s.as_str()) {
        proof {
            assert forall|t: Seq<char>| #[trigger] strs_contain(v@, t) <==> (t == s@ || strs_contain(v0, t)) by {
                if t == s@ {
                    assert(v0[i as int]@ == t);
                }
            }
        }
        return;
    }
    proof {
        if i < v@.len() {
            lemma_seq_lt_total(v0[i as int]@, s@);
        }
    }
    let ghost sv = s@;
    v.insert(i, s);
    proof {
        assert forall|a: int, b: int| 0 <= a < b < v@.len() implies seq_lt((#[trigger] v@[a])@, (#[trigger] v@[b])@) by {
            if b < i {
                assert(v@[a] == v0[a] && v@[b] == v0[b]);
            } else if b == i {
                assert(v@[a] == v0[a]);
            } else if a < i {
                assert(v@[a] == v0[a] && v@[b] == v0[b - 1]);
                assert(seq_lt(v0[a]@, sv));
                if b - 1 == i {
                    lemma_seq_lt_transitive(v0[a]@, sv, v0[b - 1]@);
                } else {
                    assert(seq_lt(sv, v0[i as int]@));
                    lemma_seq_lt_transitive(sv, v0[i as int]@, v0[b - 1]@);
                    lemma_seq_lt_transitive(v0[a]@, sv, v0[b - 1]@);
                }
            } else if a == i {
                assert(v@[b] == v0[b - 1]);
                assert(seq_lt(sv, v0[i as int]@));
                if b - 1 > i {
                    lemma_seq_lt_transitive(sv, v0[i as int]@, v0[b - 1]@);
                }
            } else {
                assert(v@[a] == v0[a - 1] && v@[b] == v0[b - 1]);
            }
        }
        assert forall|t: Seq<char>| #[trigger] strs_contain(v@, t) <==> (t == sv || strs_contain(v0, t)) by {
            if exists|k: int| 0 <= k < v@.len() && (#[trigger] v@[k])@ == t {
                let k = choose|k: int| 0 <= k < v@.len() && (#[trigger] v@[k])@ == t;
                if k < i {
                    assert(v@[k] == v0[k]);
                } else if k > i {
                    assert(v@[k] == v0[k - 1]);
                }
            }
            if exists|k: int| 0 <= k < v0.len() && (#[trigger] v0[k])@ == t {
                let k = choose|k: int| 0 <= k < v0.len() && (#[trigger] v0[k])@ == t;
                if k < i {
                    assert(v@[k] == v0[k]);
                } else {
                    assert(v@[k + 1] == v0[k]);
                }
            }
            if t == sv {
                assert(v@[i as int]@ == sv);
            }
        }
    }
}

} // verus!
