//! The library index's query language (`field:value`, `~fuzzy`, `lo..hi`,
//! `-`/`^` negation), its translation to SQL, in-memory matching, track
//! edits, and the file name the naming scheme gives an edited track.

use vstd::prelude::*;

use crate::error::Error;
use crate::text::{
    chars_of, contains_str, decimal_i64, eq_ignore_ascii_case, first_occurrence, fmt_i64,
    is_first_char, parse_i64, parse_i64_spec, seq_ascii_lower, seq_contains, seq_starts_with,
    slice_range, split_once_str, sub_vec, starts_with_str, str_eq, string_of, to_ascii_lowercase,
    to_lowercase, unicode_lowercase,
};
use crate::scorer::{fuzzy_hit, fuzzy_match};

verus! {

/// A row of the `library_tracks` index.
#[derive(Debug)]
pub struct LibraryTrack {
    pub id: i64,
    pub job_id: Option<i64>,
    pub release_mbid: Option<String>,
    pub recording_id: Option<String>,
    pub artist: String,
    pub album: String,
    pub title: String,
    pub track_position: Option<i64>,
    pub disc_position: Option<i64>,
    pub year: Option<String>,
    pub path: String,
    pub format: Option<String>,
    pub imported_at: String,
}

#[derive(Debug, Clone, Copy, PartialEq, Eq, Structural)]
pub enum Field {
    Artist,
    Album,
    Title,
    Year,
    Track,
    Disc,
    Path,
    Release,
    Recording,
}

/// The field a `prefix:` names, compared ASCII-case-insensitively.
pub open spec fn field_of_prefix(p: Seq<char>) -> Option<Field> {
    let l = seq_ascii_lower(p);
    if l == "artist"@ {
        Some(Field::Artist)
    } else if l == "album"@ {
        Some(Field::Album)
    } else if l == "title"@ {
        Some(Field::Title)
    } else if l == "year"@ {
        Some(Field::Year)
    } else if l == "track"@ {
        Some(Field::Track)
    } else if l == "disc"@ {
        Some(Field::Disc)
    } else if l == "path"@ {
        Some(Field::Path)
    } else if l == "release"@ {
        Some(Field::Release)
    } else if l == "recording"@ {
        Some(Field::Recording)
    } else {
        None
    }
}

pub open spec fn is_numeric_field(f: Field) -> bool {
    f == Field::Year || f == Field::Track || f == Field::Disc
}

pub open spec fn column_of(f: Field) -> Seq<char> {
    match f {
        Field::Artist => "artist"@,
        Field::Album => "album"@,
        Field::Title => "title"@,
        Field::Year => "year"@,
        Field::Track => "track_position"@,
        Field::Disc => "disc_position"@,
        Field::Path => "path"@,
        Field::Release => "release_mbid"@,
        Field::Recording => "recording_id"@,
    }
}

impl Field {
    pub fn from_prefix(s: &str) -> (r: Option<Field>)
        ensures
            r == field_of_prefix(s@),
    {
        let l = to_ascii_lowercase(s);
        let x = l.as_str();
        if str_eq(x, "artist") {
            Some(Field::Artist)
        } else if str_eq(x, "album") {
            Some(Field::Album)
        } else if str_eq(x, "title") {
            Some(Field::Title)
        } else if str_eq(x, "year") {
            Some(Field::Year)
        } else if str_eq(x, "track") {
            Some(Field::Track)
        } else if str_eq(x, "disc") {
            Some(Field::Disc)
        } else if str_eq(x, "path") {
            Some(Field::Path)
        } else if str_eq(x, "release") {
            Some(Field::Release)
        } else if str_eq(x, "recording") {
            Some(Field::Recording)
        } else {
            None
        }
    }

    pub fn is_numeric(self) -> (r: bool)
        ensures
            r == is_numeric_field(self),
    {
        matches!(self, Field::Year | Field::Track | Field::Disc)
    }

    pub fn column(self) -> (r: &'static str)
        ensures
            r@ == column_of(self),
    {
        match self {
            Field::Artist => "artist",
            Field::Album => "album",
            Field::Title => "title",
            Field::Year => "year",
            Field::Track => "track_position",
            Field::Disc => "disc_position",
            Field::Path => "path",
            Field::Release => "release_mbid",
            Field::Recording => "recording_id",
        }
    }
}

/// How a clause's value is compared.
#[derive(Debug)]
pub enum MatchKind {
    Substring(String),
    Exact(String),
    Fuzzy(String),
    Range(Option<i64>, Option<i64>),
}

/// One query term: an optional field, a negation flag and a comparison.
#[derive(Debug)]
pub struct Clause {
    pub field: Option<Field>,
    pub negate: bool,
    pub kind: MatchKind,
}

/// Mathematical form of a [`MatchKind`].
pub enum KindView {
    Substring(Seq<char>),
    Exact(Seq<char>),
    Fuzzy(Seq<char>),
    Range(Option<i64>, Option<i64>),
}

/// Mathematical form of a [`Clause`].
pub struct ClauseView {
    pub field: Option<Field>,
    pub negate: bool,
    pub kind: KindView,
}

impl View for MatchKind {
    type V = KindView;

    open spec fn view(&self) -> KindView {
        match self {
            MatchKind::Substring(s) => KindView::Substring(s@),
            MatchKind::Exact(s) => KindView::Exact(s@),
            MatchKind::Fuzzy(s) => KindView::Fuzzy(s@),
            MatchKind::Range(lo, hi) => KindView::Range(*lo, *hi),
        }
    }
}

impl View for Clause {
    type V = ClauseView;

    open spec fn view(&self) -> ClauseView {
        ClauseView { field: self.field, negate: self.negate, kind: self.kind@ }
    }
}

// ---------------------------------------------------------------------------
// Parsing
// ---------------------------------------------------------------------------

/// A leading `-`/`^` negates; `\-`/`\^` escape it (the backslash is dropped).
pub open spec fn strip_negation(raw: Seq<char>) -> (Seq<char>, bool) {
    if seq_starts_with(raw, "\\-"@) || seq_starts_with(raw, "\\^"@) {
        (raw.drop_first(), false)
    } else if raw.len() > 0 && (raw[0] == '-' || raw[0] == '^') {
        (raw.drop_first(), true)
    } else {
        (raw, false)
    }
}

/// `prefix:rest` with a non-empty rest names a field (which must exist);
/// anything else is a field-less value.
pub open spec fn split_field(s: Seq<char>) -> Result<(Option<Field>, Seq<char>), Seq<char>> {
    if s.contains(':') {
        let i = choose|i: int| is_first_char(s, ':', i);
        let rest = s.subrange(i + 1, s.len() as int);
        if rest.len() > 0 {
            match field_of_prefix(s.subrange(0, i)) {
                Some(f) => Ok((Some(f), rest)),
                None => Err("unknown field prefix"@),
            }
        } else {
            Ok((None, s))
        }
    } else {
        Ok((None, s))
    }
}

/// An empty bound is open; anything else must parse as an `i64`.
pub open spec fn parse_bound(b: Seq<char>) -> Result<Option<i64>, ()> {
    if b.len() == 0 {
        Ok(None)
    } else {
        match parse_i64_spec(b) {
            Some(v) => Ok(Some(v)),
            None => Err(()),
        }
    }
}

/// `lo..hi` on a numeric field: at least one bound, and `lo <= hi`.
pub open spec fn range_kind(value: Seq<char>) -> Result<KindView, Seq<char>> {
    let i = choose|i: int| first_occurrence(value, ".."@, i);
    let lo = parse_bound(value.subrange(0, i));
    let hi = parse_bound(value.subrange(i + 2, value.len() as int));
    if lo is Err || hi is Err {
        Err("range bound is not an integer"@)
    } else if lo->Ok_0 is None && hi->Ok_0 is None {
        Err("empty range"@)
    } else if lo->Ok_0 is Some && hi->Ok_0 is Some && lo->Ok_0->0 > hi->Ok_0->0 {
        Err("range start exceeds end"@)
    } else {
        Ok(KindView::Range(lo->Ok_0, hi->Ok_0))
    }
}

/// `~x` is fuzzy, `=x` exact, `lo..hi` a range (numeric fields only),
/// anything else a substring.
pub open spec fn kind_of(field: Option<Field>, value: Seq<char>) -> Result<KindView, Seq<char>> {
    if value.len() > 0 && value[0] == '~' {
        Ok(KindView::Fuzzy(value.drop_first()))
    } else if value.len() > 0 && value[0] == '=' {
        Ok(KindView::Exact(value.drop_first()))
    } else if (field matches Some(f) && is_numeric_field(f)) && seq_contains(value, ".."@) {
        range_kind(value)
    } else {
        Ok(KindView::Substring(value))
    }
}

/// The clause a term denotes, or why it is malformed.
pub open spec fn parse_term_spec(raw: Seq<char>) -> Result<ClauseView, Seq<char>> {
    let (s, negate) = strip_negation(raw);
    if s.len() == 0 {
        Err("empty term"@)
    } else {
        match split_field(s) {
            Err(reason) => Err(reason),
            Ok((field, value)) => match kind_of(field, value) {
                Err(reason) => Err(reason),
                Ok(kind) => Ok(ClauseView { field, negate, kind }),
            },
        }
    }
}

/// What a parse result says, in the form the contracts use.
pub open spec fn parsed_as(r: Result<Clause, Error>, raw: Seq<char>) -> bool {
    match r {
        Ok(c) => parse_term_spec(raw) == Ok::<ClauseView, Seq<char>>(c@),
        Err(Error::QuerySyntax { term, reason }) => term@ == raw && parse_term_spec(raw) == Err::<
            ClauseView,
            Seq<char>,
        >(reason@),
        Err(_) => false,
    }
}

fn syntax_error(raw: &str, reason: &str) -> (e: Error)
    ensures
        e matches Error::QuerySyntax { term, reason: r } && term@ == raw@ && r@ == reason@,
{
    Error::QuerySyntax { term: raw.to_string(), reason: reason.to_string() }
}

fn parse_bound_exec(b: &str) -> (r: Result<Option<i64>, ()>)
    ensures
        r == parse_bound(b@),
{
    if crate::text::char_count(b) == 0 {
        Ok(None)
    } else {
        match parse_i64(b) {
            Some(v) => Ok(Some(v)),
            None => Err(()),
        }
    }
}

fn first_char_is(cs: &[char], c: char) -> (r: bool)
    ensures
        r == (cs@.len() > 0 && cs@[0] == c),
{
    cs.len() > 0 && cs[0] == c
}

fn kind_exec(field: Option<Field>, value: &Vec<char>) -> (r: Result<MatchKind, &'static str>)
    ensures
        match r {
            Ok(k) => kind_of(field, value@) == Ok::<KindView, Seq<char>>(k@),
            Err(reason) => kind_of(field, value@) == Err::<KindView, Seq<char>>(reason@),
        },
{
    let n = value.len();
    assert(value@.len() > 0 ==> value@.subrange(1, n as int) =~= value@.drop_first());
    if first_char_is(value, '~') {
        return Ok(MatchKind::Fuzzy(string_of(slice_range(value, 1, n))));
    }
    if first_char_is(value, '=') {
        return Ok(MatchKind::Exact(string_of(slice_range(value, 1, n))));
    }
    let numeric = match field {
        Some(f) => f.is_numeric(),
        None => false,
    };
    if !numeric {
        return Ok(MatchKind::Substring(string_of(value)));
    }
    let dots = ['.', '.'];
    assert(dots@ =~= ".."@) by {
        reveal_strlit("..");
    }
    match crate::text::find_seq(value, &dots) {
        None => Ok(MatchKind::Substring(string_of(value))),
        Some(i) => {
            proof {
                let j = choose|j: int| first_occurrence(value@, ".."@, j);
                if j < i {
                    assert(!occurs_at_dots(value@, j));
                } else if i < j {
                    assert(!occurs_at_dots(value@, i as int));
                }
                assert(i == j);
            }
            let lo_s = string_of(slice_range(value, 0, i));
            let hi_s = string_of(slice_range(value, i + 2, n));
            let lo = parse_bound_exec(lo_s.as_str());
            let hi = parse_bound_exec(hi_s.as_str());
            match (lo, hi) {
                (Ok(lo), Ok(hi)) => {
                    if lo.is_none() && hi.is_none() {
                        return Err("empty range");
                    }
                    if lo.is_some() && hi.is_some() && lo.unwrap() > hi.unwrap() {
                        return Err("range start exceeds end");
                    }
                    Ok(MatchKind::Range(lo, hi))
                },
                _ => Err("range bound is not an integer"),
            }
        },
    }
}

/// Parses one shell-tokenized query term.
pub fn parse_term(raw: &str) -> (r: Result<Clause, Error>)
    ensures
        parsed_as(r, raw@),
{
    let rc = chars_of(raw);
    proof {
        reveal_strlit("\\-");
        reveal_strlit("\\^");
    }
    let (sv, negate): (Vec<char>, bool) = if starts_with_str(raw, "\\-") || starts_with_str(
        raw,
        "\\^",
    ) {
        (sub_vec(&rc, 1, rc.len()), false)
    } else if rc.len() > 0 && (rc[0] == '-' || rc[0] == '^') {
        (sub_vec(&rc, 1, rc.len()), true)
    } else {
        (rc.clone(), false)
    };
    assert(rc@.len() > 0 ==> rc@.subrange(1, rc@.len() as int) =~= raw@.drop_first());
    assert(sv@ =~= strip_negation(raw@).0);
    if sv.len() == 0 {
        return Err(syntax_error(raw, "empty term"));
    }
    let s = string_of(&sv);
    // field prefix
    let (field, value): (Option<Field>, Vec<char>) = match crate::text::find_char(&sv, ':') {
        Some(i) => {
            proof {
                let j = choose|j: int| is_first_char(s@, ':', j);
                assert(s@.contains(':')) by {
                    assert(s@[i as int] == ':');
                }
                if j < i {
                    assert(s@[j] != ':');
                } else if i < j {
                    assert(s@[i as int] != ':');
                }
            }
            let n = sv.len();
            if i + 1 < n {
                let prefix = string_of(slice_range(&sv, 0, i));
                match Field::from_prefix(prefix.as_str()) {
                    Some(f) => (Some(f), sub_vec(&sv, i + 1, n)),
                    None => {
                        return Err(syntax_error(raw, "unknown field prefix"));
                    },
                }
            } else {
                (None, sv.clone())
            }
        },
        None => (None, sv.clone()),
    };
    assert(split_field(s@) == Ok::<(Option<Field>, Seq<char>), Seq<char>>((field, value@)));
    let kind = match kind_exec(field, &value) {
        Ok(k) => k,
        Err(reason) => {
            return Err(syntax_error(raw, reason));
        },
    };
    Ok(Clause { field, negate, kind })
}

spec fn occurs_at_dots(v: Seq<char>, i: int) -> bool {
    crate::text::occurs_at(v, ".."@, i)
}

/// Parses every term; the first malformed term is the error.
pub open spec fn all_parsed(terms: Seq<String>, out: Seq<Clause>) -> bool {
    out.len() == terms.len() && forall|i: int|
        0 <= i < terms.len() ==> parse_term_spec(#[trigger] terms[i]@) == Ok::<ClauseView, Seq<char>>(
            out[i]@,
        )
}

pub fn parse_query(terms: &[String]) -> (r: Result<Vec<Clause>, Error>)
    ensures
        match r {
            Ok(v) => all_parsed(terms@, v@),
            Err(e) => exists|i: int|
                0 <= i < terms@.len() && parsed_as(Err(e), terms@[i]@) && forall|k: int|
                    0 <= k < i ==> parse_term_spec(#[trigger] terms@[k]@) is Ok,
        },
{
    let mut out: Vec<Clause> = Vec::new();
    let mut i: usize = 0;
    while i < terms.len()
        invariant
            i <= terms@.len(),
            all_parsed(terms@.subrange(0, i as int), out@),
        decreases terms@.len() - i,
    {
        match parse_term(terms[i].as_str()) {
            Ok(c) => {
                out.push(c);
            },
            Err(e) => {
                assert forall|k: int| 0 <= k < i implies parse_term_spec(
                    #[trigger] terms@[k]@,
                ) is Ok by {
                    assert(terms@.subrange(0, i as int)[k] == terms@[k]);
                }
                return Err(e);
            },
        }
        assert forall|k: int| 0 <= k < i + 1 implies parse_term_spec(
            #[trigger] terms@.subrange(0, i + 1)[k]@,
        ) == Ok::<ClauseView, Seq<char>>(out@[k]@) by {
            if k < i {
                assert(terms@.subrange(0, i + 1)[k] == terms@.subrange(0, i as int)[k]);
            }
        }
        i = i + 1;
    }
    assert(terms@.subrange(0, terms@.len() as int) =~= terms@);
    Ok(out)
}

} // verus!

verus! {

// ---------------------------------------------------------------------------
// In-memory matching
// ---------------------------------------------------------------------------

/// Text comparison: substring under Unicode lowercasing, exact under ASCII
/// case folding, fuzzy by [`fuzzy_hit`]; a range never matches text.
pub open spec fn match_text_spec(v: Seq<char>, k: KindView) -> bool {
    match k {
        KindView::Substring(s) => seq_contains(unicode_lowercase(v), unicode_lowercase(s)),
        KindView::Exact(s) => seq_ascii_lower(v) == seq_ascii_lower(s),
        KindView::Fuzzy(s) => fuzzy_hit(v, s),
        KindView::Range(_, _) => false,
    }
}

/// A field's text as the query language sees it (`None` never matches).
pub open spec fn field_text(t: LibraryTrack, f: Field) -> Option<Seq<char>> {
    match f {
        Field::Artist => Some(t.artist@),
        Field::Album => Some(t.album@),
        Field::Title => Some(t.title@),
        Field::Year => match t.year {
            Some(y) => Some(y@),
            None => None,
        },
        Field::Track => match t.track_position {
            Some(n) => Some(decimal_i64(n)),
            None => None,
        },
        Field::Disc => match t.disc_position {
            Some(n) => Some(decimal_i64(n)),
            None => None,
        },
        Field::Path => Some(t.path@),
        Field::Release => match t.release_mbid {
            Some(y) => Some(y@),
            None => None,
        },
        Field::Recording => match t.recording_id {
            Some(y) => Some(y@),
            None => None,
        },
    }
}

/// A field's number for range comparisons (year parsed, positions as is).
pub open spec fn field_number(t: LibraryTrack, f: Field) -> Option<i64> {
    match f {
        Field::Year => match t.year {
            Some(y) => parse_i64_spec(y@),
            None => None,
        },
        Field::Track => t.track_position,
        Field::Disc => t.disc_position,
        _ => None,
    }
}

pub open spec fn match_field_spec(t: LibraryTrack, f: Field, k: KindView) -> bool {
    match k {
        KindView::Range(lo, hi) => match field_number(t, f) {
            Some(v) => (lo matches Some(l) ==> v >= l) && (hi matches Some(h) ==> v <= h),
            None => false,
        },
        _ => match field_text(t, f) {
            Some(v) => match_text_spec(v, k),
            None => false,
        },
    }
}

/// A clause holds of a track when its comparison hits the named field (or,
/// without a field, any of artist/album/title), flipped by negation.
pub open spec fn clause_matches(c: ClauseView, t: LibraryTrack) -> bool {
    let hit = match c.field {
        Some(f) => match_field_spec(t, f, c.kind),
        None => match_text_spec(t.artist@, c.kind) || match_text_spec(t.album@, c.kind)
            || match_text_spec(t.title@, c.kind),
    };
    hit != c.negate
}

fn match_text(value: &str, kind: &MatchKind) -> (r: bool)
    ensures
        r == match_text_spec(value@, kind@),
{
    match kind {
        MatchKind::Substring(s) => {
            let a = to_lowercase(value);
            let b = to_lowercase(s.as_str());
            contains_str(a.as_str(), b.as_str())
        },
        MatchKind::Exact(s) => eq_ignore_ascii_case(value, s.as_str()),
        MatchKind::Fuzzy(s) => fuzzy_match(value, s.as_str()),
        MatchKind::Range(_, _) => false,
    }
}

fn opt_text(v: &Option<String>) -> (r: Option<&str>)
    ensures
        match v {
            Some(s) => r matches Some(x) && x@ == s@,
            None => r is None,
        },
{
    match v {
        Some(s) => Some(s.as_str()),
        None => None,
    }
}

fn match_field(t: &LibraryTrack, field: Field, kind: &MatchKind) -> (r: bool)
    ensures
        r == match_field_spec(*t, field, kind@),
{
    if let MatchKind::Range(lo, hi) = kind {
        let val: Option<i64> = match field {
            Field::Year => match &t.year {
                Some(y) => parse_i64(y.as_str()),
                None => None,
            },
            Field::Track => t.track_position,
            Field::Disc => t.disc_position,
            _ => None,
        };
        return match val {
            None => false,
            Some(v) => {
                let lo_ok = match lo {
                    Some(l) => v >= *l,
                    None => true,
                };
                let hi_ok = match hi {
                    Some(h) => v <= *h,
                    None => true,
                };
                lo_ok && hi_ok
            },
        };
    }
    let text: Option<String> = match field {
        Field::Artist => Some(t.artist.clone()),
        Field::Album => Some(t.album.clone()),
        Field::Title => Some(t.title.clone()),
        Field::Year => match &t.year {
            Some(y) => Some(y.clone()),
            None => None,
        },
        Field::Track => match t.track_position {
            Some(n) => Some(fmt_i64(n)),
            None => None,
        },
        Field::Disc => match t.disc_position {
            Some(n) => Some(fmt_i64(n)),
            None => None,
        },
        Field::Path => Some(t.path.clone()),
        Field::Release => match &t.release_mbid {
            Some(y) => Some(y.clone()),
            None => None,
        },
        Field::Recording => match &t.recording_id {
            Some(y) => Some(y.clone()),
            None => None,
        },
    };
    match text {
        Some(v) => match_text(v.as_str(), kind),
        None => false,
    }
}

impl Clause {
    /// Does this clause hold of the track?
    pub fn matches(&self, t: &LibraryTrack) -> (r: bool)
        ensures
            r == clause_matches(self@, *t),
    {
        let hit = match self.field {
            Some(f) => match_field(t, f, &self.kind),
            None => match_text(t.artist.as_str(), &self.kind) || match_text(
                t.album.as_str(),
                &self.kind,
            ) || match_text(t.title.as_str(), &self.kind),
        };
        hit != self.negate
    }
}

/// Negation: `-t` parses as `t` with the flag set (or fails as `t` does),
/// and a track matches the negated clause exactly when it does not match
/// the clause of `t`.
/// A term without a field searches artist, album and title: before
/// negation it hits a track exactly when the same term restricted to any one
/// of those three fields hits it, so a hit on the album alone (or the artist
/// alone, or the title alone) is enough, and fields outside the three (path,
/// year, ids) are never consulted.
pub proof fn law_fieldless_term_searches_three_fields(c: ClauseView, t: LibraryTrack)
    requires
        c.field is None,
    ensures
        (clause_matches(c, t) != c.negate) <==> ((clause_matches(ClauseView { field: Some(Field::Artist), ..c }, t)
            != c.negate) || (clause_matches(ClauseView { field: Some(Field::Album), ..c }, t) != c.negate)
            || (clause_matches(ClauseView { field: Some(Field::Title), ..c }, t) != c.negate)),
        match_text_spec(t.artist@, c.kind) ==> clause_matches(c, t) != c.negate,
        match_text_spec(t.album@, c.kind) ==> clause_matches(c, t) != c.negate,
        match_text_spec(t.title@, c.kind) ==> clause_matches(c, t) != c.negate,
        !match_text_spec(t.artist@, c.kind) && !match_text_spec(t.album@, c.kind) && !match_text_spec(
            t.title@,
            c.kind,
        ) ==> clause_matches(c, t) == c.negate,
{
}

pub proof fn law_negated_term(s: Seq<char>, t: LibraryTrack)
    requires
        strip_negation(s) == (s, false),
    ensures
        match (parse_term_spec(seq!['-'] + s), parse_term_spec(s)) {
            (Ok(n), Ok(c)) => n == (ClauseView { negate: true, ..c }) && (clause_matches(n, t) <==> !clause_matches(c, t)),
            (Err(a), Err(b)) => a == b,
            _ => false,
        },
{
    reveal_strlit("\\-");
    reveal_strlit("\\^");
    let m = seq!['-'] + s;
    assert(m.drop_first() =~= s);
    assert(m[0] == '-');
    assert("\\-"@[0] == '\\' && "\\^"@[0] == '\\');
    if m.len() >= 2 {
        assert(m.subrange(0, 2)[0] == '-');
    }
    assert(!seq_starts_with(m, "\\-"@));
    assert(!seq_starts_with(m, "\\^"@));
    assert(strip_negation(m) == (s, true));
}

pub open spec fn is_fuzzy(c: ClauseView) -> bool {
    c.kind is Fuzzy
}

/// Keeps, in order, the rows that every fuzzy clause matches (the clauses SQL
/// cannot evaluate).
pub open spec fn passes_fuzzy(cs: Seq<Clause>, t: LibraryTrack) -> bool {
    forall|i: int| 0 <= i < cs.len() && is_fuzzy(#[trigger] cs[i]@) ==> clause_matches(cs[i]@, t)
}

pub open spec fn kept_rows(rows: Seq<LibraryTrack>, cs: Seq<Clause>) -> Seq<LibraryTrack>
    decreases rows.len(),
{
    if rows.len() == 0 {
        Seq::empty()
    } else {
        let p = kept_rows(rows.drop_last(), cs);
        if passes_fuzzy(cs, rows.last()) {
            p.push(rows.last())
        } else {
            p
        }
    }
}

fn passes_fuzzy_exec(cs: &[Clause], t: &LibraryTrack) -> (r: bool)
    ensures
        r == passes_fuzzy(cs@, *t),
{
    let mut i: usize = 0;
    while i < cs.len()
        invariant
            i <= cs@.len(),
            forall|k: int| 0 <= k < i && is_fuzzy(#[trigger] cs@[k]@) ==> clause_matches(cs@[k]@, *t),
        decreases cs@.len() - i,
    {
        if let MatchKind::Fuzzy(_) = &cs[i].kind {
            if !cs[i].matches(t) {
                return false;
            }
        }
        i = i + 1;
    }
    true
}

/// The fuzzy filter keeps exactly the rows every fuzzy clause matches: each
/// kept row is one of the given rows and passes every fuzzy clause, each
/// given row that passes them all is kept, and the kept rows keep their
/// order (a row kept before another came before it).
pub proof fn law_fuzzy_filter_keeps_matching_rows(rows: Seq<LibraryTrack>, cs: Seq<Clause>)
    ensures
        forall|k: int|
            0 <= k < kept_rows(rows, cs).len() ==> rows.contains(#[trigger] kept_rows(rows, cs)[k]) && forall|i: int|
                0 <= i < cs.len() && is_fuzzy(#[trigger] cs[i]@) ==> clause_matches(cs[i]@, kept_rows(rows, cs)[k]),
        forall|j: int|
            0 <= j < rows.len() && (forall|i: int| 0 <= i < cs.len() && is_fuzzy(#[trigger] cs[i]@) ==> clause_matches(
                cs[i]@,
                rows[j],
            )) ==> kept_rows(rows, cs).contains(#[trigger] rows[j]),
        kept_rows(rows, cs).len() <= rows.len(),
    decreases rows.len(),
{
    if rows.len() > 0 {
        let q = rows.drop_last();
        law_fuzzy_filter_keeps_matching_rows(q, cs);
        let p = kept_rows(q, cs);
        let r = kept_rows(rows, cs);
        assert forall|k: int| 0 <= k < r.len() implies rows.contains(#[trigger] r[k]) && forall|i: int|
            0 <= i < cs.len() && is_fuzzy(#[trigger] cs[i]@) ==> clause_matches(cs[i]@, r[k]) by {
            if k < p.len() {
                assert(r[k] == p[k]);
                let j = choose|j: int| 0 <= j < q.len() && q[j] == p[k];
                assert(rows[j] == q[j]);
            } else {
                assert(r[k] == rows.last());
                assert(rows[rows.len() - 1] == rows.last());
                assert(passes_fuzzy(cs, rows.last()));
            }
        }
        assert forall|j: int|
            0 <= j < rows.len() && (forall|i: int| 0 <= i < cs.len() && is_fuzzy(#[trigger] cs[i]@) ==> clause_matches(
                cs[i]@,
                rows[j],
            )) implies r.contains(#[trigger] rows[j]) by {
            if j < rows.len() - 1 {
                assert(q[j] == rows[j]);
                let k = choose|k: int| 0 <= k < p.len() && p[k] == q[j];
                assert(r[k] == p[k]);
            } else {
                assert(passes_fuzzy(cs, rows.last()));
                assert(r[r.len() - 1] == rows.last());
            }
        }
    }
}

/// Drops the rows some fuzzy clause rejects, keeping order.
pub fn retain_fuzzy(rows: Vec<LibraryTrack>, clauses: &[Clause]) -> (r: Vec<LibraryTrack>)
    ensures
        r@ == kept_rows(rows@, clauses@),
{
    let mut out: Vec<LibraryTrack> = Vec::new();
    let mut rows = rows;
    let ghost all = rows@;
    let n = rows.len();
    let mut k: usize = 0;
    assert(all.subrange(0, n as int) =~= all);
    while rows.len() > 0
        invariant
            n == all.len(),
            k + rows@.len() == n,
            rows@ == all.subrange(k as int, n as int),
            out@ == kept_rows(all.subrange(0, k as int), clauses@),
        decreases rows@.len(),
    {
        let t = rows.remove(0);
        assert(t == all[k as int]);
        assert(all.subrange(0, k + 1).drop_last() =~= all.subrange(0, k as int));
        if passes_fuzzy_exec(clauses, &t) {
            out.push(t);
        }
        assert(rows@ =~= all.subrange(k + 1, n as int));
        k = k + 1;
    }
    assert(all.subrange(0, n as int) =~= all);
    out
}

} // verus!

verus! {

// ---------------------------------------------------------------------------
// SQL translation of the non-fuzzy clauses
// ---------------------------------------------------------------------------

/// A bound SQL parameter.
#[derive(Debug)]
pub enum SqlValue {
    Text(String),
    Integer(i64),
}

pub enum SqlValueView {
    Text(Seq<char>),
    Integer(i64),
}

impl View for SqlValue {
    type V = SqlValueView;

    open spec fn view(&self) -> SqlValueView {
        match self {
            SqlValue::Text(s) => SqlValueView::Text(s@),
            SqlValue::Integer(i) => SqlValueView::Integer(*i),
        }
    }
}

pub open spec fn sql_views(v: Seq<SqlValue>) -> Seq<SqlValueView> {
    v.map_values(|x: SqlValue| x@)
}

pub open spec fn is_like_special(c: char) -> bool {
    c == '\\' || c == '%' || c == '_'
}

/// `LIKE` pattern escaping: `\`, `%` and `_` get a `\` in front.
pub open spec fn escape_like_spec(s: Seq<char>) -> Seq<char>
    decreases s.len(),
{
    if s.len() == 0 {
        Seq::empty()
    } else {
        escape_like_spec(s.drop_last()) + if is_like_special(s.last()) {
            seq!['\\', s.last()]
        } else {
            seq![s.last()]
        }
    }
}

pub fn escape_like(s: &str) -> (r: String)
    ensures
        r@ == escape_like_spec(s@),
{
    let cs = chars_of(s);
    let mut out: Vec<char> = Vec::new();
    let mut i: usize = 0;
    while i < cs.len()
        invariant
            cs@ == s@,
            i <= cs@.len(),
            out@ == escape_like_spec(s@.subrange(0, i as int)),
        decreases cs@.len() - i,
    {
        let ghost p = s@.subrange(0, i + 1);
        assert(p.drop_last() =~= s@.subrange(0, i as int));
        let c = cs[i];
        let ghost o = out@;
        if c == '\\' || c == '%' || c == '_' {
            out.push('\\');
        }
        out.push(c);
        assert(out@ =~= escape_like_spec(p));
        i = i + 1;
    }
    assert(s@.subrange(0, cs@.len() as int) =~= s@);
    string_of(&out)
}

/// Per-column predicate for a non-fuzzy comparison (text compared with
/// `lower()`, a NULL column never matching).
pub open spec fn kind_sql_spec(col: Seq<char>, k: KindView) -> (Seq<char>, Seq<SqlValueView>) {
    match k {
        KindView::Substring(s) => (
            col + " IS NOT NULL AND lower("@ + col + ") LIKE '%' || lower(?) || '%' ESCAPE '\\'"@,
            seq![SqlValueView::Text(escape_like_spec(s))],
        ),
        KindView::Exact(s) => (
            col + " IS NOT NULL AND lower("@ + col + ") = lower(?)"@,
            seq![SqlValueView::Text(s)],
        ),
        KindView::Range(lo, hi) => {
            let expr = "CAST("@ + col + " AS INTEGER)"@;
            match (lo, hi) {
                (Some(l), Some(h)) => (
                    col + " IS NOT NULL AND "@ + expr + " BETWEEN ? AND ?"@,
                    seq![SqlValueView::Integer(l), SqlValueView::Integer(h)],
                ),
                (Some(l), None) => (
                    col + " IS NOT NULL AND "@ + expr + " >= ?"@,
                    seq![SqlValueView::Integer(l)],
                ),
                (None, Some(h)) => (
                    col + " IS NOT NULL AND "@ + expr + " <= ?"@,
                    seq![SqlValueView::Integer(h)],
                ),
                (None, None) => ("0"@, Seq::empty()),
            }
        },
        KindView::Fuzzy(_) => ("0"@, Seq::empty()),
    }
}

fn kind_sql(col: &str, kind: &MatchKind) -> (r: (String, Vec<SqlValue>))
    ensures
        r.0@ == kind_sql_spec(col@, kind@).0,
        sql_views(r.1@) == kind_sql_spec(col@, kind@).1,
{
    let mut frag = String::new();
    let mut params: Vec<SqlValue> = Vec::new();
    match kind {
        MatchKind::Substring(s) => {
            frag.append(col);
            frag.append(" IS NOT NULL AND lower(");
            frag.append(col);
            frag.append(") LIKE '%' || lower(?) || '%' ESCAPE '\\'");
            params.push(SqlValue::Text(escape_like(s.as_str())));
        },
        MatchKind::Exact(s) => {
            frag.append(col);
            frag.append(" IS NOT NULL AND lower(");
            frag.append(col);
            frag.append(") = lower(?)");
            params.push(SqlValue::Text(s.clone()));
        },
        MatchKind::Range(lo, hi) => {
            if lo.is_none() && hi.is_none() {
                frag.append("0");
            } else {
                frag.append(col);
                frag.append(" IS NOT NULL AND CAST(");
                frag.append(col);
                frag.append(" AS INTEGER)");
                proof {
                    reveal_strlit(" IS NOT NULL AND CAST(");
                    reveal_strlit(" IS NOT NULL AND ");
                    reveal_strlit("CAST(");
                }
                match (lo, hi) {
                    (Some(l), Some(h)) => {
                        frag.append(" BETWEEN ? AND ?");
                        params.push(SqlValue::Integer(*l));
                        params.push(SqlValue::Integer(*h));
                    },
                    (Some(l), None) => {
                        frag.append(" >= ?");
                        params.push(SqlValue::Integer(*l));
                    },
                    (None, Some(h)) => {
                        frag.append(" <= ?");
                        params.push(SqlValue::Integer(*h));
                    },
                    (None, None) => {},
                }
            }
        },
        MatchKind::Fuzzy(_) => {
            frag.append("0");
        },
    }
    assert(frag@ =~= kind_sql_spec(col@, kind@).0);
    assert(sql_views(params@) =~= kind_sql_spec(col@, kind@).1);
    (frag, params)
}

/// Columns a clause is compared against.
pub open spec fn clause_columns(f: Option<Field>) -> Seq<Seq<char>> {
    match f {
        Some(f) => seq![column_of(f)],
        None => seq!["artist"@, "album"@, "title"@],
    }
}

pub open spec fn frags_of(cols: Seq<Seq<char>>, k: KindView) -> Seq<Seq<char>> {
    cols.map_values(|c: Seq<char>| kind_sql_spec(c, k).0)
}

pub open spec fn params_of(cols: Seq<Seq<char>>, k: KindView) -> Seq<SqlValueView>
    decreases cols.len(),
{
    if cols.len() == 0 {
        Seq::empty()
    } else {
        params_of(cols.drop_last(), k) + kind_sql_spec(cols.last(), k).1
    }
}

/// SQL fragment and parameters for a clause; `None` for a fuzzy clause, which
/// SQL cannot express.
pub open spec fn clause_sql(c: ClauseView) -> Option<(Seq<char>, Seq<SqlValueView>)> {
    if c.kind is Fuzzy {
        None
    } else {
        let cols = clause_columns(c.field);
        let ors = frags_of(cols, c.kind);
        let joined = if ors.len() == 1 {
            ors[0]
        } else {
            "("@ + crate::slskd::join_seqs(ors, " OR "@) + ")"@
        };
        let frag = if c.negate {
            "NOT ("@ + joined + ")"@
        } else {
            joined
        };
        Some((frag, params_of(cols, c.kind)))
    }
}

proof fn lemma_params_one(c: Seq<char>, k: KindView)
    ensures
        params_of(seq![c], k) == kind_sql_spec(c, k).1,
{
    let cols = seq![c];
    assert(cols.drop_last() =~= Seq::<Seq<char>>::empty());
    assert(params_of(Seq::<Seq<char>>::empty(), k) =~= Seq::<SqlValueView>::empty());
    assert(params_of(cols, k) =~= kind_sql_spec(c, k).1);
}

proof fn lemma_params_three(a: Seq<char>, b: Seq<char>, c: Seq<char>, k: KindView)
    ensures
        params_of(seq![a, b, c], k) == kind_sql_spec(a, k).1 + kind_sql_spec(b, k).1
            + kind_sql_spec(c, k).1,
{
    let cols = seq![a, b, c];
    assert(cols.drop_last() =~= seq![a, b]);
    assert(seq![a, b].drop_last() =~= seq![a]);
    lemma_params_one(a, k);
    assert(params_of(seq![a, b], k) =~= kind_sql_spec(a, k).1 + kind_sql_spec(b, k).1);
}

proof fn lemma_join_three(a: Seq<char>, b: Seq<char>, c: Seq<char>, sep: Seq<char>)
    ensures
        crate::slskd::join_seqs(seq![a, b, c], sep) == a + sep + b + sep + c,
{
    assert(seq![a, b, c].drop_last() =~= seq![a, b]);
    assert(seq![a, b].drop_last() =~= seq![a]);
    assert(crate::slskd::join_seqs(seq![a], sep) == a);
    assert(crate::slskd::join_seqs(seq![a, b], sep) == a + sep + b);
}

impl Clause {
    /// SQL fragment plus bound parameters, or `None` for a fuzzy clause.
    pub fn to_sql(&self) -> (r: Option<(String, Vec<SqlValue>)>)
        ensures
            match r {
                Some((f, p)) => clause_sql(self@) == Some((f@, sql_views(p@))),
                None => clause_sql(self@) is None,
            },
    {
        if let MatchKind::Fuzzy(_) = &self.kind {
            return None;
        }
        let mut joined = String::new();
        let mut params: Vec<SqlValue> = Vec::new();
        match self.field {
            Some(f) => {
                let (frag, p) = kind_sql(f.column(), &self.kind);
                joined = frag;
                params = p;
                proof {
                    let cols = clause_columns(self.field);
                    assert(frags_of(cols, self@.kind) =~= seq![frag@]);
                    lemma_params_one(column_of(f), self@.kind);
                }
            },
            None => {
                let (a, pa) = kind_sql("artist", &self.kind);
                let (b, pb) = kind_sql("album", &self.kind);
                let (c, pc) = kind_sql("title", &self.kind);
                joined.append("(");
                joined.append(a.as_str());
                joined.append(" OR ");
                joined.append(b.as_str());
                joined.append(" OR ");
                joined.append(c.as_str());
                joined.append(")");
                let mut pa = pa;
                let mut pb = pb;
                let mut pc = pc;
                let ghost va = sql_views(pa@);
                let ghost vb = sql_views(pb@);
                let ghost vc = sql_views(pc@);
                params.append(&mut pa);
                params.append(&mut pb);
                params.append(&mut pc);
                proof {
                    let cols = clause_columns(self.field);
                    let ors = frags_of(cols, self@.kind);
                    assert(ors =~= seq![a@, b@, c@]);
                    lemma_join_three(a@, b@, c@, " OR "@);
                    reveal_strlit("(");
                    reveal_strlit(")");
                    reveal_strlit(" OR ");
                    assert("("@ + crate::slskd::join_seqs(ors, " OR "@) + ")"@ =~= joined@);
                    lemma_params_three("artist"@, "album"@, "title"@, self@.kind);
                    assert(sql_views(params@) =~= va + vb + vc);
                }
            },
        }
        let frag = if self.negate {
            let mut f = String::new();
            f.append("NOT (");
            f.append(joined.as_str());
            f.append(")");
            f
        } else {
            joined
        };
        Some((frag, params))
    }
}

} // verus!

verus! {

// ---------------------------------------------------------------------------
// Listing
// ---------------------------------------------------------------------------

/// The WHERE fragments and parameters of the clauses SQL can express, in
/// order; fuzzy clauses contribute nothing.
pub open spec fn where_parts(cs: Seq<Clause>) -> (Seq<Seq<char>>, Seq<SqlValueView>)
    decreases cs.len(),
{
    if cs.len() == 0 {
        (Seq::empty(), Seq::empty())
    } else {
        let (fs, ps) = where_parts(cs.drop_last());
        match clause_sql(cs.last()@) {
            Some((f, p)) => (fs.push(f), ps + p),
            None => (fs, ps),
        }
    }
}

/// `SELECT * FROM library_tracks`, then ` WHERE ` and the fragments joined by
/// ` AND ` when there are any, then the listing order (artist, album, disc,
/// track; text case-folded).
pub open spec fn select_sql_spec(cs: Seq<Clause>) -> Seq<char> {
    let fs = where_parts(cs).0;
    "SELECT * FROM library_tracks"@ + (if fs.len() == 0 {
        Seq::empty()
    } else {
        " WHERE "@ + crate::slskd::join_seqs(fs, " AND "@)
    }) + " ORDER BY lower(artist), lower(album), disc_position, track_position"@
}

proof fn lemma_join_push(items: Seq<Seq<char>>, x: Seq<char>, sep: Seq<char>)
    ensures
        crate::slskd::join_seqs(items.push(x), sep) == if items.len() == 0 {
            x
        } else {
            crate::slskd::join_seqs(items, sep) + sep + x
        },
{
    assert(items.push(x).drop_last() =~= items);
    if items.len() == 0 {
        assert(items.push(x)[0] == x);
    }
}

/// The listing query for `query` (all clauses must hold) and its bound
/// parameters; the fuzzy clauses are left to `retain_fuzzy`.
pub fn select_sql(query: &[Clause]) -> (r: (String, Vec<SqlValue>))
    ensures
        r.0@ == select_sql_spec(query@),
        sql_views(r.1@) == where_parts(query@).1,
{
    let mut joined = String::new();
    let mut count: usize = 0;
    let mut params: Vec<SqlValue> = Vec::new();
    let mut i: usize = 0;
    while i < query.len()
        invariant
            i <= query@.len(),
            count == where_parts(query@.subrange(0, i as int)).0.len(),
            count <= i,
            joined@ == crate::slskd::join_seqs(where_parts(query@.subrange(0, i as int)).0, " AND "@),
            sql_views(params@) == where_parts(query@.subrange(0, i as int)).1,
        decreases query@.len() - i,
    {
        assert(query@.subrange(0, i + 1).drop_last() =~= query@.subrange(0, i as int));
        assert(query@.subrange(0, i + 1).last() == query@[i as int]);
        let ghost fs0 = where_parts(query@.subrange(0, i as int)).0;
        match query[i].to_sql() {
            Some((frag, p)) => {
                if count > 0 {
                    joined.append(" AND ");
                }
                joined.append(frag.as_str());
                let ghost pv0 = sql_views(params@);
                let ghost pv = sql_views(p@);
                let mut p = p;
                params.append(&mut p);
                proof {
                    lemma_join_push(fs0, frag@, " AND "@);
                    assert(sql_views(params@) =~= pv0 + pv);
                }
                count = count + 1;
            },
            None => {},
        }
        i = i + 1;
    }
    assert(query@.subrange(0, query@.len() as int) =~= query@);
    let mut sql = String::from_str("SELECT * FROM library_tracks");
    if count > 0 {
        sql.append(" WHERE ");
        sql.append(joined.as_str());
    }
    sql.append(" ORDER BY lower(artist), lower(album), disc_position, track_position");
    (sql, params)
}

// ---------------------------------------------------------------------------
// Edits
// ---------------------------------------------------------------------------

/// Field edits of one track; `None` leaves the field alone.
#[derive(Debug)]
pub struct TrackEdits {
    pub title: Option<String>,
    pub artist: Option<String>,
    pub album: Option<String>,
    pub year: Option<String>,
    pub track: Option<i64>,
    pub disc: Option<i64>,
}

pub struct EditsView {
    pub title: Option<Seq<char>>,
    pub artist: Option<Seq<char>>,
    pub album: Option<Seq<char>>,
    pub year: Option<Seq<char>>,
    pub track: Option<i64>,
    pub disc: Option<i64>,
}

impl View for TrackEdits {
    type V = EditsView;

    open spec fn view(&self) -> EditsView {
        EditsView {
            title: crate::text::opt_view(self.title),
            artist: crate::text::opt_view(self.artist),
            album: crate::text::opt_view(self.album),
            year: crate::text::opt_view(self.year),
            track: self.track,
            disc: self.disc,
        }
    }
}

pub open spec fn no_edits() -> EditsView {
    EditsView { title: None, artist: None, album: None, year: None, track: None, disc: None }
}

impl TrackEdits {
    /// No field is edited.
    pub fn is_empty(&self) -> (r: bool)
        ensures
            r == (self@ == no_edits()),
    {
        self.title.is_none() && self.artist.is_none() && self.album.is_none() && self.year.is_none()
            && self.track.is_none() && self.disc.is_none()
    }
}

/// One `field=value` pair applied to `e`, or the term and reason it is
/// refused for: no `=`, an empty value, a field other than title, artist,
/// album, year, track or disc (compared ASCII-case-insensitively), or a
/// track/disc value that is not an `i64`.
pub open spec fn apply_edit(e: EditsView, pair: Seq<char>) -> Result<EditsView, (Seq<char>, Seq<char>)> {
    match crate::text::split_at_char(pair, '=') {
        None => Err((pair, "expected field=value"@)),
        Some((field, value)) => if value.len() == 0 {
            Err((pair, "empty value"@))
        } else {
            let f = seq_ascii_lower(field);
            if f == "title"@ {
                Ok(EditsView { title: Some(value), ..e })
            } else if f == "artist"@ {
                Ok(EditsView { artist: Some(value), ..e })
            } else if f == "album"@ {
                Ok(EditsView { album: Some(value), ..e })
            } else if f == "year"@ {
                Ok(EditsView { year: Some(value), ..e })
            } else if f == "track"@ || f == "disc"@ {
                match parse_i64_spec(value) {
                    None => Err((pair, "not a number"@)),
                    Some(n) => if f == "track"@ {
                        Ok(EditsView { track: Some(n), ..e })
                    } else {
                        Ok(EditsView { disc: Some(n), ..e })
                    },
                }
            } else {
                Err((pair, "unknown field (title/artist/album/year/track/disc)"@))
            }
        },
    }
}

/// The pairs applied left to right from no edits; the first refused pair
/// decides the error.
pub open spec fn parse_edits_spec(pairs: Seq<Seq<char>>) -> Result<EditsView, (Seq<char>, Seq<char>)>
    decreases pairs.len(),
{
    if pairs.len() == 0 {
        Ok(no_edits())
    } else {
        match parse_edits_spec(pairs.drop_last()) {
            Err(x) => Err(x),
            Ok(e) => apply_edit(e, pairs.last()),
        }
    }
}

/// `str::parse::<i64>` of an edit value, or the query error for the term.
pub fn parse_edit_number(term: &str, value: &str) -> (r: Result<i64, Error>)
    ensures
        match parse_i64_spec(value@) {
            Some(n) => r == Ok::<i64, Error>(n),
            None => r matches Err(Error::QuerySyntax { term: t, reason }) && t@ == term@ && reason@
                == "not a number"@,
        },
{
    match parse_i64(value) {
        Some(n) => Ok(n),
        None => Err(syntax_error(term, "not a number")),
    }
}

/// Parses `field=value` pairs. Editable are exactly the indexed fields that
/// also live in the file's tags: title, artist, album, year, track, disc.
pub fn parse_edits(pairs: &[String]) -> (r: Result<TrackEdits, Error>)
    ensures
        match parse_edits_spec(crate::text::strs_view(pairs@)) {
            Ok(e) => r matches Ok(t) && t@ == e,
            Err((term, reason)) => r matches Err(Error::QuerySyntax { term: t, reason: why })
                && t@ == term && why@ == reason,
        },
{
    let mut edits = TrackEdits { title: None, artist: None, album: None, year: None, track: None, disc: None };
    let mut i: usize = 0;
    while i < pairs.len()
        invariant
            i <= pairs@.len(),
            parse_edits_spec(crate::text::strs_view(pairs@.subrange(0, i as int))) == Ok::<
                EditsView,
                (Seq<char>, Seq<char>),
            >(edits@),
        decreases pairs@.len() - i,
    {
        let ghost sv = crate::text::strs_view(pairs@.subrange(0, i + 1));
        assert(sv.drop_last() =~= crate::text::strs_view(pairs@.subrange(0, i as int)));
        assert(sv.last() == pairs@[i as int]@);
        let pair = pairs[i].as_str();
        let (field, value) = match crate::text::split_char_once(pair, '=') {
            Some(fv) => fv,
            None => {
                proof {
                    lemma_edits_prefix_err(crate::text::strs_view(pairs@), i + 1);
                    assert(crate::text::strs_view(pairs@).subrange(0, i + 1) =~= sv);
                }
                return Err(syntax_error(pair, "expected field=value"));
            },
        };
        if crate::text::char_count(value.as_str()) == 0 {
            proof {
                lemma_edits_prefix_err(crate::text::strs_view(pairs@), i + 1);
                assert(crate::text::strs_view(pairs@).subrange(0, i + 1) =~= sv);
            }
            return Err(syntax_error(pair, "empty value"));
        }
        let f = to_ascii_lowercase(field.as_str());
        if str_eq(f.as_str(), "title") {
            edits.title = Some(value);
        } else if str_eq(f.as_str(), "artist") {
            edits.artist = Some(value);
        } else if str_eq(f.as_str(), "album") {
            edits.album = Some(value);
        } else if str_eq(f.as_str(), "year") {
            edits.year = Some(value);
        } else if str_eq(f.as_str(), "track") || str_eq(f.as_str(), "disc") {
            let is_track = str_eq(f.as_str(), "track");
            match parse_edit_number(pair, value.as_str()) {
                Ok(n) => {
                    if is_track {
                        edits.track = Some(n);
                    } else {
                        edits.disc = Some(n);
                    }
                },
                Err(e) => {
                    proof {
                        lemma_edits_prefix_err(crate::text::strs_view(pairs@), i + 1);
                        assert(crate::text::strs_view(pairs@).subrange(0, i + 1) =~= sv);
                    }
                    return Err(e);
                },
            }
        } else {
            proof {
                lemma_edits_prefix_err(crate::text::strs_view(pairs@), i + 1);
                assert(crate::text::strs_view(pairs@).subrange(0, i + 1) =~= sv);
            }
            return Err(syntax_error(pair, "unknown field (title/artist/album/year/track/disc)"));
        }
        i = i + 1;
    }
    assert(pairs@.subrange(0, pairs@.len() as int) =~= pairs@);
    Ok(edits)
}

proof fn lemma_edits_prefix_err(pairs: Seq<Seq<char>>, e: int)
    requires
        0 <= e <= pairs.len(),
        parse_edits_spec(pairs.subrange(0, e)) is Err,
    ensures
        parse_edits_spec(pairs) == parse_edits_spec(pairs.subrange(0, e)),
    decreases pairs.len() - e,
{
    if e < pairs.len() {
        assert(pairs.subrange(0, e + 1).drop_last() =~= pairs.subrange(0, e));
        lemma_edits_prefix_err(pairs, e + 1);
    } else {
        assert(pairs.subrange(0, e) =~= pairs);
    }
}

} // verus!

verus! {

/// Assignment number `k` of an edit (title, artist, album, year, track,
/// disc, new path), if that one is made.
pub open spec fn assign_piece(e: EditsView, new_path: Option<Seq<char>>, k: int) -> Option<(Seq<char>, SqlValueView)> {
    if k == 0 {
        match e.title { Some(v) => Some(("title"@, SqlValueView::Text(v))), None => None }
    } else if k == 1 {
        match e.artist { Some(v) => Some(("artist"@, SqlValueView::Text(v))), None => None }
    } else if k == 2 {
        match e.album { Some(v) => Some(("album"@, SqlValueView::Text(v))), None => None }
    } else if k == 3 {
        match e.year { Some(v) => Some(("year"@, SqlValueView::Text(v))), None => None }
    } else if k == 4 {
        match e.track { Some(v) => Some(("track_position"@, SqlValueView::Integer(v))), None => None }
    } else if k == 5 {
        match e.disc { Some(v) => Some(("disc_position"@, SqlValueView::Integer(v))), None => None }
    } else {
        match new_path { Some(p) => Some(("path"@, SqlValueView::Text(p))), None => None }
    }
}

pub open spec fn assignments_upto(e: EditsView, new_path: Option<Seq<char>>, k: int) -> Seq<(Seq<char>, SqlValueView)>
    decreases k,
{
    if k <= 0 {
        Seq::empty()
    } else {
        assignments_upto(e, new_path, k - 1) + match assign_piece(e, new_path, k - 1) {
            Some(x) => seq![x],
            None => Seq::empty(),
        }
    }
}

/// The column assignments an edit makes, in order: title, artist, album,
/// year, track, disc, then the new path when the file was renamed.
pub open spec fn edit_assignments(e: EditsView, new_path: Option<Seq<char>>) -> Seq<(Seq<char>, SqlValueView)> {
    assignments_upto(e, new_path, 7)
}

/// `<col> = ?<n>` for each assignment, numbered from 1.
pub open spec fn set_clauses(a: Seq<(Seq<char>, SqlValueView)>) -> Seq<Seq<char>> {
    Seq::new(a.len(), |i: int| a[i].0 + " = ?"@ + crate::text::decimal((i + 1) as nat))
}

/// The UPDATE an edit runs, with its parameters (the id last), or `None`
/// when there is nothing to set.
pub open spec fn edit_sql_spec(id: i64, e: EditsView, new_path: Option<Seq<char>>) -> Option<(Seq<char>, Seq<SqlValueView>)> {
    let a = edit_assignments(e, new_path);
    if a.len() == 0 {
        None
    } else {
        Some((
            "UPDATE library_tracks SET "@ + crate::slskd::join_seqs(set_clauses(a), ", "@)
                + " WHERE id = ?"@ + crate::text::decimal((a.len() + 1) as nat),
            a.map_values(|x: (Seq<char>, SqlValueView)| x.1).push(SqlValueView::Integer(id)),
        ))
    }
}

fn piece_exec(edits: &TrackEdits, new_path: Option<&str>, k: usize) -> (r: Option<(&'static str, SqlValue)>)
    requires
        k < 7,
    ensures
        match assign_piece(edits@, match new_path {
            Some(p) => Some(p@),
            None => None,
        }, k as int) {
            Some((c, v)) => r matches Some((c2, v2)) && c2@ == c && v2@ == v,
            None => r is None,
        },
{
    if k == 0 {
        match &edits.title { Some(v) => Some(("title", SqlValue::Text(v.clone()))), None => None }
    } else if k == 1 {
        match &edits.artist { Some(v) => Some(("artist", SqlValue::Text(v.clone()))), None => None }
    } else if k == 2 {
        match &edits.album { Some(v) => Some(("album", SqlValue::Text(v.clone()))), None => None }
    } else if k == 3 {
        match &edits.year { Some(v) => Some(("year", SqlValue::Text(v.clone()))), None => None }
    } else if k == 4 {
        match edits.track { Some(v) => Some(("track_position", SqlValue::Integer(v))), None => None }
    } else if k == 5 {
        match edits.disc { Some(v) => Some(("disc_position", SqlValue::Integer(v))), None => None }
    } else {
        match new_path { Some(p) => Some(("path", SqlValue::Text(p.to_string()))), None => None }
    }
}

/// The statement that applies `edits` (and `new_path`, when the file was
/// renamed) to row `id`; `None` when there is nothing to change.
pub fn edit_sql(id: i64, edits: &TrackEdits, new_path: Option<&str>) -> (r: Option<(String, Vec<SqlValue>)>)
    ensures
        match edit_sql_spec(id, edits@, match new_path {
            Some(p) => Some(p@),
            None => None,
        }) {
            None => r is None,
            Some((s, ps)) => r matches Some((s2, ps2)) && s2@ == s && sql_views(ps2@) == ps,
        },
{
    let ghost np = match new_path {
        Some(p) => Some(p@),
        None => None,
    };
    let ghost a = edit_assignments(edits@, np);
    let mut cols: Vec<&'static str> = Vec::new();
    let mut vals: Vec<SqlValue> = Vec::new();
    let mut k: usize = 0;
    while k < 7
        invariant
            k <= 7,
            np == (match new_path {
                Some(p) => Some(p@),
                None => None,
            }),
            cols@.len() == vals@.len() == assignments_upto(edits@, np, k as int).len(),
            cols@.len() <= k,
            forall|i: int|
                0 <= i < cols@.len() ==> (#[trigger] cols@[i])@ == assignments_upto(edits@, np, k as int)[i].0
                    && vals@[i]@ == assignments_upto(edits@, np, k as int)[i].1,
        decreases 7 - k,
    {
        let ghost up0 = assignments_upto(edits@, np, k as int);
        let ghost c0 = cols@;
        let ghost vv0 = vals@;
        match piece_exec(edits, new_path, k) {
            Some((c, v)) => {
                cols.push(c);
                vals.push(v);
            },
            None => {},
        }
        proof {
            let up1 = assignments_upto(edits@, np, k + 1);
            assert(up1 == up0 + match assign_piece(edits@, np, k as int) {
                Some(x) => seq![x],
                None => Seq::empty(),
            });
            assert forall|i: int| 0 <= i < cols@.len() implies (#[trigger] cols@[i])@ == up1[i].0
                && vals@[i]@ == up1[i].1 by {
                if i < c0.len() {
                    assert(cols@[i] == c0[i]);
                    assert(vals@[i] == vv0[i]);
                    assert(up1[i] == up0[i]);
                }
            }
        }
        k = k + 1;
    }
    if cols.len() == 0 {
        return None;
    }
    let n = cols.len();
    assert forall|k: int| 0 <= k < a.len() implies (#[trigger] vals@[k])@ == a[k].1 by {
        assert(cols@[k]@ == a[k].0);
    }
    let mut sets = String::new();
    let mut i: usize = 0;
    while i < n
        invariant
            n == cols@.len() == a.len() == vals@.len(),
            n <= 7,
            i <= n,
            forall|k: int| 0 <= k < a.len() ==> (#[trigger] cols@[k])@ == a[k].0,
            forall|k: int| 0 <= k < a.len() ==> (#[trigger] vals@[k])@ == a[k].1,
            sets@ == crate::slskd::join_seqs(set_clauses(a).subrange(0, i as int), ", "@),
        decreases n - i,
    {
        if i > 0 {
            sets.append(", ");
        }
        sets.append(cols[i]);
        sets.append(" = ?");
        let num = crate::text::fmt_u64((i + 1) as u64);
        sets.append(num.as_str());
        proof {
            let sc = set_clauses(a);
            assert(sc.subrange(0, i + 1) =~= sc.subrange(0, i as int).push(sc[i as int]));
            lemma_join_push(sc.subrange(0, i as int), sc[i as int], ", "@);
        }
        i = i + 1;
    }
    assert(set_clauses(a).subrange(0, n as int) =~= set_clauses(a));
    let ghost v0 = vals@;
    assert(sql_views(v0) =~= a.map_values(|x: (Seq<char>, SqlValueView)| x.1));
    vals.push(SqlValue::Integer(id));
    let mut sql = String::from_str("UPDATE library_tracks SET ");
    sql.append(sets.as_str());
    sql.append(" WHERE id = ?");
    let last = crate::text::fmt_u64((n + 1) as u64);
    sql.append(last.as_str());
    assert(sql_views(vals@) =~= a.map_values(|x: (Seq<char>, SqlValueView)| x.1).push(
        SqlValueView::Integer(id),
    ));
    Some((sql, vals))
}

} // verus!

verus! {

// ---------------------------------------------------------------------------
// Renaming an edited track
// ---------------------------------------------------------------------------

/// `DD-DD`: two ASCII digits, a dash, two ASCII digits.
pub open spec fn is_disc_track_head(h: Seq<char>) -> bool {
    &&& h.len() == 5
    &&& crate::text::is_ascii_digit(h[0])
    &&& crate::text::is_ascii_digit(h[1])
    &&& h[2] == '-'
    &&& crate::text::is_ascii_digit(h[3])
    &&& crate::text::is_ascii_digit(h[4])
}

pub open spec fn clamp_disc(d: Option<i64>) -> nat {
    let v: int = match d {
        Some(x) => x as int,
        None => 1,
    };
    if v < 1 {
        1
    } else if v > 99 {
        99
    } else {
        v as nat
    }
}

/// The head a renamed file starts with: `<disc>-<track>` (two digits each)
/// when the current head has that form, else `<track>`.
pub open spec fn scheme_head(head: Seq<char>, disc: Option<i64>, n: i64) -> Seq<char> {
    if is_disc_track_head(head) {
        crate::text::decimal_pad2(clamp_disc(disc)) + "-"@ + crate::text::decimal_pad2(n as nat)
    } else {
        crate::text::decimal_pad2(n as nat)
    }
}

/// The file name the naming scheme gives a track whose file is named
/// `fname` (`<head> - <title>.<ext>`, keeping a `<disc>-<track>` head when
/// the current name has one), or `None` when it cannot be derived (no
/// extension, no track position in 1..=99) or the name already matches.
pub open spec fn planned_name(t: LibraryTrack, fname: Seq<char>) -> Option<Seq<char>> {
    match crate::text::split_at_last_char(fname, '.') {
        None => None,
        Some(parts) => match t.track_position {
            None => None,
            Some(n) => if n <= 0 || n > 99 {
                None
            } else {
                let head = crate::text::before_first(parts.0, " - "@);
                let new_name = scheme_head(head, t.disc_position, n) + " - "@ + crate::import::sanitize_spec(
                    t.title@,
                ) + "."@ + parts.1;
                if new_name == fname {
                    None
                } else {
                    Some(new_name)
                }
            },
        },
    }
}

/// The path a track would have under the naming scheme: its planned file
/// name in the same directory, or `None` when there is no file name or no
/// rename is planned.
pub open spec fn planned_rename_spec(t: LibraryTrack) -> Option<Seq<char>> {
    match crate::paths::path_file_name(t.path@) {
        None => None,
        Some(fname) => match planned_name(t, fname) {
            None => None,
            Some(new_name) => Some(crate::paths::path_with_file_name(t.path@, new_name)),
        },
    }
}

/// The file name `planned_rename` gives its result, if any.
pub open spec fn planned_file_name(t: LibraryTrack) -> Option<Seq<char>> {
    match crate::paths::path_file_name(t.path@) {
        None => None,
        Some(fname) => planned_name(t, fname),
    }
}

proof fn lemma_scheme_head(head: Seq<char>, disc: Option<i64>, n: i64)
    requires
        1 <= n <= 99,
    ensures
        ({
            let h = scheme_head(head, disc, n);
            &&& forall|k: int| 0 <= k < h.len() ==> h[k] != ' ' && h[k] != '/' && h[k] != '.'
            &&& is_disc_track_head(h) == is_disc_track_head(head)
        }),
{
    crate::text::lemma_pad2_digits(n as nat);
    crate::text::lemma_pad2_digits(clamp_disc(disc));
    reveal_strlit("-");
    let h = scheme_head(head, disc, n);
    if is_disc_track_head(head) {
        let a = crate::text::decimal_pad2(clamp_disc(disc));
        let b = crate::text::decimal_pad2(n as nat);
        assert(h =~= a + "-"@ + b);
        assert(h[0] == a[0] && h[1] == a[1] && h[2] == '-' && h[3] == b[0] && h[4] == b[1]);
    }
}

/// Renaming settles: a track whose file already carries the name
/// `planned_rename` gives it (same title, track and disc) is not renamed
/// again. `planned_rename`'s contract gives its result that file name, in
/// the same directory.
pub proof fn law_rename_settles(t: LibraryTrack, t2: LibraryTrack)
    requires
        t2.track_position == t.track_position,
        t2.disc_position == t.disc_position,
        t2.title@ == t.title@,
        planned_file_name(t) is Some,
        crate::paths::path_file_name(t2.path@) == planned_file_name(t),
    ensures
        planned_rename_spec(t2) is None,
{
    reveal_strlit(" - ");
    reveal_strlit(".");
    let f = crate::paths::path_file_name(t.path@)->0;
    let parts = crate::text::split_at_last_char(f, '.')->0;
    let n = t.track_position->0;
    let head = crate::text::before_first(parts.0, " - "@);
    let h = scheme_head(head, t.disc_position, n);
    let sname = crate::import::sanitize_spec(t.title@);
    let ext = parts.1;
    let nn = h + " - "@ + sname + "."@ + ext;
    assert(planned_file_name(t) == Some(nn));
    lemma_scheme_head(head, t.disc_position, n);
    // the last `.` of the new name is the one before the extension
    assert(f.contains('.'));
    crate::text::lemma_last_char_exists(f, '.');
    let i = choose|i: int| crate::text::is_last_char(f, '.', i);
    assert(ext =~= f.subrange(i + 1, f.len() as int));
    let stem2 = h + " - "@ + sname;
    let dot = stem2.len() as int;
    assert(nn =~= stem2 + "."@ + ext);
    assert(crate::text::is_last_char(nn, '.', dot)) by {
        assert forall|k: int| dot < k < nn.len() implies nn[k] != '.' by {
            assert(nn[k] == f[i + 1 + (k - dot - 1)]);
        }
    }
    let j = choose|j: int| crate::text::is_last_char(nn, '.', j);
    crate::text::lemma_last_char_unique(nn, '.', dot, j);
    assert(nn.subrange(0, dot) =~= stem2);
    assert(nn.subrange(dot + 1, nn.len() as int) =~= ext);
    // the new head is everything before the first ` - `
    let hl = h.len() as int;
    assert(crate::text::occurs_at(stem2, " - "@, hl)) by {
        assert(stem2.subrange(hl, hl + 3) =~= " - "@);
    }
    assert(crate::text::first_occurrence(stem2, " - "@, hl)) by {
        assert forall|k: int| 0 <= k < hl implies !crate::text::occurs_at(stem2, " - "@, k) by {
            if crate::text::occurs_at(stem2, " - "@, k) {
                assert(stem2.subrange(k, k + 3)[0] == stem2[k]);
                assert(stem2[k] == h[k]);
            }
        }
    }
    let q = choose|q: int| crate::text::first_occurrence(stem2, " - "@, q);
    crate::text::lemma_first_occurrence_unique(stem2, " - "@, hl, q);
    assert(crate::text::before_first(stem2, " - "@) =~= h);
    assert(scheme_head(h, t2.disc_position, n) == h);
    assert(planned_name(t2, nn) is None);
}

fn is_disc_track_head_exec(h: &str) -> (r: bool)
    ensures
        r == is_disc_track_head(h@),
{
    let cs = chars_of(h);
    cs.len() == 5 && crate::text::is_digit_char(cs[0]) && crate::text::is_digit_char(cs[1]) && cs[2]
        == '-' && crate::text::is_digit_char(cs[3]) && crate::text::is_digit_char(cs[4])
}

/// Filename the track would carry under the naming scheme, as a full path in
/// the same directory; `None` when it cannot be derived or already matches.
pub fn planned_rename(track: &LibraryTrack) -> (r: Option<String>)
    ensures
        crate::text::opt_view(r) == planned_rename_spec(*track),
        r matches Some(p) ==> crate::paths::path_file_name(p@) == planned_file_name(*track)
            && crate::paths::path_parent(p@) == crate::paths::path_parent(track.path@),
{
    let fname = match crate::paths::file_name(track.path.as_str()) {
        Some(f) => f,
        None => return None,
    };
    let (stem, ext) = match crate::text::rsplit_char_once(fname.as_str(), '.') {
        Some(p) => p,
        None => return None,
    };
    let n = match track.track_position {
        Some(n) => n,
        None => return None,
    };
    if n <= 0 || n > 99 {
        return None;
    }
    let head = crate::text::before_first_str(stem.as_str(), " - ");
    let mut new_name = if is_disc_track_head_exec(head.as_str()) {
        let d: i64 = match track.disc_position {
            Some(x) => x,
            None => 1,
        };
        let dc: u64 = if d < 1 {
            1
        } else if d > 99 {
            99
        } else {
            d as u64
        };
        let mut h = crate::text::fmt_u64_pad2(dc);
        h.append("-");
        let t = crate::text::fmt_u64_pad2(n as u64);
        h.append(t.as_str());
        h
    } else {
        crate::text::fmt_u64_pad2(n as u64)
    };
    new_name.append(" - ");
    let title = crate::import::sanitize(track.title.as_str());
    new_name.append(title.as_str());
    new_name.append(".");
    new_name.append(ext.as_str());
    if str_eq(new_name.as_str(), fname.as_str()) {
        return None;
    }
    proof {
        reveal_strlit(" - ");
        reveal_strlit(".");
        reveal_strlit("..");
        lemma_scheme_head(crate::text::before_first(stem@, " - "@), track.disc_position, n);
        crate::import::law_sanitized_name_is_safe(track.title@);
        let h = scheme_head(crate::text::before_first(stem@, " - "@), track.disc_position, n);
        let sn = crate::import::sanitize_spec(track.title@);
        let nm = new_name@;
        assert(nm =~= h + " - "@ + sn + "."@ + ext@);
        assert(!nm.contains('/')) by {
            if nm.contains('/') {
                let k = choose|k: int| 0 <= k < nm.len() && nm[k] == '/';
                let a = h.len() as int;
                let b = a + 3;
                let c = b + sn.len();
                if k < a {
                    assert(h[k] == '/');
                } else if k < b {
                    assert(" - "@[k - a] == '/');
                } else if k < c {
                    assert(sn[k - b] == '/');
                    assert(crate::import::is_reserved(sn[k - b]));
                } else if k == c {
                    assert(nm[k] == '.');
                } else {
                    let e = k - c - 1;
                    assert(ext@[e] == '/');
                    assert(fname@.contains('.'));
                    crate::text::lemma_last_char_exists(fname@, '.');
                    let i = choose|i: int| crate::text::is_last_char(fname@, '.', i);
                    assert(ext@ == fname@.subrange(i + 1, fname@.len() as int));
                    assert(crate::paths::plain_name(fname@));
                    assert(fname@[i + 1 + e] == '/');
                }
            }
        }
        assert(crate::paths::plain_name(nm));
    }
    Some(crate::paths::with_file_name(track.path.as_str(), new_name.as_str()))
}

/// How a file's tags are rewritten: Vorbis comments directly for FLAC and
/// Opus, the primary tag through the generic interface otherwise.
#[derive(PartialEq, Eq, Structural)]
pub enum TagFormat {
    Flac,
    Opus,
    Other,
}

/// The rewrite path for a file, by its lower-cased extension.
pub fn tag_format(path: &str) -> (r: TagFormat)
    ensures
        ({
            let e = match crate::paths::path_extension(path@) {
                Some(e) => seq_ascii_lower(e),
                None => Seq::empty(),
            };
            r == if e == "flac"@ {
                TagFormat::Flac
            } else if e == "opus"@ {
                TagFormat::Opus
            } else {
                TagFormat::Other
            }
        }),
{
    let e = match crate::paths::extension(path) {
        Some(e) => to_ascii_lowercase(e.as_str()),
        None => String::new(),
    };
    if str_eq(e.as_str(), "flac") {
        TagFormat::Flac
    } else if str_eq(e.as_str(), "opus") {
        TagFormat::Opus
    } else {
        TagFormat::Other
    }
}

/// The tag value of an edited track or disc number: negatives become 0, the
/// rest wraps to 32 bits as `as u32` does.
pub fn tag_number(v: i64) -> (r: u32)
    ensures
        r == (if v < 0 {
            0
        } else {
            v as u32
        }),
{
    if v < 0 {
        0
    } else {
        #[verifier::truncate]
        (v as u32)
    }
}

} // verus!
