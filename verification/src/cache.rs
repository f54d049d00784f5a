//! Naming and freshness rules of the shared disk cache (bodies keyed by a
//! URL hash, with a time-to-live).

use vstd::prelude::*;
use vstd::string::StringSliceAdditionalSpecFns;
use crate::paths::{join, path_join};
use crate::text::{chars_of, push_char, string_of};

verus! {

pub const FNV_OFFSET: u64 = 0xcbf2_9ce4_8422_2325;

pub const FNV_PRIME: u64 = 0x0000_0100_0000_01b3;

/// FNV-1a, 64-bit, over `bytes`.
pub open spec fn fnv1a_spec(bytes: Seq<u8>) -> u64
    decreases bytes.len(),
{
    if bytes.len() == 0 {
        FNV_OFFSET
    } else {
        (fnv1a_spec(bytes.drop_last()) ^ (bytes.last() as u64)).wrapping_mul(FNV_PRIME)
    }
}

/// FNV-1a 64-bit: a fixed algorithm, so cache file names stay stable across
/// Rust versions and platforms.
pub fn fnv1a(bytes: &[u8]) -> (h: u64)
    ensures
        h == fnv1a_spec(bytes@),
{
    let mut hash: u64 = FNV_OFFSET;
    let mut i: usize = 0;
    while i < bytes.len()
        invariant
            i <= bytes@.len(),
            hash == fnv1a_spec(bytes@.subrange(0, i as int)),
        decreases bytes@.len() - i,
    {
        assert(bytes@.subrange(0, i + 1).drop_last() =~= bytes@.subrange(0, i as int));
        hash = (hash ^ (bytes[i] as u64)).wrapping_mul(FNV_PRIME);
        i = i + 1;
    }
    assert(bytes@.subrange(0, bytes@.len() as int) =~= bytes@);
    hash
}

pub open spec fn hex_lower(d: int) -> char {
    if d < 10 {
        ((d + 48) as u32) as char
    } else {
        ((d + 87) as u32) as char
    }
}

/// The last `k` hexadecimal digits of `n`, lower-case, most significant
/// first (`format!("{:016x}", n)` for `k == 16`).
pub open spec fn hex_digits(n: nat, k: nat) -> Seq<char>
    decreases k,
{
    if k == 0 {
        Seq::empty()
    } else {
        hex_digits(n / 16, (k - 1) as nat).push(hex_lower((n % 16) as int))
    }
}

/// `format!("{:016x}", n)`.
pub fn hex16(n: u64) -> (r: String)
    ensures
        r@ == hex_digits(n as nat, 16),
{
    let mut digits: Vec<char> = Vec::new();
    let mut cur: u64 = n;
    let mut k: usize = 0;
    while k < 16
        invariant
            k <= 16,
            hex_digits(n as nat, 16) == hex_digits(cur as nat, (16 - k) as nat) + digits@,
        decreases 16 - k,
    {
        let d = (cur % 16) as u8;
        let c = if d < 10 { (d + 48) as char } else { (d + 87) as char };
        let ghost old_digits = digits@;
        digits.insert(0, c);
        assert(hex_digits(cur as nat, (16 - k) as nat) == hex_digits((cur / 16) as nat, (16 - k - 1) as nat).push(
            hex_lower((cur % 16) as int),
        ));
        assert(digits@ =~= seq![c] + old_digits);
        assert(hex_digits((cur / 16) as nat, (16 - k - 1) as nat).push(hex_lower((cur % 16) as int)) + old_digits
            =~= hex_digits((cur / 16) as nat, (16 - k - 1) as nat) + digits@);
        cur = cur / 16;
        k = k + 1;
    }
    assert(hex_digits(cur as nat, 0) =~= Seq::<char>::empty());
    assert(digits@ =~= hex_digits(n as nat, 16));
    string_of(&digits)
}

pub open spec fn ascii_alnum_only(s: Seq<char>) -> Seq<char>
    decreases s.len(),
{
    if s.len() == 0 {
        Seq::empty()
    } else {
        ascii_alnum_only(s.drop_last()) + if crate::text::is_ascii_alnum(s.last()) {
            seq![s.last()]
        } else {
            Seq::empty()
        }
    }
}

/// The readable part of a cache file name: the key's ASCII letters and
/// digits, at most 40 of them.
pub open spec fn slug_spec(key: Seq<char>) -> Seq<char> {
    let a = ascii_alnum_only(key);
    if a.len() <= 40 {
        a
    } else {
        a.subrange(0, 40)
    }
}

fn slug(key: &str) -> (r: String)
    ensures
        r@ == slug_spec(key@),
{
    let cs = chars_of(key);
    let mut out: Vec<char> = Vec::new();
    let mut i: usize = 0;
    while i < cs.len()
        invariant
            cs@ == key@,
            i <= cs@.len(),
            out@ == ascii_alnum_only(key@.subrange(0, i as int)),
        decreases cs@.len() - i,
    {
        assert(key@.subrange(0, i + 1).drop_last() =~= key@.subrange(0, i as int));
        let c = cs[i];
        if ('a' <= c && c <= 'z') || ('A' <= c && c <= 'Z') || ('0' <= c && c <= '9') {
            out.push(c);
        }
        assert(out@ =~= ascii_alnum_only(key@.subrange(0, i + 1)));
        i = i + 1;
    }
    assert(key@.subrange(0, cs@.len() as int) =~= key@);
    if out.len() <= 40 {
        string_of(&out)
    } else {
        string_of(crate::text::slice_range(&out, 0, 40))
    }
}

/// The user's cache directory: `$XDG_CACHE_HOME` when set, else
/// `$HOME/.cache` (with `.` for an unset `HOME`).
pub open spec fn cache_home_spec(xdg_cache_home: Option<Seq<char>>, home: Option<Seq<char>>) -> Seq<char> {
    match xdg_cache_home {
        Some(x) => x,
        None => path_join(
            match home {
                Some(h) => h,
                None => "."@,
            },
            ".cache"@,
        ),
    }
}

/// The default directory of the cache named `sub`:
/// `<cache home>/mimport/<sub>`, from the values of `XDG_CACHE_HOME` and
/// `HOME` (`None` where unset).
pub fn cache_dir_default(xdg_cache_home: &Option<String>, home: &Option<String>, sub: &str) -> (r: String)
    ensures
        r@ == path_join(
            path_join(cache_home_spec(crate::text::opt_view(*xdg_cache_home), crate::text::opt_view(*home)), "mimport"@),
            sub@,
        ),
{
    let base = match xdg_cache_home {
        Some(x) => x.clone(),
        None => match home {
            Some(h) => join(h.as_str(), ".cache"),
            None => join(".", ".cache"),
        },
    };
    let app = join(base.as_str(), "mimport");
    join(app.as_str(), sub)
}

/// A cache directory whose entries live `ttl_secs` seconds.
pub struct DiskCache {
    pub dir: String,
    pub ttl_secs: u64,
}

/// The file name of a key: `<slug>-<fnv1a of its UTF-8 bytes, 16 hex>.json`.
pub open spec fn entry_name(key: &str) -> Seq<char> {
    slug_spec(key@) + seq!['-'] + hex_digits(fnv1a_spec(key.spec_bytes()) as nat, 16) + ".json"@
}

/// An entry of age `secs` seconds plus `nanos` nanoseconds has outlived a
/// time-to-live of `ttl` seconds.
pub open spec fn expired(secs: u64, nanos: u32, ttl: u64) -> bool {
    secs > ttl || (secs == ttl && nanos > 0)
}

/// The name of the file `put` writes before renaming it into place.
pub open spec fn staging_name(key: &str, pid: u32) -> Seq<char> {
    "."@ + entry_name(key) + "."@ + crate::text::decimal(pid as nat) + ".tmp"@
}

fn entry_file_name(key: &str) -> (name: String)
    ensures
        name@ == entry_name(key),
{
    let h = fnv1a(key.as_bytes());
    let mut name = slug(key);
    push_char(&mut name, '-');
    let hx = hex16(h);
    name.append(hx.as_str());
    name.append(".json");
    assert(name@ =~= entry_name(key));
    name
}

/// Put then get: `put` writes a body under its staging name and renames it
/// onto `path_for(key)`, which is the very file `get` reads for that key
/// (the path depends on the directory and the key alone), and the staging
/// file never has the entry's name, so only the rename publishes the body.
/// `get` then serves what it reads exactly while the file's age has not
/// passed the time-to-live, to the nanosecond.
pub proof fn law_put_then_get(c: DiskCache, key: &str, pid: u32, secs: u64, nanos: u32)
    requires
        nanos < 1_000_000_000,
    ensures
        staging_name(key, pid) != entry_name(key),
        !expired(secs, nanos, c.ttl_secs) <==> secs * 1_000_000_000 + nanos <= c.ttl_secs * 1_000_000_000,
{
    reveal_strlit(".json");
    reveal_strlit(".tmp");
    let s = staging_name(key, pid);
    let e = entry_name(key);
    if s == e {
        assert(s[s.len() - 1] == 'p');
        assert(e[e.len() - 1] == 'n');
    }
    assert(!expired(secs, nanos, c.ttl_secs) <==> secs * 1_000_000_000 + nanos <= c.ttl_secs * 1_000_000_000)
        by (nonlinear_arith)
        requires
            nanos < 1_000_000_000,
            expired(secs, nanos, c.ttl_secs) == (secs > c.ttl_secs || (secs == c.ttl_secs && nanos > 0)),
    ;
}

impl DiskCache {
    pub fn new(dir: String, ttl_secs: u64) -> (c: DiskCache)
        ensures
            c.dir@ == dir@,
            c.ttl_secs == ttl_secs,
    {
        DiskCache { dir, ttl_secs }
    }

    /// Where the body for `key` is stored.
    pub fn path_for(&self, key: &str) -> (p: String)
        ensures
            p@ == path_join(self.dir@, entry_name(key)),
    {
        let name = entry_file_name(key);
        join(self.dir.as_str(), name.as_str())
    }

    /// Where `put` first writes the body for `key` (process `pid`), before
    /// renaming it onto `path_for(key)`: `.<entry name>.<pid>.tmp` in the
    /// cache directory.
    pub fn staging_path(&self, key: &str, pid: u32) -> (p: String)
        ensures
            p@ == path_join(self.dir@, staging_name(key, pid)),
    {
        let mut name = String::from_str(".");
        let e = entry_file_name(key);
        name.append(e.as_str());
        name.append(".");
        let d = crate::text::fmt_u64(pid as u64);
        name.append(d.as_str());
        name.append(".tmp");
        assert(name@ =~= staging_name(key, pid));
        join(self.dir.as_str(), name.as_str())
    }

    /// An entry of this age may still be served.
    pub fn is_fresh(&self, age_secs: u64, age_nanos: u32) -> (r: bool)
        ensures
            r == !expired(age_secs, age_nanos, self.ttl_secs),
    {
        !(age_secs > self.ttl_secs || (age_secs == self.ttl_secs && age_nanos > 0))
    }
}

} // verus!
