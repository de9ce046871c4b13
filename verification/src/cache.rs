//! Where fetched artifacts are cached and for how long they stay fresh.
use vstd::prelude::*;

use crate::error::Arxiv2MdError;
use crate::model::{ArxivId, CachePolicy};
use crate::id::{id_char, is_arxiv_id, lemma_id_chars};
use crate::text::{chars_of, push_all, string_of};

verus! {

broadcast use vstd::string::group_string_axioms;

/// How long, in seconds, artifacts of an identifier without a version stay
/// fresh: one day.
pub const VERSIONLESS_TTL_SECS: u64 = 86400;

/// `s[i..]` with each `/` written `__`.
pub open spec fn sanitize_from(s: Seq<char>, i: int) -> Seq<char>
    decreases s.len() - i,
{
    if i < 0 || i >= s.len() {
        Seq::empty()
    } else if s[i] == '/' {
        seq!['_', '_'] + sanitize_from(s, i + 1)
    } else {
        seq![s[i]] + sanitize_from(s, i + 1)
    }
}

/// A cache key for an identifier: its `/` replaced by `__`.
pub fn sanitize_key(value: &str) -> (r: String)
    ensures
        r@ == sanitize_from(value@, 0),
{
    let v = chars_of(value);
    let mut out: Vec<char> = Vec::new();
    let mut i: usize = 0;
    while i < v.len()
        invariant
            i <= v.len(),
            out@ + sanitize_from(v@, i as int) == sanitize_from(v@, 0),
        decreases v.len() - i,
    {
        let ghost before = out@;
        if v[i] == '/' {
            out.push('_');
            out.push('_');
            assert(out@ + sanitize_from(v@, i + 1) =~= before + (seq!['_', '_']
                + sanitize_from(v@, i + 1)));
        } else {
            out.push(v[i]);
            assert(out@ + sanitize_from(v@, i + 1) =~= before + (seq![v@[i as int]]
                + sanitize_from(v@, i + 1)));
        }
        i = i + 1;
    }
    assert(out@ + Seq::<char>::empty() =~= out@);
    string_of(out.as_slice())
}

/// The separator of path components on this machine,
/// `std::path::MAIN_SEPARATOR`: `/` on Unix and `\\` on Windows, as std
/// documents it. Which of the two it is depends on the platform.
#[verifier::external_body]
fn main_separator() -> (c: char)
    ensures
        c == '/' || c == '\\',
{
    std::path::MAIN_SEPARATOR
}

/// `c` ends a path component when `sep` is the platform separator (`/` is
/// one on every platform).
pub open spec fn is_separator(c: char, sep: char) -> bool {
    c == '/' || c == sep
}

/// A relative path `name` (holding no separator) appended to the directory
/// `dir`, `sep` being the platform separator (`Path::join`; drive prefixes
/// such as `C:` are not modelled).
pub open spec fn join_path(dir: Seq<char>, name: Seq<char>, sep: char) -> Seq<char> {
    if dir.len() == 0 {
        name
    } else if is_separator(dir.last(), sep) {
        dir + name
    } else {
        dir + seq![sep] + name
    }
}

pub fn join_path_exec(dir: &str, name: &str, sep: char) -> (r: String)
    ensures
        r@ == join_path(dir@, name@, sep),
{
    let d = chars_of(dir);
    let n = chars_of(name);
    let mut out: Vec<char> = Vec::new();
    push_all(&mut out, d.as_slice());
    if d.len() > 0 && !(d[d.len() - 1] == '/' || d[d.len() - 1] == sep) {
        out.push(sep);
    }
    push_all(&mut out, n.as_slice());
    assert(d.len() == 0 ==> out@ =~= n@);
    string_of(out.as_slice())
}

/// Whether an identifier names a fixed version, whose artifacts never
/// change.
pub open spec fn names_version(id: ArxivId) -> bool {
    id.versioned_input || id.version is Some
}

/// The cache policy of an identifier under the cache directory `base`.
pub open spec fn policy_spec(
    id: ArxivId,
    base: Seq<char>,
    sep: char,
    refresh: bool,
    p: CachePolicy,
) -> bool {
    &&& p.dir@ == join_path(base, sanitize_from(id.normalized@, 0), sep)
    &&& p.ttl_secs == if names_version(id) {
        None
    } else {
        Some(VERSIONLESS_TTL_SECS)
    }
    &&& p.refresh == refresh
}

/// The cache policy of an identifier under the cache directory `base`:
/// artifacts go to a directory named after the identifier, and expire
/// after a day unless the identifier names a version.
pub fn policy_in(id: &ArxivId, base: &str, sep: char, refresh: bool) -> (r: CachePolicy)
    ensures
        policy_spec(*id, base@, sep, refresh, r),
{
    let key = sanitize_key(id.normalized.as_str());
    CachePolicy {
        dir: join_path_exec(base, key.as_str(), sep),
        ttl_secs: if id.versioned_input || id.version.is_some() {
            None
        } else {
            Some(VERSIONLESS_TTL_SECS)
        },
        refresh,
    }
}

/// The platform cache directory of an application (`ProjectDirs::from`,
/// then `cache_dir`), `None` when it cannot be determined or is not valid
/// UTF-8. It depends on the environment, so nothing is stated about it.
#[verifier::external_body]
fn project_cache_dir(qualifier: &str, organization: &str, application: &str) -> Option<String> {
    let project = directories::ProjectDirs::from(qualifier, organization, application)?;
    project.cache_dir().to_str().map(|dir| dir.to_owned())
}

/// The qualifier, organization and application under which the platform
/// cache directory is looked up.
pub fn cache_project_names() -> (r: (String, String, String))
    ensures
        r.0@ == "org"@,
        r.1@ == "alex"@,
        r.2@ == "arxiv2md"@,
{
    (String::from_str("org"), String::from_str("alex"), String::from_str("arxiv2md"))
}

/// The cache policy of an identifier: under `override_dir` when given,
/// else under the platform cache directory of `arxiv2md` (see
/// `cache_project_names`), with the platform's path separator.
pub fn build_policy(id: &ArxivId, override_dir: Option<String>, refresh: bool) -> (r: Result<
    CachePolicy,
    Arxiv2MdError,
>)
    ensures
        override_dir matches Some(dir) ==> r matches Ok(p) && exists|sep: char|
            (sep == '/' || sep == '\\') && policy_spec(*id, dir@, sep, refresh, p),
        r matches Ok(p) ==> exists|base: Seq<char>, sep: char|
            (sep == '/' || sep == '\\') && policy_spec(*id, base, sep, refresh, p),
        r matches Err(e) ==> override_dir is None && (e matches Arxiv2MdError::Cache(a, b) && a@
            == "project dirs"@ && b@ == "could not resolve cache dir"@),
{
    let base = match override_dir {
        Some(path) => path,
        None => {
            let (qualifier, organization, application) = cache_project_names();
            match project_cache_dir(qualifier.as_str(), organization.as_str(), application.as_str()) {
                Some(dir) => dir,
                None => {
                    return Err(
                        Arxiv2MdError::Cache(
                            String::from_str("project dirs"),
                            String::from_str("could not resolve cache dir"),
                        ),
                    );
                },
            }
        },
    };
    let sep = main_separator();
    Ok(policy_in(id, base.as_str(), sep, refresh))
}

/// Whether a cached file may be used: not when refreshing or when it does
/// not exist; always when it never expires; otherwise when its age (in
/// nanoseconds) is at most the time to live.
pub open spec fn fresh_spec(refresh: bool, exists: bool, ttl_secs: Option<u64>, age_nanos: u128) -> bool {
    if refresh || !exists {
        false
    } else {
        match ttl_secs {
            None => true,
            Some(t) => age_nanos <= t * 1_000_000_000,
        }
    }
}

/// The freshness decision of a cached file, given what the file system and
/// the clock say about it.
pub fn is_fresh(refresh: bool, exists: bool, ttl_secs: Option<u64>, age_nanos: u128) -> (b: bool)
    ensures
        b == fresh_spec(refresh, exists, ttl_secs, age_nanos),
{
    if refresh || !exists {
        return false;
    }
    match ttl_secs {
        None => true,
        Some(t) => {
            let limit: u128 = (t as u128) * 1_000_000_000u128;
            age_nanos <= limit
        },
    }
}

// ------------------------------------------------------------------- laws

/// With `--refresh` no cached file is used, whatever it is.
pub proof fn law_refresh_bypasses_cache(exists: bool, ttl_secs: Option<u64>, age_nanos: u128)
    ensures
        !fresh_spec(true, exists, ttl_secs, age_nanos),
{
}

/// The artifacts of an identifier that names a version never expire: once
/// cached they are used, however old, unless refreshing.
pub proof fn law_versioned_artifacts_never_expire(
    id: ArxivId,
    base: Seq<char>,
    sep: char,
    p: CachePolicy,
    age_nanos: u128,
)
    requires
        policy_spec(id, base, sep, false, p),
        names_version(id),
    ensures
        fresh_spec(p.refresh, true, p.ttl_secs, age_nanos),
{
}

/// The artifacts of an identifier without a version are used for a day
/// and no longer.
pub proof fn law_versionless_artifacts_last_a_day(
    id: ArxivId,
    base: Seq<char>,
    sep: char,
    p: CachePolicy,
    age_nanos: u128,
)
    requires
        policy_spec(id, base, sep, false, p),
        !names_version(id),
    ensures
        fresh_spec(p.refresh, true, p.ttl_secs, age_nanos) <==> age_nanos <= 86_400_000_000_000,
{
}

/// A cache key read back: each `__` taken as the `/` it stands for.
pub open spec fn desanitize(t: Seq<char>) -> Seq<char>
    decreases t.len(),
{
    if t.len() == 0 {
        Seq::empty()
    } else if t.len() >= 2 && t[0] == '_' && t[1] == '_' {
        seq!['/'] + desanitize(t.subrange(2, t.len() as int))
    } else {
        seq![t[0]] + desanitize(t.drop_first())
    }
}

proof fn lemma_desanitize(s: Seq<char>, i: int)
    requires
        0 <= i <= s.len(),
        forall|k: int| 0 <= k < s.len() ==> #[trigger] s[k] != '_',
    ensures
        desanitize(sanitize_from(s, i)) == s.subrange(i, s.len() as int),
        forall|k: int| 0 <= k < sanitize_from(s, i).len() ==> #[trigger] sanitize_from(s, i)[k] != '/',
    decreases s.len() - i,
{
    if i < s.len() {
        lemma_desanitize(s, i + 1);
        let rest = sanitize_from(s, i + 1);
        if s[i] == '/' {
            let t = seq!['_', '_'] + rest;
            assert(t.subrange(2, t.len() as int) =~= rest);
            assert(forall|k: int| 2 <= k < t.len() ==> t[k] == rest[k - 2]);
        } else {
            let t = seq![s[i]] + rest;
            assert(t.drop_first() =~= rest);
            assert(forall|k: int| 1 <= k < t.len() ==> t[k] == rest[k - 1]);
        }
        assert(s.subrange(i, s.len() as int) =~= seq![s[i]] + s.subrange(i + 1, s.len() as int));
    } else {
        assert(s.subrange(i, s.len() as int) =~= Seq::<char>::empty());
    }
}

proof fn lemma_id_has_no_underscore(t: Seq<char>)
    requires
        is_arxiv_id(t),
    ensures
        forall|k: int| 0 <= k < t.len() ==> #[trigger] t[k] != '_',
{
    lemma_id_chars(t);
    assert forall|k: int| 0 <= k < t.len() implies #[trigger] t[k] != '_' by {
        assert(id_char(t[k]));
        assert(!id_char('_'));
    }
}

/// Distinct identifiers get distinct cache directories: the cache key of
/// an identifier holds no `/`, and two identifiers with the same key are
/// the same.
pub proof fn law_cache_key_injective(a: Seq<char>, b: Seq<char>)
    requires
        is_arxiv_id(a),
        is_arxiv_id(b),
    ensures
        forall|k: int| 0 <= k < sanitize_from(a, 0).len() ==> #[trigger] sanitize_from(a, 0)[k]
            != '/',
        sanitize_from(a, 0) == sanitize_from(b, 0) ==> a == b,
{
    lemma_id_has_no_underscore(a);
    lemma_id_has_no_underscore(b);
    lemma_desanitize(a, 0);
    lemma_desanitize(b, 0);
    assert(a.subrange(0, a.len() as int) =~= a);
    assert(b.subrange(0, b.len() as int) =~= b);
}

} // verus!

