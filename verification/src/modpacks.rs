//! Modrinth `.mrpack` import rules: path and download-host validation, the
//! pack metadata checks, hash checks, override extraction targets, and the
//! instance name a pack gets.
use crate::archive::{
    archive_entry, entry_data, entry_reads, io_error_text, spec_zip_entries, spec_zip_read, zip_entry_bytes, zip_entry_names,
    zip_error_text, zip_open,
};
use crate::digest::{sha1_matches, sha512_matches, spec_sha1, spec_sha512};
use crate::instances::{is_valid_instance_name, valid_instance_name};
use crate::install::{
    parts_stay_below, path_components, spec_path_components, stays_below, text_guarded_rel,
};
use crate::text::{
    char_utf8_width, char_width, contains_str, dec_digits, decimal, ends_with_char, find_from,
    has_infix, has_prefix, hex_chars, is_alphanumeric, lemma_utf8_len_concat,
    lemma_utf8_len_take_step, matches_at, occurs_at, spec_is_alphanumeric, spec_to_lowercase,
    starts_with, starts_with_char, str_eq, string_push, utf8_len, has_suffix, ends_with,
};
use vstd::prelude::*;
use vstd::utf8::encode_utf8;

verus! {

/// Result of a pack import.
#[derive(Debug, Clone)]
pub struct ImportedPack {
    pub instance: String,
    pub files: usize,
}

/// Hosts pack files may be downloaded from (and their subdomains).
pub const ALLOWED_HOSTS: [&'static str; 4] = [
    "cdn.modrinth.com",
    "github.com",
    "raw.githubusercontent.com",
    "gitlab.com",
];

/// One of the allowed download hosts.
pub open spec fn is_allowed_base(h: Seq<char>) -> bool {
    h == "cdn.modrinth.com"@ || h == "github.com"@ || h == "raw.githubusercontent.com"@ || h
        == "gitlab.com"@
}

/// A host is acceptable when it is an allowed host or a subdomain of one.
pub open spec fn host_allowed(host: Seq<char>) -> bool {
    exists|h: Seq<char>| is_allowed_base(h) && (host == h || has_suffix(host, "."@ + h))
}

/// A pack path that stays inside the instance: non-empty, no `..`, no
/// leading `/` or `\`, no drive colon as its second byte.
pub open spec fn is_safe_rel(path: Seq<char>) -> bool {
    text_guarded_rel(path)
}

/// A pack path written below the instance: it passes the text guard, and as
/// a path it has components, each a normal name or `.`, so joined to the
/// instance folder it stays inside it.
pub open spec fn is_contained_rel(path: Seq<char>) -> bool {
    is_safe_rel(path) && stays_below(spec_path_components(path))
}

/// The pack-relative path when it is safe to write below the instance. Every
/// path passing the text guard is accepted, and every accepted path has only
/// normal (or `.`) components.
pub fn safe_rel(path: &str) -> (r: Option<String>)
    ensures
        is_safe_rel(path@) ==> (r matches Some(p) && p@ == path@),
        !is_safe_rel(path@) ==> r is None,
        r is Some ==> is_contained_rel(path@),
{
    if path.unicode_len() == 0 || contains_str(path, "..") || starts_with_char(path, '/')
        || starts_with_char(path, '\\') {
        return None;
    }
    let b = path.as_bytes();
    if b.len() > 1 && b[1] == 58u8 {
        return None;
    }
    let parts = path_components(path);
    if !parts_stay_below(&parts) {
        return None;
    }
    Some(String::from_str(path))
}

/// `i` is the first position of `p` in `s` at or after `from`.
pub open spec fn first_at(s: Seq<char>, p: Seq<char>, from: int, i: int) -> bool {
    from <= i && occurs_at(s, p, i) && forall|j: int| from <= j < i ==> !occurs_at(s, p, j)
}

/// `e` ends the host that starts after the separator at `i`: the first `/`,
/// the first `://`, or the end of the text.
pub open spec fn host_end_at(s: Seq<char>, i: int, e: int) -> bool {
    let from = i + 3;
    &&& from <= e <= s.len()
    &&& (e == s.len() || s[e] == '/' || occurs_at(s, "://"@, e))
    &&& forall|j: int| from <= j < e ==> s[j] != '/' && !occurs_at(s, "://"@, j)
}

/// The download-host check: the URL must use `https://`, and the host, the
/// text after the first `://` up to the next `/` (or `://`), must be allowed.
pub open spec fn url_host_allowed(url: Seq<char>) -> bool {
    &&& has_prefix(url, "https://"@)
    &&& exists|i: int, e: int|
        #![trigger first_at(url, "://"@, 0, i), host_end_at(url, i, e)]
        first_at(url, "://"@, 0, i) && host_end_at(url, i, e) && host_allowed(
            url.subrange(i + 3, e),
        )
}

fn allowed_host(host: &str) -> (r: bool)
    ensures
        r == host_allowed(host@),
{
    let hosts = ["cdn.modrinth.com", "github.com", "raw.githubusercontent.com", "gitlab.com"];
    let mut i: usize = 0;
    while i < 4
        invariant
            0 <= i <= 4,
            hosts@ == seq!["cdn.modrinth.com", "github.com", "raw.githubusercontent.com", "gitlab.com"],
            forall|j: int|
                0 <= j < i ==> !(host@ == hosts@[j]@ || has_suffix(host@, "."@ + hosts@[j]@)),
        decreases 4 - i,
    {
        let h = hosts[i];
        let mut dotted = String::from_str(".");
        dotted.append(h);
        if str_eq(host, h) || ends_with(host, dotted.as_str()) {
            assert(is_allowed_base(h@));
            return true;
        }
        i = i + 1;
    }
    assert forall|h: Seq<char>| is_allowed_base(h) implies !(host@ == h || has_suffix(
        host@,
        "."@ + h,
    )) by {
        assert(h == hosts@[0]@ || h == hosts@[1]@ || h == hosts@[2]@ || h == hosts@[3]@);
    }
    false
}

/// Whether a pack file URL points at an allowed host.
pub fn url_host_ok(url: &str) -> (r: bool)
    ensures
        r == url_host_allowed(url@),
{
    if !starts_with(url, "https://") {
        return false;
    }
    let i = match find_from(url, "://", 0) {
        Some(i) => i,
        None => {
            return false;
        },
    };
    proof {
        reveal_strlit("://");
    }
    let n = url.unicode_len();
    let start = i + 3;
    assert(start <= n);
    let mut slash: usize = start;
    while slash < n && url.get_char(slash) != '/'
        invariant
            n == url@.len(),
            start <= slash <= n,
            forall|j: int| start <= j < slash ==> url@[j] != '/',
        decreases n - slash,
    {
        slash = slash + 1;
    }
    let e = match find_from(url, "://", start) {
        Some(p) => if p < slash {
            p
        } else {
            slash
        },
        None => slash,
    };
    let host = url.substring_char(start, e);
    assert(host@ =~= url@.subrange(start as int, e as int));
    assert(first_at(url@, "://"@, 0, i as int));
    assert(host_end_at(url@, i as int, e as int));
    let r = allowed_host(host);
    proof {
        assert forall|i2: int, e2: int|
            first_at(url@, "://"@, 0, i2) && host_end_at(url@, i2, e2) implies i2 == i && e2
            == e by {
            if i2 < i {
                assert(!occurs_at(url@, "://"@, i2));
            } else if i < i2 {
                assert(!occurs_at(url@, "://"@, i as int));
            }
            assert(i2 == i);
            if e2 < e {
                assert(url@[e2] != '/' && !occurs_at(url@, "://"@, e2));
            } else if e < e2 {
                assert(start <= e < e2);
                assert(e < url@.len());
                assert(url@[e as int] != '/');
                assert(!occurs_at(url@, "://"@, e as int));
            }
        }
    }
    r
}

/// The value of the first dependency entry with the key.
pub open spec fn dep_value(deps: Seq<(String, String)>, key: Seq<char>) -> Option<Seq<char>>
    decreases deps.len(),
{
    if deps.len() == 0 {
        None
    } else if deps[0].0@ == key {
        Some(deps[0].1@)
    } else {
        dep_value(deps.drop_first(), key)
    }
}

pub(crate) fn lookup_dep(deps: &Vec<(String, String)>, key: &str) -> (r: Option<usize>)
    ensures
        match r {
            Some(k) => k < deps@.len() && deps@[k as int].0@ == key@ && dep_value(deps@, key@)
                == Some(deps@[k as int].1@),
            None => dep_value(deps@, key@) is None,
        },
{
    let n = deps.len();
    let mut i: usize = 0;
    assert(deps@.skip(0) =~= deps@);
    while i < n
        invariant
            n == deps@.len(),
            0 <= i <= n,
            dep_value(deps@, key@) == dep_value(deps@.skip(i as int), key@),
        decreases n - i,
    {
        assert(deps@.skip(i as int).drop_first() =~= deps@.skip(i + 1));
        assert(deps@.skip(i as int)[0] == deps@[i as int]);
        if str_eq(deps[i].0.as_str(), key) {
            return Some(i);
        }
        i = i + 1;
    }
    None
}

/// The loader a pack needs, by the first of its dependencies present.
pub open spec fn pack_loader_of(deps: Seq<(String, String)>) -> Seq<char> {
    if dep_value(deps, "fabric-loader"@) is Some {
        "fabric"@
    } else if dep_value(deps, "quilt-loader"@) is Some {
        "quilt"@
    } else if dep_value(deps, "neoforge"@) is Some {
        "neoforge"@
    } else if dep_value(deps, "forge"@) is Some {
        "forge"@
    } else {
        "vanilla"@
    }
}

/// A dependency value is found exactly when some entry has the key.
pub proof fn lemma_dep_value_found(deps: Seq<(String, String)>, key: Seq<char>)
    ensures
        dep_value(deps, key) is Some <==> exists|k: int| 0 <= k < deps.len() && (#[trigger] deps[k]).0@ == key,
    decreases deps.len(),
{
    if deps.len() > 0 {
        lemma_dep_value_found(deps.drop_first(), key);
        if exists|k: int| 0 <= k < deps.len() && (#[trigger] deps[k]).0@ == key {
            let k = choose|k: int| 0 <= k < deps.len() && (#[trigger] deps[k]).0@ == key;
            if k > 0 {
                assert(deps.drop_first()[k - 1] == deps[k]);
            }
        }
        if exists|k: int| 0 <= k < deps.drop_first().len() && (#[trigger] deps.drop_first()[k]).0@ == key {
            let k = choose|k: int| 0 <= k < deps.drop_first().len() && (#[trigger] deps.drop_first()[k]).0@ == key;
            assert(deps[k + 1] == deps.drop_first()[k]);
        }
    }
}

/// The loader of a pack by the dependencies it declares: `fabric-loader`
/// gives `fabric`; else `quilt-loader` gives `quilt`; else `neoforge` gives
/// `neoforge`; else `forge` gives `forge`; a pack declaring none of them is
/// `vanilla`.
pub proof fn lemma_pack_loader_choice(deps: Seq<(String, String)>)
    ensures
        (exists|k: int| 0 <= k < deps.len() && (#[trigger] deps[k]).0@ == "fabric-loader"@)
            ==> pack_loader_of(deps) == "fabric"@,
        !(exists|k: int| 0 <= k < deps.len() && (#[trigger] deps[k]).0@ == "fabric-loader"@)
            && (exists|k: int| 0 <= k < deps.len() && (#[trigger] deps[k]).0@ == "quilt-loader"@)
            ==> pack_loader_of(deps) == "quilt"@,
        !(exists|k: int| 0 <= k < deps.len() && (#[trigger] deps[k]).0@ == "fabric-loader"@)
            && !(exists|k: int| 0 <= k < deps.len() && (#[trigger] deps[k]).0@ == "quilt-loader"@)
            && (exists|k: int| 0 <= k < deps.len() && (#[trigger] deps[k]).0@ == "neoforge"@)
            ==> pack_loader_of(deps) == "neoforge"@,
        !(exists|k: int| 0 <= k < deps.len() && (#[trigger] deps[k]).0@ == "fabric-loader"@)
            && !(exists|k: int| 0 <= k < deps.len() && (#[trigger] deps[k]).0@ == "quilt-loader"@)
            && !(exists|k: int| 0 <= k < deps.len() && (#[trigger] deps[k]).0@ == "neoforge"@)
            && (exists|k: int| 0 <= k < deps.len() && (#[trigger] deps[k]).0@ == "forge"@)
            ==> pack_loader_of(deps) == "forge"@,
        !(exists|k: int| 0 <= k < deps.len() && (#[trigger] deps[k]).0@ == "fabric-loader"@)
            && !(exists|k: int| 0 <= k < deps.len() && (#[trigger] deps[k]).0@ == "quilt-loader"@)
            && !(exists|k: int| 0 <= k < deps.len() && (#[trigger] deps[k]).0@ == "neoforge"@)
            && !(exists|k: int| 0 <= k < deps.len() && (#[trigger] deps[k]).0@ == "forge"@)
            ==> pack_loader_of(deps) == "vanilla"@,
{
    lemma_dep_value_found(deps, "fabric-loader"@);
    lemma_dep_value_found(deps, "quilt-loader"@);
    lemma_dep_value_found(deps, "neoforge"@);
    lemma_dep_value_found(deps, "forge"@);
}

/// The loader an imported pack's instance uses: `fabric` when the pack
/// declares `fabric-loader`, else `quilt` for `quilt-loader`, else `neoforge`,
/// else `forge`, else `vanilla`.
pub fn pack_loader(deps: &Vec<(String, String)>) -> (r: &'static str)
    ensures
        r@ == pack_loader_of(deps@),
        (exists|k: int| 0 <= k < deps@.len() && (#[trigger] deps@[k]).0@ == "fabric-loader"@) ==> r@
            == "fabric"@,
        !(exists|k: int| 0 <= k < deps@.len() && (#[trigger] deps@[k]).0@ == "fabric-loader"@)
            && (exists|k: int| 0 <= k < deps@.len() && (#[trigger] deps@[k]).0@ == "quilt-loader"@)
            ==> r@ == "quilt"@,
        !(exists|k: int| 0 <= k < deps@.len() && (#[trigger] deps@[k]).0@ == "fabric-loader"@)
            && !(exists|k: int| 0 <= k < deps@.len() && (#[trigger] deps@[k]).0@ == "quilt-loader"@)
            && (exists|k: int| 0 <= k < deps@.len() && (#[trigger] deps@[k]).0@ == "neoforge"@)
            ==> r@ == "neoforge"@,
        !(exists|k: int| 0 <= k < deps@.len() && (#[trigger] deps@[k]).0@ == "fabric-loader"@)
            && !(exists|k: int| 0 <= k < deps@.len() && (#[trigger] deps@[k]).0@ == "quilt-loader"@)
            && !(exists|k: int| 0 <= k < deps@.len() && (#[trigger] deps@[k]).0@ == "neoforge"@)
            && (exists|k: int| 0 <= k < deps@.len() && (#[trigger] deps@[k]).0@ == "forge"@)
            ==> r@ == "forge"@,
        !(exists|k: int| 0 <= k < deps@.len() && (#[trigger] deps@[k]).0@ == "fabric-loader"@)
            && !(exists|k: int| 0 <= k < deps@.len() && (#[trigger] deps@[k]).0@ == "quilt-loader"@)
            && !(exists|k: int| 0 <= k < deps@.len() && (#[trigger] deps@[k]).0@ == "neoforge"@)
            && !(exists|k: int| 0 <= k < deps@.len() && (#[trigger] deps@[k]).0@ == "forge"@)
            ==> r@ == "vanilla"@,
{
    proof {
        lemma_pack_loader_choice(deps@);
    }
    if lookup_dep(deps, "fabric-loader").is_some() {
        "fabric"
    } else if lookup_dep(deps, "quilt-loader").is_some() {
        "quilt"
    } else if lookup_dep(deps, "neoforge").is_some() {
        "neoforge"
    } else if lookup_dep(deps, "forge").is_some() {
        "forge"
    } else {
        "vanilla"
    }
}

/// The pack's metadata checks: only `formatVersion` 1, and a non-empty
/// `minecraft` dependency; the answer is the game version and the loader.
pub fn pack_game_and_loader(format_version: u32, deps: &Vec<(String, String)>) -> (r: Result<
    (String, &'static str),
    String,
>)
    ensures
        format_version != 1 ==> (r matches Err(e) && e@ == "unsupported mrpack formatVersion "@
            + dec_digits(format_version as nat)),
        format_version == 1 && !(dep_value(deps@, "minecraft"@) matches Some(v) && v.len() > 0)
            ==> (r matches Err(e) && e@ == "mrpack has no minecraft dependency"@),
        format_version == 1 && (dep_value(deps@, "minecraft"@) matches Some(v) && v.len() > 0)
            ==> (r matches Ok((g, l)) && Some(g@) == dep_value(deps@, "minecraft"@) && l@
            == pack_loader_of(deps@)),
        r matches Ok((_, l)) ==> ((exists|k: int|
            0 <= k < deps@.len() && (#[trigger] deps@[k]).0@ == "fabric-loader"@) ==> l@ == "fabric"@),
{
    proof {
        lemma_pack_loader_choice(deps@);
    }
    if format_version != 1 {
        let mut e = String::from_str("unsupported mrpack formatVersion ");
        let d = decimal(format_version as u64);
        e.append(d.as_str());
        return Err(e);
    }
    let k = match lookup_dep(deps, "minecraft") {
        Some(k) => k,
        None => {
            return Err(String::from_str("mrpack has no minecraft dependency"));
        },
    };
    if deps[k].1.as_str().unicode_len() == 0 {
        return Err(String::from_str("mrpack has no minecraft dependency"));
    }
    let g = deps[k].1.clone();
    let l = pack_loader(deps);
    let ghost gv = g@;
    let r = (g, l);
    assert(r.0@ == gv);
    Ok(r)
}

/// Files marked `client: unsupported` are skipped.
pub fn file_wanted(env_client: Option<&str>) -> (r: bool)
    ensures
        r == !(env_client matches Some(c) && c@ == "unsupported"@),
{
    match env_client {
        Some(c) => !str_eq(c, "unsupported"),
        None => true,
    }
}

/// The first download URL on an allowed host, or empty text.
pub fn pick_download(downloads: &Vec<String>) -> (r: String)
    ensures
        (forall|j: int| 0 <= j < downloads@.len() ==> !url_host_allowed(downloads@[j]@)) ==> r@.len()
            == 0,
        (exists|j: int| 0 <= j < downloads@.len() && url_host_allowed(downloads@[j]@)) ==> exists|
            k: int,
        |
            0 <= k < downloads@.len() && url_host_allowed(downloads@[k]@) && (forall|j: int|
                0 <= j < k ==> !url_host_allowed(downloads@[j]@)) && r@ == downloads@[k]@,
{
    let n = downloads.len();
    let mut i: usize = 0;
    while i < n
        invariant
            n == downloads@.len(),
            0 <= i <= n,
            forall|j: int| 0 <= j < i ==> !url_host_allowed(downloads@[j]@),
        decreases n - i,
    {
        if url_host_ok(downloads[i].as_str()) {
            return downloads[i].clone();
        }
        i = i + 1;
    }
    String::new()
}

/// The hash check of a pack file: by SHA-512 when the pack gives one, else
/// by SHA-1 when it gives one; a file with neither is refused.
pub open spec fn pack_hash_ok(bytes: Seq<u8>, hashes: Seq<(String, String)>) -> bool {
    match dep_value(hashes, "sha512"@) {
        Some(h) => hex_chars(spec_sha512(bytes)) == spec_to_lowercase(h),
        None => match dep_value(hashes, "sha1"@) {
            Some(h) => hex_chars(spec_sha1(bytes)) == spec_to_lowercase(h),
            None => false,
        },
    }
}

/// Whether a downloaded pack file passes its hash check.
pub fn file_hash_ok(bytes: &[u8], hashes: &Vec<(String, String)>) -> (r: bool)
    ensures
        r == pack_hash_ok(bytes@, hashes@),
{
    match lookup_dep(hashes, "sha512") {
        Some(k) => sha512_matches(bytes, hashes[k].1.as_str()),
        None => match lookup_dep(hashes, "sha1") {
            Some(k) => sha1_matches(bytes, hashes[k].1.as_str()),
            None => false,
        },
    }
}

/// The path an override entry `name` is extracted to under `prefix`: the
/// rest of the name, when the entry is no directory and that rest is a safe
/// relative path.
pub open spec fn override_rel_of(name: Seq<char>, prefix: Seq<char>) -> Option<Seq<char>> {
    if has_prefix(name, prefix) && !(name.len() > 0 && name.last() == '/') && is_contained_rel(
        name.skip(prefix.len() as int),
    ) {
        Some(name.skip(prefix.len() as int))
    } else {
        None
    }
}

/// An override entry `prefix` + path is extracted to that path when it is
/// not a directory and the path is safe.
pub fn override_target(name: &str, prefix: &str) -> (r: Option<String>)
    ensures
        has_prefix(name@, prefix@) && !(name@.len() > 0 && name@.last() == '/') && is_contained_rel(
            name@.skip(prefix@.len() as int),
        ) ==> (r matches Some(p) && p@ == name@.skip(prefix@.len() as int)),
        !(has_prefix(name@, prefix@) && !(name@.len() > 0 && name@.last() == '/') && is_contained_rel(
            name@.skip(prefix@.len() as int),
        )) ==> r is None,        match r {
            Some(p) => override_rel_of(name@, prefix@) == Some(p@),
            None => override_rel_of(name@, prefix@) is None,
        },
{
    if !starts_with(name, prefix) || ends_with_char(name, '/') {
        return None;
    }
    let rest = name.substring_char(prefix.unicode_len(), name.unicode_len());
    assert(rest@ =~= name@.skip(prefix@.len() as int));
    safe_rel(rest)
}

/// The `modrinth.index.json` bytes of a pack archive, or the error text when
/// the pack is no archive, has no such entry, or the entry does not read out.
pub fn pack_index_bytes(pack: &[u8]) -> (r: Result<Vec<u8>, String>)
    ensures
        archive_entry(pack@, "modrinth.index.json"@) matches Some(Some(d)) ==> (r matches Ok(v)
            && v@ == d),
        !(archive_entry(pack@, "modrinth.index.json"@) matches Some(Some(_))) ==> r is Err,
{
    let mut zip = match zip_open(pack) {
        Ok(z) => z,
        Err(e) => {
            return Err(zip_error_text(&e));
        },
    };
    match zip_entry_bytes(&mut zip, "modrinth.index.json") {
        Ok(Ok(b)) => Ok(b),
        Ok(Err(e)) => Err(io_error_text(&e)),
        Err(e) => Err(zip_error_text(&e)),
    }
}


/// The character a pack name keeps in an instance name; others become `-`.
pub open spec fn stem_char(c: char) -> char {
    if spec_is_alphanumeric(c) {
        c
    } else {
        '-'
    }
}

/// A pack name with every character other than letters and digits made `-`.
pub open spec fn stem_chars_of(name: Seq<char>) -> Seq<char> {
    name.map_values(|c: char| stem_char(c))
}

/// Text can be cut to `limit` bytes: it fits, or a character boundary lies
/// exactly at `limit` bytes.
pub open spec fn cut_ok(s: Seq<char>, limit: nat) -> bool {
    utf8_len(s) <= limit || exists|k: int| 0 <= k <= s.len() && utf8_len(s.take(k)) == limit
}

/// Text cut to `limit` bytes, as `String::truncate` and byte slicing do when
/// the cut falls on a character boundary.
pub open spec fn cut_bytes(s: Seq<char>, limit: nat) -> Seq<char> {
    if utf8_len(s) <= limit {
        s
    } else {
        s.take(choose|k: int| 0 <= k <= s.len() && utf8_len(s.take(k)) == limit)
    }
}

/// The instance name an imported pack gets: its name with non-alphanumeric
/// characters made `-`, cut to 48 bytes; when that is empty, `pack-` and
/// the first 8 bytes of the version id.
pub open spec fn pack_stem_of(name: Seq<char>, version_id: Seq<char>) -> Seq<char> {
    let c = cut_bytes(stem_chars_of(name), 48);
    if c.len() > 0 {
        c
    } else {
        "pack-"@ + cut_bytes(version_id, 8)
    }
}

/// The cuts `pack_stem_of` makes fall on character boundaries (elsewhere the
/// import stops with a panic).
pub open spec fn pack_stem_defined(name: Seq<char>, version_id: Seq<char>) -> bool {
    cut_ok(stem_chars_of(name), 48) && (name.len() == 0 ==> cut_ok(version_id, 8))
}

proof fn lemma_utf8_len_take_monotone(s: Seq<char>, a: int, b: int)
    requires
        0 <= a < b <= s.len(),
    ensures
        utf8_len(s.take(a)) < utf8_len(s.take(b)),
    decreases b - a,
{
    lemma_utf8_len_take_step(s, b - 1);
    if a < b - 1 {
        lemma_utf8_len_take_monotone(s, a, b - 1);
    }
}

/// Where `s` is cut to `limit` bytes, or `None` when the cut would split a
/// character.
fn cut_point(s: &Vec<char>, limit: usize) -> (r: Option<usize>)
    ensures
        match r {
            Some(k) => k <= s@.len() && cut_ok(s@, limit as nat) && s@.take(k as int) == cut_bytes(
                s@,
                limit as nat,
            ),
            None => !cut_ok(s@, limit as nat),
        },
{
    let n = s.len();
    let mut total: usize = 0;
    let mut i: usize = 0;
    assert(s@.take(0) =~= Seq::<char>::empty());
    while i < n
        invariant
            n == s@.len(),
            0 <= i <= n,
            total == utf8_len(s@.take(i as int)),
            total <= limit,
        decreases n - i,
    {
        let w = char_utf8_width(s[i]);
        proof {
            lemma_utf8_len_take_step(s@, i as int);
        }
        if w > limit - total {
            proof {
                lemma_utf8_len_concat(s@.take(i + 1), s@.skip(i + 1));
                assert(s@.take(i + 1) + s@.skip(i + 1) =~= s@);
                assert(s@.take(s@.len() as int) =~= s@);
                if i + 1 < n {
                    lemma_utf8_len_take_monotone(s@, i + 1, n as int);
                }
            }
            if total == limit {
                proof {
                    let k = choose|k: int| 0 <= k <= s@.len() && utf8_len(s@.take(k)) == limit;
                    if k < i {
                        lemma_utf8_len_take_monotone(s@, k, i as int);
                    } else if k > i {
                        lemma_utf8_len_take_monotone(s@, i as int, k);
                    }
                }
                return Some(i);
            }
            proof {
                assert forall|k: int| 0 <= k <= s@.len() implies utf8_len(s@.take(k)) != limit by {
                    if k <= i {
                        if k < i {
                            lemma_utf8_len_take_monotone(s@, k, i as int);
                        }
                    } else {
                        if k > i + 1 {
                            lemma_utf8_len_take_monotone(s@, i + 1, k);
                        }
                    }
                }
            }
            return None;
        }
        total = total + w;
        i = i + 1;
    }
    assert(s@.take(n as int) =~= s@);
    Some(n)
}

fn stem_chars(name: &str) -> (r: Vec<char>)
    ensures
        r@ == stem_chars_of(name@),
{
    let n = name.unicode_len();
    let mut out: Vec<char> = Vec::new();
    let mut i: usize = 0;
    while i < n
        invariant
            n == name@.len(),
            0 <= i <= n,
            out@ == name@.take(i as int).map_values(|c: char| stem_char(c)),
        decreases n - i,
    {
        let c = name.get_char(i);
        let d = if is_alphanumeric(c) {
            c
        } else {
            '-'
        };
        out.push(d);
        assert(name@.take(i + 1) =~= name@.take(i as int).push(c));
        assert(out@ =~= name@.take(i + 1).map_values(|c: char| stem_char(c)));
        i = i + 1;
    }
    assert(name@.take(n as int) =~= name@);
    out
}

fn string_of_prefix(v: &Vec<char>, k: usize) -> (r: String)
    requires
        k <= v@.len(),
    ensures
        r@ == v@.take(k as int),
{
    let mut s = String::new();
    let mut i: usize = 0;
    while i < k
        invariant
            k <= v@.len(),
            0 <= i <= k,
            s@ == v@.take(i as int),
        decreases k - i,
    {
        string_push(&mut s, v[i]);
        assert(v@.take(i + 1) =~= v@.take(i as int).push(v@[i as int]));
        i = i + 1;
    }
    s
}

fn chars_vec(s: &str) -> (r: Vec<char>)
    ensures
        r@ == s@,
{
    let n = s.unicode_len();
    let mut out: Vec<char> = Vec::new();
    let mut i: usize = 0;
    while i < n
        invariant
            n == s@.len(),
            0 <= i <= n,
            out@ == s@.take(i as int),
        decreases n - i,
    {
        out.push(s.get_char(i));
        assert(s@.take(i + 1) =~= s@.take(i as int).push(s@[i as int]));
        i = i + 1;
    }
    assert(s@.take(n as int) =~= s@);
    out
}

/// The instance name an imported pack gets, where both cuts fall on
/// character boundaries.
pub fn pack_instance_stem(name: &str, version_id: &str) -> (r: String)
    requires
        pack_stem_defined(name@, version_id@),
    ensures
        r@ == pack_stem_of(name@, version_id@),
{
    let m = stem_chars(name);
    let k = match cut_point(&m, 48) {
        Some(k) => k,
        None => {
            assert(false);
            0
        },
    };
    let stem = string_of_prefix(&m, k);
    if stem.as_str().unicode_len() > 0 {
        return stem;
    }
    proof {
        assert(m@.len() == 0);
    }
    let v = chars_vec(version_id);
    let j = match cut_point(&v, 8) {
        Some(j) => j,
        None => {
            assert(false);
            0
        },
    };
    let mut out = String::from_str("pack-");
    let cut = string_of_prefix(&v, j);
    out.append(cut.as_str());
    out
}

/// The instance name an imported pack gets, or `None` where a cut would
/// split a character or the name would not pass the shared instance-name
/// guard (the import cannot name the instance then). Every name it gives
/// passes that guard, so the pack's folder is a plain folder under the
/// instances folder.
pub fn checked_pack_instance_stem(name: &str, version_id: &str) -> (r: Option<String>)
    ensures
        pack_stem_defined(name@, version_id@) && is_valid_instance_name(
            pack_stem_of(name@, version_id@),
        ) ==> (r matches Some(s) && s@ == pack_stem_of(name@, version_id@)),
        !(pack_stem_defined(name@, version_id@) && is_valid_instance_name(
            pack_stem_of(name@, version_id@),
        )) ==> r is None,
        r matches Some(s) ==> is_valid_instance_name(s@),
{
    let m = stem_chars(name);
    if cut_point(&m, 48).is_none() {
        return None;
    }
    if name.unicode_len() == 0 {
        let v = chars_vec(version_id);
        if cut_point(&v, 8).is_none() {
            return None;
        }
    }
    let stem = pack_instance_stem(name, version_id);
    if !valid_instance_name(stem.as_str()) {
        return None;
    }
    Some(stem)
}

/// The two override folders a client import extracts, in this order.
pub open spec fn is_override_prefix(p: Seq<char>) -> bool {
    p == "overrides/"@ || p == "client-overrides/"@
}

/// `(rel, data)` comes from an override entry of the pack in `pack`.
pub open spec fn override_item(pack: Seq<u8>, rel: Seq<char>, data: Seq<u8>) -> bool {
    exists|nm: Seq<char>, p: Seq<char>|
        is_override_prefix(p) && #[trigger] override_rel_of(nm, p) == Some(rel) && #[trigger] archive_entry(
            pack,
            nm,
        ) == Some(Some(data))
}

/// `(rel, data)` comes from an override entry under the folder `p`.
pub open spec fn override_from(pack: Seq<u8>, rel: Seq<char>, data: Seq<u8>, p: Seq<char>) -> bool {
    exists|nm: Seq<char>|
        #[trigger] override_rel_of(nm, p) == Some(rel) && archive_entry(pack, nm) == Some(Some(data))
}

/// The items of `v` before `s` are taken from `overrides/`, those from `s` on
/// from `client-overrides/`.
pub open spec fn overrides_split_at(pack: Seq<u8>, v: Seq<(String, Vec<u8>)>, s: int) -> bool {
    &&& 0 <= s <= v.len()
    &&& forall|k: int|
        0 <= k < s ==> override_from(pack, (#[trigger] v[k]).0@, v[k].1@, "overrides/"@)
    &&& forall|k: int|
        s <= k < v.len() ==> override_from(pack, (#[trigger] v[k]).0@, v[k].1@, "client-overrides/"@)
}

/// The items of `v` taken from `overrides/` all come before those taken from
/// `client-overrides/`, so a client override of the same path is written
/// last and wins.
pub open spec fn overrides_in_order(pack: Seq<u8>, v: Seq<(String, Vec<u8>)>) -> bool {
    exists|s: int| #[trigger] overrides_split_at(pack, v, s)
}

/// Some item of `v` is `(rel, data)`.
pub open spec fn lists_override(v: Seq<(String, Vec<u8>)>, rel: Seq<char>, data: Seq<u8>) -> bool {
    exists|k: int| 0 <= k < v.len() && v[k].0@ == rel && v[k].1@ == data
}

/// An override entry under `p` that the archive opens but whose data does
/// not read out: it stops the import.
pub open spec fn override_stuck(pack: Seq<u8>, nm: Seq<char>, p: Seq<char>) -> bool {
    override_rel_of(nm, p) is Some && archive_entry(pack, nm) == Some(None::<Seq<u8>>)
}

fn collect_overrides(
    zip: &mut zip::ZipArchive<std::io::Cursor<&[u8]>>,
    names: &Vec<String>,
    prefix: &str,
    out: &mut Vec<(String, Vec<u8>)>,
    Ghost(pack): Ghost<Seq<u8>>,
) -> (r: Result<(), String>)
    requires
        spec_zip_read(pack) == Some(spec_zip_entries(*old(zip))),
        is_override_prefix(prefix@),
        forall|k: int|
            0 <= k < old(out)@.len() ==> override_item(pack, (#[trigger] old(out)@[k]).0@, old(out)@[k].1@),
    ensures
        r is Err ==> exists|j: int|
            0 <= j < names@.len() && #[trigger] override_stuck(pack, names@[j]@, prefix@),
        r is Ok ==> forall|j: int|
            0 <= j < names@.len() ==> !#[trigger] override_stuck(pack, names@[j]@, prefix@),
        spec_zip_entries(*final(zip)) == spec_zip_entries(*old(zip)),
        final(out)@.len() >= old(out)@.len(),
        forall|k: int| 0 <= k < old(out)@.len() ==> #[trigger] final(out)@[k] == old(out)@[k],
        forall|k: int|
            0 <= k < final(out)@.len() ==> override_item(pack, (#[trigger] final(out)@[k]).0@, final(out)@[k].1@),
        forall|k: int|
            old(out)@.len() <= k < final(out)@.len() ==> override_from(
                pack,
                (#[trigger] final(out)@[k]).0@,
                final(out)@[k].1@,
                prefix@,
            ),
        r is Ok ==> forall|j: int|
            0 <= j < names@.len() && (#[trigger] override_rel_of(names@[j]@, prefix@)) is Some
                && entry_reads(pack, names@[j]@) ==> lists_override(
                final(out)@,
                override_rel_of(names@[j]@, prefix@)->Some_0,
                entry_data(pack, names@[j]@),
            ),
{
    let ghost m = spec_zip_entries(*zip);
    let ghost start = out@;
    let n = names.len();
    let mut i: usize = 0;
    while i < n
        invariant
            n == names@.len(),
            0 <= i <= n,
            spec_zip_read(pack) == Some(m),
            spec_zip_entries(*zip) == m,
            m == spec_zip_entries(*old(zip)),
            start == old(out)@,
            is_override_prefix(prefix@),
            out@.len() >= start.len(),
            forall|k: int| 0 <= k < start.len() ==> #[trigger] out@[k] == start[k],
            forall|k: int|
                0 <= k < out@.len() ==> override_item(pack, (#[trigger] out@[k]).0@, out@[k].1@),
            forall|k: int|
                start.len() <= k < out@.len() ==> override_from(
                    pack,
                    (#[trigger] out@[k]).0@,
                    out@[k].1@,
                    prefix@,
                ),
            forall|j: int|
                0 <= j < i && (#[trigger] override_rel_of(names@[j]@, prefix@)) is Some
                    && entry_reads(pack, names@[j]@) ==> lists_override(
                    out@,
                    override_rel_of(names@[j]@, prefix@)->Some_0,
                    entry_data(pack, names@[j]@),
                ),
            forall|j: int| 0 <= j < i ==> !#[trigger] override_stuck(pack, names@[j]@, prefix@),
        decreases n - i,
    {
        let name = names[i].as_str();
        match override_target(name, prefix) {
            Some(rel) => {
                match zip_entry_bytes(zip, name) {
                    Ok(Ok(data)) => {
                        let ghost before = out@;
                        proof {
                            assert(override_item(pack, rel@, data@)) by {
                                assert(override_rel_of(name@, prefix@) == Some(rel@));
                                assert(archive_entry(pack, name@) == Some(Some(data@)));
                            }
                            assert(override_from(pack, rel@, data@, prefix@)) by {
                                assert(override_rel_of(name@, prefix@) == Some(rel@));
                            }
                        }
                        out.push((rel, data));
                        proof {
                            assert(lists_override(out@, out@[before.len() as int].0@, out@[before.len() as int].1@));
                            assert forall|j: int|
                                0 <= j < i + 1 && (#[trigger] override_rel_of(names@[j]@, prefix@)) is Some
                                    && entry_reads(pack, names@[j]@) implies lists_override(
                                out@,
                                override_rel_of(names@[j]@, prefix@)->Some_0,
                                entry_data(pack, names@[j]@),
                            ) by {
                                if j < i {
                                    let rl = override_rel_of(names@[j]@, prefix@)->Some_0;
                                    let d = entry_data(pack, names@[j]@);
                                    let k0 = choose|k: int| 0 <= k < before.len() && before[k].0@ == rl && before[k].1@ == d;
                                    assert(out@[k0] == before[k0]);
                                }
                            }
                        }
                    },
                    Ok(Err(e)) => {
                        proof {
                            assert(override_stuck(pack, names@[i as int]@, prefix@));
                        }
                        return Err(io_error_text(&e));
                    },
                    Err(_) => {},
                }
            },
            None => {},
        }
        i = i + 1;
    }
    Ok(())
}

/// The override files of a pack, as `(path below the instance, data)`:
/// first those under `overrides/`, then those under `client-overrides/`
/// (`server-overrides/` is never read). Every entry that reads out and whose
/// name gives an override path is listed, and nothing else. Bytes that are
/// no archive, or an override entry whose data does not read out, give an
/// error text.
pub fn pack_overrides(pack: &[u8]) -> (r: Result<Vec<(String, Vec<u8>)>, String>)
    ensures
        spec_zip_read(pack@) is None ==> r is Err,
        spec_zip_read(pack@) is Some ==> (r is Err <==> exists|nm: Seq<char>, p: Seq<char>|
            is_override_prefix(p) && #[trigger] override_stuck(pack@, nm, p)),
        r matches Ok(v) ==> forall|k: int|
            0 <= k < v@.len() ==> override_item(pack@, (#[trigger] v@[k]).0@, v@[k].1@),
        r matches Ok(v) ==> overrides_in_order(pack@, v@),
        r matches Ok(v) ==> forall|k: int| 0 <= k < v@.len() ==> is_contained_rel((#[trigger] v@[k]).0@),
        r matches Ok(v) ==> forall|nm: Seq<char>, p: Seq<char>|
            is_override_prefix(p) && (#[trigger] override_rel_of(nm, p)) is Some && #[trigger] entry_reads(
                pack@,
                nm,
            ) ==> lists_override(v@, override_rel_of(nm, p)->Some_0, entry_data(pack@, nm)),
{
    let mut zip = match zip_open(pack) {
        Ok(z) => z,
        Err(e) => {
            return Err(zip_error_text(&e));
        },
    };
    let ghost m = spec_zip_entries(zip);
    let names = zip_entry_names(&zip);
    let mut out: Vec<(String, Vec<u8>)> = Vec::new();
    proof {
        reveal_strlit("overrides/");
        reveal_strlit("client-overrides/");
    }
    match collect_overrides(&mut zip, &names, "overrides/", &mut out, Ghost(pack@)) {
        Ok(()) => {},
        Err(e) => {
            proof {
                let j = choose|j: int| 0 <= j < names@.len() && #[trigger] override_stuck(pack@, names@[j]@, "overrides/"@);
                assert(is_override_prefix("overrides/"@));
            }
            return Err(e);
        },
    }
    let ghost first = out@;
    match collect_overrides(&mut zip, &names, "client-overrides/", &mut out, Ghost(pack@)) {
        Ok(()) => {},
        Err(e) => {
            proof {
                let j = choose|j: int| 0 <= j < names@.len() && #[trigger] override_stuck(pack@, names@[j]@, "client-overrides/"@);
                assert(is_override_prefix("client-overrides/"@));
            }
            return Err(e);
        },
    }
    proof {
        assert forall|nm: Seq<char>, p: Seq<char>|
            is_override_prefix(p) implies !#[trigger] override_stuck(pack@, nm, p) by {
            if override_stuck(pack@, nm, p) {
                assert(m.dom().contains(nm));
                let j = choose|j: int| 0 <= j < names@.len() && names@[j]@ == nm;
                if p == "overrides/"@ {
                    assert(!override_stuck(pack@, names@[j]@, "overrides/"@));
                } else {
                    assert(!override_stuck(pack@, names@[j]@, "client-overrides/"@));
                }
            }
        }
        assert forall|k: int| 0 <= k < first.len() implies override_from(
            pack@,
            (#[trigger] out@[k]).0@,
            out@[k].1@,
            "overrides/"@,
        ) by {
            assert(out@[k] == first[k]);
        }
        assert(overrides_split_at(pack@, out@, first.len() as int));
        reveal_strlit("overrides/");
        reveal_strlit("client-overrides/");
        assert forall|nm: Seq<char>, p: Seq<char>|
            is_override_prefix(p) && (#[trigger] override_rel_of(nm, p)) is Some && #[trigger] entry_reads(
                pack@,
                nm,
            ) implies lists_override(out@, override_rel_of(nm, p)->Some_0, entry_data(pack@, nm)) by {
            let rel = override_rel_of(nm, p)->Some_0;
            let d = entry_data(pack@, nm);
            assert(m.dom().contains(nm));
            let j = choose|j: int| 0 <= j < names@.len() && names@[j]@ == nm;
            if p == "overrides/"@ {
                assert(override_rel_of(names@[j]@, "overrides/"@) == Some(rel));
                assert(lists_override(first, rel, d));
                let k0 = choose|k: int| 0 <= k < first.len() && first[k].0@ == rel && first[k].1@ == d;
                assert(out@[k0] == first[k0]);
            } else {
                assert(override_rel_of(names@[j]@, "client-overrides/"@) == Some(rel));
            }
        }
    }
    Ok(out)
}

/// What the import does with one listed file of a pack.
#[derive(Debug, Clone)]
pub enum PackFileStep {
    /// The file is not for the client, its path is unsafe, or no download
    /// URL is on an allowed host.
    Skip,
    /// Download `url`; the data is written to `rel` below the instance when
    /// it passes `file_hash_ok`.
    Fetch { url: String, rel: String },
}

/// The import's decision for one listed file: skipped when marked
/// `client: unsupported`, when its path is unsafe, or when none of its
/// download URLs is allowed; else fetched from the first allowed URL and
/// written to its path.
pub fn pack_file_step(env_client: Option<&str>, path: &str, downloads: &Vec<String>) -> (r: PackFileStep)
    ensures
        r matches PackFileStep::Fetch { rel, .. } ==> is_contained_rel(rel@),
        (env_client matches Some(c) && c@ == "unsupported"@) ==> r is Skip,
        !is_safe_rel(path@) ==> r is Skip,
        (forall|j: int| 0 <= j < downloads@.len() ==> !url_host_allowed(downloads@[j]@)) ==> r is Skip,
        !(env_client matches Some(c) && c@ == "unsupported"@) && is_safe_rel(path@) && (exists|j: int|
            0 <= j < downloads@.len() && url_host_allowed(downloads@[j]@)) ==> (r matches PackFileStep::Fetch {
            url,
            rel,
        } && rel@ == path@ && exists|k: int|
            0 <= k < downloads@.len() && url_host_allowed(downloads@[k]@) && (forall|j: int|
                0 <= j < k ==> !url_host_allowed(downloads@[j]@)) && url@ == downloads@[k]@),
{
    if !file_wanted(env_client) {
        return PackFileStep::Skip;
    }
    let rel = match safe_rel(path) {
        Some(p) => p,
        None => {
            return PackFileStep::Skip;
        },
    };
    let url = pick_download(downloads);
    if url.as_str().unicode_len() == 0 {
        proof {
            reveal_strlit("https://");
            if exists|j: int| 0 <= j < downloads@.len() && url_host_allowed(downloads@[j]@) {
                let k = choose|k: int|
                    0 <= k < downloads@.len() && url_host_allowed(downloads@[k]@) && (forall|j: int|
                        0 <= j < k ==> !url_host_allowed(downloads@[j]@)) && url@ == downloads@[k]@;
                assert(has_prefix(downloads@[k]@, "https://"@));
                assert(false);
            }
        }
        return PackFileStep::Skip;
    }
    PackFileStep::Fetch { url, rel }
}

} // verus!
