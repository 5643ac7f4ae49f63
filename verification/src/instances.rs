//! Instance store and mod lockfile bookkeeping: the name guard shared by all
//! commands, the store updates behind create/clone/configure/delete, the
//! lockfile updates behind install/remove, and verify/repair reports.
use crate::seqs::{
    lemma_filter_keeps_all, lemma_filter_pairwise, retain_where, sort_with, sorted_by, total_preorder,
};
use crate::digest::{sha512_matches, spec_sha512};
use crate::modpacks::{url_host_allowed, url_host_ok};
use crate::text::{hex_chars, spec_to_lowercase, views, lex_le, lemma_lex_total, lemma_lex_trans, str_le};
use crate::text::{
    contains_char, ends_with_char, lemma_trimmed_unchanged, lemma_utf8_len_ascii, starts_with_char, str_eq,
    trim, trimmed, utf8_len,
    utf8_len_at_most,
};
use vstd::prelude::*;

verus! {

/// A Minecraft instance as stored in `instances.json`.
#[derive(Debug, Clone)]
pub struct Instance {
    pub name: String,
    pub game_version: String,
    pub loader: String,
    pub jvm_args: Option<String>,
    pub max_memory_mb: Option<u32>,
}

/// One lockfile entry: a content file installed from a provider.
#[derive(Debug, Clone)]
pub struct InstalledMod {
    pub project_id: String,
    pub version_number: String,
    pub file_name: String,
    pub url: Option<String>,
    pub sha512: Option<String>,
    pub content_type: Option<String>,
}

/// Lockfile against disk: entries whose files are gone, files no entry
/// accounts for, and how many entries were found.
#[derive(Debug, Clone)]
pub struct VerifyReport {
    pub missing_files: Vec<String>,
    pub untracked_files: Vec<String>,
    pub ok_tracked: usize,
}

/// Characters an instance name may not hold.
pub open spec fn is_name_special(c: char) -> bool {
    c == '/' || c == '\\' || c == ':' || c == '*' || c == '?' || c == '"' || c == '<' || c
        == '>' || c == '|'
}

/// The shared instance-name guard: after trimming, 1 to 64 bytes, no leading
/// dot, none of `/ \ : * ? " < > |`.
pub open spec fn is_valid_instance_name(name: Seq<char>) -> bool {
    let n = trimmed(name);
    &&& n.len() > 0
    &&& utf8_len(n) <= 64
    &&& n[0] != '.'
    &&& forall|i: int| 0 <= i < n.len() ==> !is_name_special(#[trigger] n[i])
}

/// Every name of 1 to 64 letters, digits, spaces, `-` and `_` that neither
/// starts nor ends with a space passes the instance-name guard (so names
/// like `My World` or `fabric-1_20` are accepted).
pub proof fn lemma_plain_instance_names_valid(name: Seq<char>)
    requires
        1 <= name.len() <= 64,
        forall|i: int|
            0 <= i < name.len() ==> ('a' <= #[trigger] name[i] <= 'z' || 'A' <= name[i] <= 'Z' || '0'
                <= name[i] <= '9' || name[i] == ' ' || name[i] == '-' || name[i] == '_'),
        name[0] != ' ',
        name.last() != ' ',
    ensures
        is_valid_instance_name(name),
{
    lemma_trimmed_unchanged(name);
    assert forall|i: int| 0 <= i < name.len() implies (#[trigger] name[i] as u32) <= 0x7f by {
        assert('a' <= name[i] <= 'z' || 'A' <= name[i] <= 'Z' || '0' <= name[i] <= '9' || name[i]
            == ' ' || name[i] == '-' || name[i] == '_');
    }
    lemma_utf8_len_ascii(name);
    assert forall|i: int| 0 <= i < name.len() implies !is_name_special(#[trigger] name[i]) by {
        assert('a' <= name[i] <= 'z' || 'A' <= name[i] <= 'Z' || '0' <= name[i] <= '9' || name[i]
            == ' ' || name[i] == '-' || name[i] == '_');
    }
}

fn has_name_special(s: &str) -> (r: bool)
    ensures
        r == exists|i: int| 0 <= i < s@.len() && is_name_special(#[trigger] s@[i]),
{
    let n = s.unicode_len();
    let mut i: usize = 0;
    while i < n
        invariant
            n == s@.len(),
            0 <= i <= n,
            forall|k: int| 0 <= k < i ==> !is_name_special(#[trigger] s@[k]),
        decreases n - i,
    {
        let c = s.get_char(i);
        if c == '/' || c == '\\' || c == ':' || c == '*' || c == '?' || c == '"' || c == '<' || c
            == '>' || c == '|' {
            assert(is_name_special(s@[i as int]));
            return true;
        }
        i = i + 1;
    }
    false
}

/// Instance names become directory names: this guard rejects traversal,
/// hidden, absolute and Windows-special names in one place.
pub fn valid_instance_name(name: &str) -> (r: bool)
    ensures
        r == is_valid_instance_name(name@),
        1 <= name@.len() <= 64 && (forall|i: int|
            0 <= i < name@.len() ==> ('a' <= #[trigger] name@[i] <= 'z' || 'A' <= name@[i] <= 'Z'
                || '0' <= name@[i] <= '9' || name@[i] == ' ' || name@[i] == '-' || name@[i] == '_'))
            && name@[0] != ' ' && name@.last() != ' ' ==> r,
{
    proof {
        if 1 <= name@.len() <= 64 && (forall|i: int|
            0 <= i < name@.len() ==> ('a' <= #[trigger] name@[i] <= 'z' || 'A' <= name@[i] <= 'Z'
                || '0' <= name@[i] <= '9' || name@[i] == ' ' || name@[i] == '-' || name@[i] == '_'))
            && name@[0] != ' ' && name@.last() != ' ' {
            lemma_plain_instance_names_valid(name@);
        }
    }
    let n = trim(name);
    if n.unicode_len() == 0 || !utf8_len_at_most(n, 64) || starts_with_char(n, '.') || has_name_special(n) {
        return false;
    }
    proof {
        reveal_strlit("..");
        reveal_strlit(".");
        assert(".."@[0] == '.');
        assert("."@[0] == '.');
        assert(n@ != ".."@);
        assert(n@ != "."@);
    }
    !str_eq(n, "..") && !str_eq(n, ".")
}

/// A plain file name: non-empty, no leading dot, no path separator.
pub open spec fn is_valid_file_name(name: Seq<char>) -> bool {
    &&& name.len() > 0
    &&& name[0] != '.'
    &&& !name.contains('/')
    &&& !name.contains('\\')
}

/// Guard for file names that come from the user or a provider.
pub fn valid_file_name(name: &str) -> (r: bool)
    ensures
        r == is_valid_file_name(name@),
{
    name.unicode_len() > 0 && !starts_with_char(name, '.') && !contains_char(name, '/')
        && !contains_char(name, '\\')
}

/// The instance subdirectory a content type installs into.
pub open spec fn content_dir_of(content_type: Option<Seq<char>>) -> Seq<char> {
    if content_type == Some("resourcepack"@) {
        "resourcepacks"@
    } else if content_type == Some("shader"@) {
        "shaderpacks"@
    } else if content_type == Some("datapack"@) {
        "datapacks"@
    } else {
        "mods"@
    }
}

/// The view of an optional string.
pub open spec fn opt_view(o: Option<String>) -> Option<Seq<char>> {
    match o {
        Some(s) => Some(s@),
        None => None,
    }
}

/// The view of an optional string slice.
pub open spec fn opt_str_view(o: Option<&str>) -> Option<Seq<char>> {
    match o {
        Some(s) => Some(s@),
        None => None,
    }
}

/// The instance subdirectory for a content type: resource packs, shader
/// packs and data packs have their own; everything else is a mod.
pub fn content_dir(content_type: Option<&str>) -> (r: &'static str)
    ensures
        r@ == content_dir_of(opt_str_view(content_type)),
{
    match content_type {
        Some(t) => {
            if str_eq(t, "resourcepack") {
                "resourcepacks"
            } else if str_eq(t, "shader") {
                "shaderpacks"
            } else if str_eq(t, "datapack") {
                "datapacks"
            } else {
                "mods"
            }
        },
        None => "mods",
    }
}

/// No two instances share a name.
pub open spec fn names_unique(s: Seq<Instance>) -> bool {
    forall|i: int, j: int| 0 <= i < j < s.len() ==> #[trigger] s[i].name@ != #[trigger] s[j].name@
}

/// Keeps the instances not called `n`.
pub open spec fn not_named(n: Seq<char>) -> spec_fn(Instance) -> bool {
    |i: Instance| i.name@ != n
}

/// Two instances with different names.
pub open spec fn distinct_names(a: Instance, b: Instance) -> bool {
    a.name@ != b.name@
}

/// Filtering keeps names unique.
proof fn lemma_filter_names_unique(s: Seq<Instance>, p: spec_fn(Instance) -> bool)
    requires
        names_unique(s),
    ensures
        names_unique(s.filter(p)),
{
    let rel = |a: Instance, b: Instance| distinct_names(a, b);
    assert forall|i: int, j: int| 0 <= i < j < s.len() implies #[trigger] rel(s[i], s[j]) by {
        assert(s[i].name@ != s[j].name@);
    }
    lemma_filter_pairwise(s, p, rel);
    let f = s.filter(p);
    assert forall|i: int, j: int| 0 <= i < j < f.len() implies #[trigger] f[i].name@
        != #[trigger] f[j].name@ by {
        assert(rel(f[i], f[j]));
    }
}

/// Some instance is called `n`.
pub open spec fn has_instance_named(s: Seq<Instance>, n: Seq<char>) -> bool {
    exists|i: int| 0 <= i < s.len() && #[trigger] s[i].name@ == n
}

/// Position of the first instance called `n`.
fn find_instance(all: &Vec<Instance>, n: &str) -> (r: Option<usize>)
    ensures
        match r {
            Some(k) => k < all@.len() && all@[k as int].name@ == n@ && forall|j: int|
                0 <= j < k ==> all@[j].name@ != n@,
            None => !has_instance_named(all@, n@),
        },
{
    let len = all.len();
    let mut i: usize = 0;
    while i < len
        invariant
            len == all@.len(),
            0 <= i <= len,
            forall|j: int| 0 <= j < i ==> all@[j].name@ != n@,
        decreases len - i,
    {
        if str_eq(all[i].name.as_str(), n) {
            return Some(i);
        }
        i = i + 1;
    }
    None
}

/// Message for a name that fails the guard on create.
pub open spec fn create_name_message() -> Seq<char> {
    "instance name must be 1-64 chars without / \\ : * ? \" < > | or leading dots"@
}

/// Store update for creating an instance: the trimmed name must pass the
/// guard and be new; the instance is appended without JVM settings.
pub fn create_instance(
    all: Vec<Instance>,
    name: &str,
    game_version: String,
    loader: String,
) -> (r: Result<Vec<Instance>, String>)
    ensures
        !is_valid_instance_name(name@) ==> (r matches Err(e) && e@ == create_name_message()),
        is_valid_instance_name(name@) && has_instance_named(all@, trimmed(name@)) ==> (r matches Err(
            e,
        ) && e@ == "instance already exists"@),
        is_valid_instance_name(name@) && !has_instance_named(all@, trimmed(name@)) ==> (r matches Ok(
            v,
        ) && v@.len() == all@.len() + 1 && v@.drop_last() == all@ && v@.last().name@ == trimmed(
            name@,
        ) && v@.last().game_version == game_version && v@.last().loader == loader
            && v@.last().jvm_args is None && v@.last().max_memory_mb is None),
        r is Ok && names_unique(all@) ==> names_unique(r->Ok_0@),
{
    if !valid_instance_name(name) {
        return Err(
            String::from_str(
                "instance name must be 1-64 chars without / \\ : * ? \" < > | or leading dots",
            ),
        );
    }
    let n = trim(name);
    if find_instance(&all, n).is_some() {
        return Err(String::from_str("instance already exists"));
    }
    let mut all = all;
    let ghost before = all@;
    all.push(
        Instance {
            name: String::from_str(n),
            game_version,
            loader,
            jvm_args: None,
            max_memory_mb: None,
        },
    );
    assert(all@.drop_last() =~= before);
    Ok(all)
}

/// Store update for deleting an instance: every entry with the trimmed name
/// goes; the name must pass the guard.
pub fn delete_instance(all: Vec<Instance>, name: &str) -> (r: Result<Vec<Instance>, String>)
    ensures
        !is_valid_instance_name(name@) ==> (r matches Err(e) && e@ == "invalid instance name"@),
        is_valid_instance_name(name@) ==> (r matches Ok(v) && v@ == all@.filter(
            not_named(trimmed(name@)),
        )),
        r is Ok ==> !has_instance_named(r->Ok_0@, trimmed(name@)),
        r is Ok && names_unique(all@) ==> names_unique(r->Ok_0@),
{
    if !valid_instance_name(name) {
        return Err(String::from_str("invalid instance name"));
    }
    let n = trim(name);
    let ghost p = not_named(n@);
    let ghost before = all@;
    let kept = retain_where(
        all,
        (|i: &Instance| -> (b: bool)
            ensures
                b == (i.name@ != n@),
            { !str_eq(i.name.as_str(), n) }),
        Ghost(p),
    );
    proof {
        broadcast use vstd::seq_lib::group_filter_ensures;
        if has_instance_named(kept@, n@) {
            let k = choose|k: int| 0 <= k < kept@.len() && #[trigger] kept@[k].name@ == n@;
            assert(p(kept@[k]));
        }
        if names_unique(before) {
            lemma_filter_names_unique(before, p);
        }
    }
    Ok(kept)
}

/// Deleting an instance right after creating it gives the store back as it
/// was: creation appends the only instance with that name.
pub proof fn lemma_delete_undoes_create(all: Seq<Instance>, created: Instance)
    requires
        !has_instance_named(all, created.name@),
    ensures
        all.push(created).filter(not_named(created.name@)) == all,
{
    let p = not_named(created.name@);
    assert forall|i: int| 0 <= i < all.len() implies p(#[trigger] all[i]) by {
        if all[i].name@ == created.name@ {
            assert(has_instance_named(all, created.name@));
        }
    }
    lemma_filter_keeps_all(all, p);
    all.lemma_filter_push(created, p);
}

/// Store update for cloning an instance under a new name: both names must
/// pass the guard and differ, the source must exist and the new name be
/// free; the copy keeps the source's version, loader and JVM settings.
pub fn clone_instance(all: Vec<Instance>, source_name: &str, new_name: &str) -> (r: Result<
    Vec<Instance>,
    String,
>)
    ensures
        !is_valid_instance_name(source_name@) || !is_valid_instance_name(new_name@) ==> (r matches Err(
            e,
        ) && e@ == "invalid instance name"@),
        is_valid_instance_name(source_name@) && is_valid_instance_name(new_name@) && trimmed(
            source_name@,
        ) == trimmed(new_name@) ==> (r matches Err(e) && e@
            == "new name must be different from source name"@),
        is_valid_instance_name(source_name@) && is_valid_instance_name(new_name@) && trimmed(
            source_name@,
        ) != trimmed(new_name@) && !has_instance_named(all@, trimmed(source_name@)) ==> (r matches Err(
            e,
        ) && e@ == "source instance does not exist"@),
        is_valid_instance_name(source_name@) && is_valid_instance_name(new_name@) && trimmed(
            source_name@,
        ) != trimmed(new_name@) && has_instance_named(all@, trimmed(source_name@))
            && has_instance_named(all@, trimmed(new_name@)) ==> (r matches Err(e) && e@
            == "instance with this name already exists"@),
        is_valid_instance_name(source_name@) && is_valid_instance_name(new_name@) && trimmed(
            source_name@,
        ) != trimmed(new_name@) && has_instance_named(all@, trimmed(source_name@))
            && !has_instance_named(all@, trimmed(new_name@)) ==> (r matches Ok(v) && exists|k: int|
            0 <= k < all@.len() && all@[k].name@ == trimmed(source_name@) && (forall|j: int|
                0 <= j < k ==> all@[j].name@ != trimmed(source_name@)) && v@.len() == all@.len() + 1
                && v@.drop_last() == all@ && v@.last().name@ == trimmed(new_name@)
                && v@.last().game_version == all@[k].game_version && v@.last().loader
                == all@[k].loader && v@.last().jvm_args == all@[k].jvm_args
                && v@.last().max_memory_mb == all@[k].max_memory_mb),
        r is Ok && names_unique(all@) ==> names_unique(r->Ok_0@),
{
    if !valid_instance_name(source_name) || !valid_instance_name(new_name) {
        return Err(String::from_str("invalid instance name"));
    }
    let src_trim = trim(source_name);
    let new_trim = trim(new_name);
    if str_eq(src_trim, new_trim) {
        return Err(String::from_str("new name must be different from source name"));
    }
    let k = match find_instance(&all, src_trim) {
        Some(k) => k,
        None => {
            return Err(String::from_str("source instance does not exist"));
        },
    };
    if find_instance(&all, new_trim).is_some() {
        return Err(String::from_str("instance with this name already exists"));
    }
    let copy = Instance {
        name: String::from_str(new_trim),
        game_version: all[k].game_version.clone(),
        loader: all[k].loader.clone(),
        jvm_args: all[k].jvm_args.clone(),
        max_memory_mb: all[k].max_memory_mb,
    };
    let mut all = all;
    let ghost before = all@;
    all.push(copy);
    assert(all@.drop_last() =~= before);
    Ok(all)
}

/// JVM arguments as stored: blank text counts as none.
pub open spec fn stored_jvm_args(jvm_args: Option<String>) -> Option<String> {
    match jvm_args {
        Some(s) => if trimmed(s@).len() > 0 {
            Some(s)
        } else {
            None
        },
        None => None,
    }
}

/// Store update for an instance's memory and JVM settings: the first instance
/// with the trimmed name gets the new heap size and the arguments, blank
/// arguments stored as none.
pub fn configure_instance(
    all: Vec<Instance>,
    name: &str,
    max_memory_mb: Option<u32>,
    jvm_args: Option<String>,
) -> (r: Result<Vec<Instance>, String>)
    ensures
        !is_valid_instance_name(name@) ==> (r matches Err(e) && e@ == "invalid instance name"@),
        is_valid_instance_name(name@) && !has_instance_named(all@, trimmed(name@)) ==> (r matches Err(
            e,
        ) && e@ == "unknown instance"@),
        is_valid_instance_name(name@) && has_instance_named(all@, trimmed(name@)) ==> (r matches Ok(
            v,
        ) && exists|k: int|
            0 <= k < all@.len() && all@[k].name@ == trimmed(name@) && (forall|j: int|
                0 <= j < k ==> all@[j].name@ != trimmed(name@)) && v@.len() == all@.len() && (forall|
                j: int,
            | 0 <= j < all@.len() && j != k ==> v@[j] == all@[j]) && v@[k].name == all@[k].name
                && v@[k].game_version == all@[k].game_version && v@[k].loader == all@[k].loader
                && v@[k].max_memory_mb == max_memory_mb && v@[k].jvm_args == stored_jvm_args(
                jvm_args,
            )),
        r is Ok && names_unique(all@) ==> names_unique(r->Ok_0@),
{
    if !valid_instance_name(name) {
        return Err(String::from_str("invalid instance name"));
    }
    let n = trim(name);
    let k = match find_instance(&all, n) {
        Some(k) => k,
        None => {
            return Err(String::from_str("unknown instance"));
        },
    };
    let stored = match jvm_args {
        Some(s) => if trim(s.as_str()).unicode_len() > 0 {
            Some(s)
        } else {
            None
        },
        None => None,
    };
    let mut all = all;
    let ghost before = all@;
    let mut inst = all.remove(k);
    inst.max_memory_mb = max_memory_mb;
    inst.jvm_args = stored;
    all.insert(k, inst);
    proof {
        assert forall|j: int| 0 <= j < before.len() && j != k implies all@[j] == before[j] by {
            if j < k {
            } else {
            }
        }
        if names_unique(before) {
            assert forall|i: int, j: int| 0 <= i < j < all@.len() implies #[trigger] all@[i].name@
                != #[trigger] all@[j].name@ by {
                assert(all@[i].name == before[i].name);
                assert(all@[j].name == before[j].name);
            }
        }
    }
    Ok(all)
}


/// Lockfile update after an install: earlier entries for the same file or the
/// same project go, the new entry is appended.
pub open spec fn keeps_other_entries(e: InstalledMod) -> spec_fn(InstalledMod) -> bool {
    |m: InstalledMod| m.file_name@ != e.file_name@ && m.project_id@ != e.project_id@
}

/// Lockfile after installing `entry`: it replaces every entry for its file or
/// its project and stands last.
pub fn lock_after_install(locked: Vec<InstalledMod>, entry: InstalledMod) -> (r: Vec<InstalledMod>)
    ensures
        r@ == locked@.filter(keeps_other_entries(entry)).push(entry),
{
    let ghost e = entry;
    let kept = retain_where(
        locked,
        (|m: &InstalledMod| -> (b: bool)
            ensures
                b == (m.file_name@ != e.file_name@ && m.project_id@ != e.project_id@),
            {
                !str_eq(m.file_name.as_str(), entry.file_name.as_str()) && !str_eq(
                    m.project_id.as_str(),
                    entry.project_id.as_str(),
                )
            }),
        Ghost(keeps_other_entries(entry)),
    );
    let mut kept = kept;
    kept.push(entry);
    kept
}

/// After an install, the lockfile holds exactly one entry for the installed
/// project and exactly one for the installed file: the new entry, last.
pub proof fn lemma_install_single_entry(locked: Seq<InstalledMod>, entry: InstalledMod, i: int)
    requires
        0 <= i < locked.filter(keeps_other_entries(entry)).push(entry).len(),
        locked.filter(keeps_other_entries(entry)).push(entry)[i].project_id@ == entry.project_id@
            || locked.filter(keeps_other_entries(entry)).push(entry)[i].file_name@
            == entry.file_name@,
    ensures
        i == locked.filter(keeps_other_entries(entry)).len(),
{
    let f = locked.filter(keeps_other_entries(entry));
    broadcast use vstd::seq_lib::group_filter_ensures;
    if i < f.len() {
        assert(keeps_other_entries(entry)(f[i]));
    }
}

/// Splits `dir/leaf`: the directory must be one of the four content
/// directories and the leaf a plain file name.
pub fn split_content_path(relative_path: &str) -> (r: Result<(String, String), String>)
    ensures
        !relative_path@.contains('/') ==> (r matches Err(e) && e@
            == "content path must include a directory"@),
        relative_path@.contains('/') ==> exists|k: int|
            0 <= k < relative_path@.len() && relative_path@[k] == '/' && (forall|j: int|
                0 <= j < k ==> relative_path@[j] != '/') && ({
                let dir = relative_path@.take(k);
                let leaf = relative_path@.skip(k + 1);
                if is_content_subdir(dir) && is_valid_file_name(leaf) {
                    r matches Ok((d, l)) && d@ == dir && l@ == leaf
                } else {
                    r matches Err(e) && e@ == "invalid content file name"@
                }
            }),
{
    let n = relative_path.unicode_len();
    let mut k: usize = 0;
    while k < n && relative_path.get_char(k) != '/'
        invariant
            n == relative_path@.len(),
            0 <= k <= n,
            forall|j: int| 0 <= j < k ==> relative_path@[j] != '/',
        decreases n - k,
    {
        k = k + 1;
    }
    if k == n {
        return Err(String::from_str("content path must include a directory"));
    }
    let dir = relative_path.substring_char(0, k);
    let leaf = relative_path.substring_char(k + 1, n);
    assert(dir@ =~= relative_path@.take(k as int));
    assert(leaf@ =~= relative_path@.skip(k + 1));
    if !content_subdir(dir) || !valid_file_name(leaf) {
        return Err(String::from_str("invalid content file name"));
    }
    Ok((String::from_str(dir), String::from_str(leaf)))
}

/// The content item `remove_content_item` deletes: the instance name must
/// pass the shared guard, then the path is split as `split_content_path` does.
pub fn content_item_target(instance: &str, relative_path: &str) -> (r: Result<
    (String, String),
    String,
>)
    ensures
        !is_valid_instance_name(instance@) ==> (r matches Err(e) && e@ == "invalid instance name"@),
        is_valid_instance_name(instance@) && !relative_path@.contains('/') ==> (r matches Err(e)
            && e@ == "content path must include a directory"@),
        is_valid_instance_name(instance@) && relative_path@.contains('/') ==> exists|k: int|
            0 <= k < relative_path@.len() && relative_path@[k] == '/' && (forall|j: int|
                0 <= j < k ==> relative_path@[j] != '/') && ({
                let dir = relative_path@.take(k);
                let leaf = relative_path@.skip(k + 1);
                if is_content_subdir(dir) && is_valid_file_name(leaf) {
                    r matches Ok((d, l)) && d@ == dir && l@ == leaf
                } else {
                    r matches Err(e) && e@ == "invalid content file name"@
                }
            }),
{
    if !valid_instance_name(instance) {
        return Err(String::from_str("invalid instance name"));
    }
    split_content_path(relative_path)
}

/// The four content directories of an instance.
pub open spec fn is_content_subdir(d: Seq<char>) -> bool {
    d == "mods"@ || d == "resourcepacks"@ || d == "shaderpacks"@ || d == "datapacks"@
}

fn content_subdir(d: &str) -> (r: bool)
    ensures
        r == is_content_subdir(d@),
{
    str_eq(d, "mods") || str_eq(d, "resourcepacks") || str_eq(d, "shaderpacks") || str_eq(
        d,
        "datapacks",
    )
}

/// The view of an entry's content type.
pub open spec fn entry_dir(m: InstalledMod) -> Seq<char> {
    content_dir_of(opt_view(m.content_type))
}

/// Keeps the entries that do not describe `subdir/leaf`.
pub open spec fn not_at(subdir: Seq<char>, leaf: Seq<char>) -> spec_fn(InstalledMod) -> bool {
    |m: InstalledMod| !(m.file_name@ == leaf && entry_dir(m) == subdir)
}

fn entry_content_dir(m: &InstalledMod) -> (r: &'static str)
    ensures
        r@ == entry_dir(*m),
{
    match &m.content_type {
        Some(t) => content_dir(Some(t.as_str())),
        None => content_dir(None),
    }
}

/// Lockfile after removing the file `subdir/leaf`: its entries go.
pub fn lock_after_removal(locked: Vec<InstalledMod>, subdir: &str, leaf: &str) -> (r: Vec<
    InstalledMod,
>)
    ensures
        r@ == locked@.filter(not_at(subdir@, leaf@)),
{
    retain_where(
        locked,
        (|m: &InstalledMod| -> (b: bool)
            ensures
                b == !(m.file_name@ == leaf@ && entry_dir(*m) == subdir@),
            { !(str_eq(m.file_name.as_str(), leaf) && str_eq(entry_content_dir(m), subdir)) }),
        Ghost(not_at(subdir@, leaf@)),
    )
}

/// The content path `remove_mod` removes: a bare file name means a mod.
pub open spec fn mod_path_of(file_name: Seq<char>) -> Seq<char> {
    if file_name.contains('/') {
        file_name
    } else {
        "mods/"@ + file_name
    }
}

/// The content path `remove_mod` removes: a bare file name is taken from `mods/`.
pub fn mod_content_path(file_name: &str) -> (r: String)
    ensures
        r@ == mod_path_of(file_name@),
{
    if contains_char(file_name, '/') {
        String::from_str(file_name)
    } else {
        let mut s = String::from_str("mods/");
        s.append(file_name);
        s
    }
}

/// Where an install goes. The instance name must pass the shared guard, the
/// file name must be plain, the instance known, the download URL an `https://`
/// URL on an approved host, and a SHA-512 must be given to verify it; the
/// answer is the content directory.
pub fn install_target(
    all: &Vec<Instance>,
    instance: &str,
    file_name: &str,
    url: &str,
    sha512: Option<&str>,
    content_type: Option<&str>,
) -> (r: Result<&'static str, String>)
    ensures
        !is_valid_instance_name(instance@) ==> (r matches Err(e) && e@ == "invalid instance name"@),
        is_valid_instance_name(instance@) && !is_valid_file_name(file_name@) ==> (r matches Err(e)
            && e@ == "invalid file name"@),
        is_valid_instance_name(instance@) && is_valid_file_name(file_name@) && !has_instance_named(
            all@,
            instance@,
        ) ==> (r matches Err(e) && e@ == "unknown instance"@),
        is_valid_instance_name(instance@) && is_valid_file_name(file_name@) && has_instance_named(
            all@,
            instance@,
        ) && !url_host_allowed(url@) ==> (r matches Err(e) && e@ == "download host not allowed"@),
        is_valid_instance_name(instance@) && is_valid_file_name(file_name@) && has_instance_named(
            all@,
            instance@,
        ) && url_host_allowed(url@) && sha512 is None ==> (r matches Err(e) && e@
            == "missing sha512 for "@ + file_name@),
        is_valid_instance_name(instance@) && is_valid_file_name(file_name@) && has_instance_named(
            all@,
            instance@,
        ) && url_host_allowed(url@) && sha512 is Some ==> (r matches Ok(d) && d@ == content_dir_of(
            opt_str_view(content_type),
        )),
{
    if !valid_instance_name(instance) {
        return Err(String::from_str("invalid instance name"));
    }
    if !valid_file_name(file_name) {
        return Err(String::from_str("invalid file name"));
    }
    let subdir = content_dir(content_type);
    if find_instance(all, instance).is_none() {
        return Err(String::from_str("unknown instance"));
    }
    if !url_host_ok(url) {
        return Err(String::from_str("download host not allowed"));
    }
    if sha512.is_none() {
        let mut m = String::from_str("missing sha512 for ");
        m.append(file_name);
        return Err(m);
    }
    Ok(subdir)
}

/// The install-time hash check: the download must come with an expected
/// SHA-512 and match it (lower-case hex against the expectation lowercased).
pub fn check_download_sha512(bytes: &[u8], expect: Option<&str>, file_name: &str) -> (r: Result<
    (),
    String,
>)
    ensures
        expect is None ==> (r matches Err(m) && m@ == "missing sha512 for "@ + file_name@),
        expect matches Some(e) && hex_chars(spec_sha512(bytes@)) == spec_to_lowercase(e@) ==> r is Ok,
        expect matches Some(e) && hex_chars(spec_sha512(bytes@)) != spec_to_lowercase(e@) ==> (r matches Err(
            m,
        ) && m@ == "sha512 mismatch for "@ + file_name@),
{
    match expect {
        None => {
            let mut m = String::from_str("missing sha512 for ");
            m.append(file_name);
            Err(m)
        },
        Some(e) => {
            if sha512_matches(bytes, e) {
                Ok(())
            } else {
                let mut m = String::from_str("sha512 mismatch for ");
                m.append(file_name);
                Err(m)
            }
        },
    }
}

/// Where a lockfile entry's file lives relative to the instance.
pub open spec fn lock_rel_path(m: InstalledMod) -> Seq<char> {
    entry_dir(m) + "/"@ + m.file_name@
}

/// An entry is found when its content path or its bare file name is listed.
pub open spec fn present_on_disk(m: InstalledMod, disk: Seq<Seq<char>>) -> bool {
    disk.contains(lock_rel_path(m)) || disk.contains(m.file_name@)
}

/// File names of the entries that are not found, in lockfile order.
pub open spec fn missing_names(locked: Seq<InstalledMod>, disk: Seq<Seq<char>>) -> Seq<Seq<char>>
    decreases locked.len(),
{
    if locked.len() == 0 {
        seq![]
    } else {
        let r = missing_names(locked.drop_last(), disk);
        if present_on_disk(locked.last(), disk) {
            r
        } else {
            r.push(locked.last().file_name@)
        }
    }
}

/// Number of entries that are found.
pub open spec fn found_count(locked: Seq<InstalledMod>, disk: Seq<Seq<char>>) -> nat
    decreases locked.len(),
{
    if locked.len() == 0 {
        0
    } else {
        found_count(locked.drop_last(), disk) + if present_on_disk(locked.last(), disk) {
            1nat
        } else {
            0nat
        }
    }
}

/// A listed path accounted for by a found entry.
pub open spec fn is_accounted(locked: Seq<InstalledMod>, disk: Seq<Seq<char>>, f: Seq<char>) -> bool {
    exists|i: int|
        0 <= i < locked.len() && present_on_disk(#[trigger] locked[i], disk) && (f == lock_rel_path(
            locked[i],
        ) || f == locked[i].file_name@)
}

/// Listed paths no found entry accounts for, in listing order.
pub open spec fn unaccounted_of(locked: Seq<InstalledMod>, disk: Seq<Seq<char>>) -> spec_fn(
    Seq<char>,
) -> bool {
    |f: Seq<char>| !is_accounted(locked, disk, f)
}

fn list_contains(v: &Vec<String>, s: &str) -> (r: bool)
    ensures
        r == views(v@).contains(s@),
{
    let n = v.len();
    let mut i: usize = 0;
    while i < n
        invariant
            n == v@.len(),
            0 <= i <= n,
            forall|j: int| 0 <= j < i ==> v@[j]@ != s@,
        decreases n - i,
    {
        if str_eq(v[i].as_str(), s) {
            assert(views(v@)[i as int] == s@);
            return true;
        }
        i = i + 1;
    }
    assert forall|j: int| 0 <= j < views(v@).len() implies views(v@)[j] != s@ by {
        assert(views(v@)[j] == v@[j]@);
    }
    false
}

fn entry_rel_path(m: &InstalledMod) -> (r: String)
    ensures
        r@ == lock_rel_path(*m),
{
    let mut s = String::from_str(entry_content_dir(m));
    s.append("/");
    s.append(m.file_name.as_str());
    s
}

/// Compares the lockfile with the content paths listed on disk: entries whose
/// files are gone, listed files no found entry accounts for, and how many
/// entries were found.
pub fn verify_report(locked: &Vec<InstalledMod>, on_disk: Vec<String>) -> (r: VerifyReport)
    ensures
        views(r.missing_files@) == missing_names(locked@, views(on_disk@)),
        r.ok_tracked == found_count(locked@, views(on_disk@)),
        views(r.untracked_files@) == views(on_disk@).filter(
            unaccounted_of(locked@, views(on_disk@)),
        ),
{
    let ghost disk = views(on_disk@);
    let n = locked.len();
    let mut missing: Vec<String> = Vec::new();
    let mut accounted: Vec<String> = Vec::new();
    let mut ok: usize = 0;
    let mut i: usize = 0;
    while i < n
        invariant
            n == locked@.len(),
            0 <= i <= n,
            disk == views(on_disk@),
            views(missing@) == missing_names(locked@.take(i as int), disk),
            ok == found_count(locked@.take(i as int), disk),
            ok <= i,
            forall|f: Seq<char>|
                views(accounted@).contains(f) <==> is_accounted(locked@.take(i as int), disk, f),
        decreases n - i,
    {
        let m = &locked[i];
        let full = entry_rel_path(m);
        let ghost t = locked@.take(i + 1);
        proof {
            assert(t.drop_last() =~= locked@.take(i as int));
            assert(t.last() == locked@[i as int]);
        }
        if list_contains(&on_disk, full.as_str()) || list_contains(&on_disk, m.file_name.as_str()) {
            ok = ok + 1;
            let ghost tv = views(accounted@);
            accounted.push(full);
            accounted.push(m.file_name.clone());
            proof {
                assert(views(accounted@) =~= tv.push(lock_rel_path(*m)).push(m.file_name@));
                assert forall|f: Seq<char>|
                    views(accounted@).contains(f) <==> is_accounted(t, disk, f) by {
                    if views(accounted@).contains(f) {
                        if tv.contains(f) {
                            let w = choose|w: int|
                                0 <= w < i && present_on_disk(
                                    #[trigger] locked@.take(i as int)[w],
                                    disk,
                                ) && (f == lock_rel_path(locked@.take(i as int)[w]) || f
                                    == locked@.take(i as int)[w].file_name@);
                            assert(t[w] == locked@.take(i as int)[w]);
                        } else {
                            assert(t[i as int] == *m);
                        }
                    }
                    if is_accounted(t, disk, f) {
                        let w = choose|w: int|
                            0 <= w < t.len() && present_on_disk(#[trigger] t[w], disk) && (f
                                == lock_rel_path(t[w]) || f == t[w].file_name@);
                        if w < i {
                            assert(locked@.take(i as int)[w] == t[w]);
                            assert(is_accounted(locked@.take(i as int), disk, f));
                            assert(tv.contains(f));
                            let z = choose|z: int| 0 <= z < tv.len() && tv[z] == f;
                            assert(views(accounted@)[z] == f);
                        } else {
                            if f == lock_rel_path(*m) {
                                assert(views(accounted@)[tv.len() as int] == f);
                            } else {
                                assert(views(accounted@)[tv.len() as int + 1] == f);
                            }
                        }
                    }
                }
            }
        } else {
            let ghost mv = views(missing@);
            missing.push(m.file_name.clone());
            proof {
                assert(views(missing@) =~= mv.push(m.file_name@));
                assert forall|f: Seq<char>|
                    views(accounted@).contains(f) <==> is_accounted(t, disk, f) by {
                    if is_accounted(t, disk, f) {
                        let w = choose|w: int|
                            0 <= w < t.len() && present_on_disk(#[trigger] t[w], disk) && (f
                                == lock_rel_path(t[w]) || f == t[w].file_name@);
                        assert(w < i);
                        assert(locked@.take(i as int)[w] == t[w]);
                    }
                    if is_accounted(locked@.take(i as int), disk, f) {
                        let w = choose|w: int|
                            0 <= w < i && present_on_disk(
                                #[trigger] locked@.take(i as int)[w],
                                disk,
                            ) && (f == lock_rel_path(locked@.take(i as int)[w]) || f
                                == locked@.take(i as int)[w].file_name@);
                        assert(t[w] == locked@.take(i as int)[w]);
                    }
                }
            }
        }
        i = i + 1;
    }
    proof {
        assert(locked@.take(n as int) =~= locked@);
    }
    let ghost p = |f: String| !is_accounted(locked@, disk, f@);
    let ghost before = on_disk@;
    let untracked = retain_where(
        on_disk,
        (|f: &String| -> (b: bool)
            ensures
                b == !is_accounted(locked@, disk, f@),
            { !list_contains(&accounted, f.as_str()) }),
        Ghost(p),
    );
    proof {
        vstd::seq_lib::lemma_filter_view_commute(before, p, unaccounted_of(locked@, disk));
    }
    VerifyReport { missing_files: missing, untracked_files: untracked, ok_tracked: ok }
}

/// Keeps the entries whose file is not reported missing.
pub open spec fn not_missing(missing: Seq<Seq<char>>) -> spec_fn(InstalledMod) -> bool {
    |m: InstalledMod| !missing.contains(m.file_name@)
}

/// Repair: drops the lockfile entries whose file names are reported missing;
/// untracked files stay untouched.
pub fn repair_lock(locked: Vec<InstalledMod>, missing_files: &Vec<String>) -> (r: Vec<InstalledMod>)
    ensures
        r@ == locked@.filter(not_missing(views(missing_files@))),
{
    retain_where(
        locked,
        (|m: &InstalledMod| -> (b: bool)
            ensures
                b == !views(missing_files@).contains(m.file_name@),
            { !list_contains(missing_files, m.file_name.as_str()) }),
        Ghost(not_missing(views(missing_files@))),
    )
}

proof fn lemma_missing_names_member(locked: Seq<InstalledMod>, disk: Seq<Seq<char>>, i: int)
    requires
        0 <= i < locked.len(),
        !present_on_disk(locked[i], disk),
    ensures
        missing_names(locked, disk).contains(locked[i].file_name@),
    decreases locked.len(),
{
    let r = missing_names(locked.drop_last(), disk);
    if i == locked.len() - 1 {
        assert(missing_names(locked, disk) == r.push(locked[i].file_name@));
        assert(missing_names(locked, disk)[r.len() as int] == locked[i].file_name@);
    } else {
        assert(locked.drop_last()[i] == locked[i]);
        lemma_missing_names_member(locked.drop_last(), disk, i);
        let z = choose|z: int| 0 <= z < r.len() && r[z] == locked[i].file_name@;
        if !present_on_disk(locked.last(), disk) {
            assert(missing_names(locked, disk)[z] == r[z]);
        }
    }
}

proof fn lemma_all_present_no_missing(locked: Seq<InstalledMod>, disk: Seq<Seq<char>>)
    requires
        forall|i: int| 0 <= i < locked.len() ==> present_on_disk(#[trigger] locked[i], disk),
    ensures
        missing_names(locked, disk).len() == 0,
    decreases locked.len(),
{
    if locked.len() > 0 {
        assert forall|i: int| 0 <= i < locked.drop_last().len() implies present_on_disk(
            #[trigger] locked.drop_last()[i],
            disk,
        ) by {
            assert(locked.drop_last()[i] == locked[i]);
        }
        lemma_all_present_no_missing(locked.drop_last(), disk);
        assert(present_on_disk(locked[locked.len() - 1], disk));
    }
}

/// Repair law: verifying again right after a repair, with the same files on
/// disk, reports no missing files.
pub proof fn lemma_repair_leaves_nothing_missing(locked: Seq<InstalledMod>, disk: Seq<Seq<char>>)
    ensures
        missing_names(locked.filter(not_missing(missing_names(locked, disk))), disk).len() == 0,
{
    let p = not_missing(missing_names(locked, disk));
    let f = locked.filter(p);
    broadcast use vstd::seq_lib::group_filter_ensures;
    assert forall|i: int| 0 <= i < f.len() implies present_on_disk(#[trigger] f[i], disk) by {
        assert(p(f[i]));
        assert(f.contains(f[i]));
        locked.lemma_filter_contains_rev(p, f[i]);
        let k = choose|k: int| 0 <= k < locked.len() && locked[k] == f[i];
        if !present_on_disk(f[i], disk) {
            lemma_missing_names_member(locked, disk, k);
        }
    }
    lemma_all_present_no_missing(f, disk);
}


/// Verify accounts for every lockfile entry exactly once: the entries found
/// and the missing files together are as many as the lockfile holds.
pub proof fn lemma_verify_counts_every_entry(locked: Seq<InstalledMod>, disk: Seq<Seq<char>>)
    ensures
        found_count(locked, disk) + missing_names(locked, disk).len() == locked.len(),
    decreases locked.len(),
{
    if locked.len() > 0 {
        lemma_verify_counts_every_entry(locked.drop_last(), disk);
    }
}

/// Order of content paths in a listing.
pub open spec fn path_le() -> spec_fn(String, String) -> bool {
    |a: String, b: String| lex_le(a@, b@)
}

/// The content listing in `String` order; the same paths, each as often.
pub fn sort_listing(paths: Vec<String>) -> (r: Vec<String>)
    ensures
        sorted_by(r@, path_le()),
        r@.to_multiset() == paths@.to_multiset(),
{
    proof {
        assert forall|a: String, b: String| #[trigger] path_le()(a, b) || path_le()(b, a) by {
            lemma_lex_total(a@, b@);
        }
        assert forall|a: String, b: String, c: String|
            #[trigger] path_le()(a, b) && #[trigger] path_le()(b, c) implies path_le()(a, c) by {
            lemma_lex_trans(a@, b@, c@);
        }
    }
    sort_with(
        paths,
        (|a: &String, b: &String| -> (x: bool)
            ensures
                x == lex_le(a@, b@),
            { str_le(a.as_str(), b.as_str()) }),
        Ghost(path_le()),
    )
}

} // verus!
