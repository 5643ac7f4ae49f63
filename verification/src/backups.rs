//! World backups: the backup file-name rules, the zip-slip guard for restore,
//! and the newest-first listing order.
use crate::instances::{is_name_special, is_valid_instance_name, valid_instance_name};
use crate::install::{
    parts_stay_below, path_components, spec_path_components, stays_below, text_guarded_rel,
};
use crate::archive::{
    archive_entry, dir_entry_name, dir_name, entry_reads, io_error_text, is_dir_name, spec_zip_entries,
    spec_zip_names, spec_zip_read, spec_zip_written, zip_add_directory, zip_entry_bytes, zip_entry_names, zip_error_text,
    zip_finish, zip_open, zip_start_file, zip_write_all, zip_writer_new, written_size, zip_name_limit,
    zip_plain_limit,
};
use crate::seqs::{sort_with, sorted_by};
use crate::text::{
    contains_str, decimal, digit_char, dec_digits, ends_with, has_infix, has_suffix, is_alphanumeric, lemma_lex_total,
    lemma_lex_trans, lex_le, push_decimal, spec_is_alphanumeric, starts_with_char, str_le,
    occurs_at, string_push, trim, trimmed, utf8_len, views,
};
use vstd::prelude::*;
use vstd::utf8::{encode_utf8, is_ascii_chars, is_ascii_chars_encode_utf8};

verus! {

/// One backup archive of an instance's worlds.
#[derive(Debug, Clone)]
pub struct BackupEntry {
    pub file_name: String,
    pub size_bytes: u64,
    pub created_at: String,
}

/// A backup file name: non-empty, no leading dot, none of
/// `/ \ : * ? " < > |`, ending in `.zip`.
pub open spec fn is_valid_backup_file_name(name: Seq<char>) -> bool {
    &&& name.len() > 0
    &&& name[0] != '.'
    &&& forall|i: int| 0 <= i < name.len() ==> !is_name_special(#[trigger] name[i])
    &&& has_suffix(name, ".zip"@)
}

fn has_special(s: &str) -> (r: bool)
    ensures
        r == exists|i: int| 0 <= i < s@.len() && is_name_special(#[trigger] s@[i]),
{
    let n = s.unicode_len();
    let mut i: usize = 0;
    while i < n
        invariant
            n == s@.len(),
            0 <= i <= n,
            forall|k: int| 0 <= k < i ==> !is_name_special(#[trigger] s@[k]),
        decreases n - i,
    {
        let c = s.get_char(i);
        if c == '/' || c == '\\' || c == ':' || c == '*' || c == '?' || c == '"' || c == '<' || c
            == '>' || c == '|' {
            assert(is_name_special(s@[i as int]));
            return true;
        }
        i = i + 1;
    }
    false
}

/// Guard for backup file names given to restore and delete.
pub fn valid_backup_file_name(name: &str) -> (r: bool)
    ensures
        r == is_valid_backup_file_name(name@),
{
    name.unicode_len() > 0 && !starts_with_char(name, '.') && !has_special(name) && ends_with(
        name,
        ".zip",
    )
}

/// `trim_end_matches(".zip")`: every trailing `.zip` removed.
pub open spec fn strip_zip_suffixes(s: Seq<char>) -> Seq<char>
    decreases s.len(),
{
    if s.len() >= 4 && has_suffix(s, ".zip"@) {
        strip_zip_suffixes(s.take(s.len() - 4))
    } else {
        s
    }
}

/// A name character kept as is; others become `_`.
pub open spec fn clean_char(c: char) -> char {
    if spec_is_alphanumeric(c) || c == '-' || c == '_' {
        c
    } else {
        '_'
    }
}

/// The custom name part of a backup file.
pub open spec fn clean_backup_stem(custom: Seq<char>) -> Seq<char> {
    strip_zip_suffixes(custom).map_values(|c: char| clean_char(c))
}

/// The file name a new backup gets: the cleaned custom name, or `worlds`,
/// then `-`, the creation time in seconds, `.zip`.
pub open spec fn backup_name_of(custom: Option<Seq<char>>, now_sec: u64) -> Seq<char> {
    match custom {
        Some(c) if trimmed(c).len() > 0 => clean_backup_stem(trimmed(c)) + "-"@ + dec_digits(
            now_sec as nat,
        ) + ".zip"@,
        _ => "worlds-"@ + dec_digits(now_sec as nat) + ".zip"@,
    }
}

/// The view of an optional string slice.
pub open spec fn opt_str(o: Option<&str>) -> Option<Seq<char>> {
    match o {
        Some(s) => Some(s@),
        None => None,
    }
}

fn strip_zip(s: &str) -> (r: &str)
    ensures
        r@ == strip_zip_suffixes(s@),
    decreases s@.len(),
{
    if s.unicode_len() >= 4 && ends_with(s, ".zip") {
        let n = s.unicode_len();
        let t = s.substring_char(0, n - 4);
        assert(t@ =~= s@.take(s@.len() - 4));
        strip_zip(t)
    } else {
        s
    }
}

proof fn lemma_dec_digits_plain(n: nat)
    ensures
        forall|i: int|
            0 <= i < dec_digits(n).len() ==> '0' <= #[trigger] dec_digits(n)[i] <= '9',
    decreases n,
{
    let d = digit_char(n % 10);
    assert('0' <= d <= '9');
    if n >= 10 {
        lemma_dec_digits_plain(n / 10);
        let p = dec_digits(n / 10);
        assert forall|i: int| 0 <= i < dec_digits(n).len() implies '0' <= #[trigger] dec_digits(
            n,
        )[i] <= '9' by {
            if i < p.len() {
                assert(dec_digits(n)[i] == p[i]);
            } else {
                assert(dec_digits(n)[i] == d);
            }
        }
    } else {
        assert(dec_digits(n) =~= seq![d]);
    }
}

/// The file name `create_backup` writes: from the custom name (trimmed, every
/// trailing `.zip` removed, characters other than letters, digits, `-` and
/// `_` replaced by `_`) or `worlds`, then `-`, the time, `.zip`. Such a name
/// always passes the backup file-name guard, so every backup created can be
/// restored and deleted by name.
pub fn backup_file_name(backup_name: Option<&str>, now_sec: u64) -> (r: String)
    ensures
        r@ == backup_name_of(opt_str(backup_name), now_sec),
        is_valid_backup_file_name(r@),
{
    let mut out = String::new();
    let custom = match backup_name {
        Some(s) => {
            let t = trim(s);
            if t.unicode_len() > 0 {
                Some(t)
            } else {
                None
            }
        },
        None => None,
    };
    proof {
        reveal_strlit("-");
        reveal_strlit(".zip");
        reveal_strlit("worlds-");
        lemma_dec_digits_plain(now_sec as nat);
    }
    match custom {
        Some(c) => {
            let base = strip_zip(c);
            let n = base.unicode_len();
            let mut i: usize = 0;
            while i < n
                invariant
                    n == base@.len(),
                    0 <= i <= n,
                    out@ == base@.take(i as int).map_values(|c: char| clean_char(c)),
                    forall|k: int|
                        0 <= k < out@.len() ==> !is_name_special(#[trigger] out@[k]) && out@[k]
                            != '.',
                decreases n - i,
            {
                let ch = base.get_char(i);
                let keep = is_alphanumeric(ch) || ch == '-' || ch == '_';
                let put = if keep {
                    ch
                } else {
                    '_'
                };
                assert(put == clean_char(ch));
                string_push(&mut out, put);
                proof {
                    assert(base@.take(i + 1) =~= base@.take(i as int).push(ch));
                    assert(out@ =~= base@.take(i + 1).map_values(|c: char| clean_char(c)));
                }
                i = i + 1;
            }
            assert(base@.take(n as int) =~= base@);
            out.append("-");
        },
        None => {
            out.append("worlds-");
        },
    }
    let ghost head = out@;
    push_decimal(&mut out, now_sec);
    out.append(".zip");
    proof {
        assert(out@ == head + dec_digits(now_sec as nat) + ".zip"@);
        assert(out@.subrange(out@.len() - 4, out@.len() as int) =~= ".zip"@);
        assert forall|k: int| 0 <= k < out@.len() implies !is_name_special(#[trigger] out@[k]) by {
            if k < head.len() {
                assert(out@[k] == head[k]);
            } else if k < head.len() + dec_digits(now_sec as nat).len() {
                assert(out@[k] == dec_digits(now_sec as nat)[k - head.len()]);
            } else {
                assert(out@[k] == ".zip"@[k - head.len() - dec_digits(now_sec as nat).len()]);
            }
        }
        if head.len() > 0 {
            assert(out@[0] == head[0]);
        }
        match backup_name {
            Some(s) => {
                if trimmed(s@).len() > 0 {
                    assert(head =~= clean_backup_stem(trimmed(s@)) + "-"@);
                }
            },
            None => {},
        }
    }
    out
}

/// The restore guard (zip-slip): an archive entry is extracted only when its
/// name holds no `..`, does not start with `/` or `\`, and has no drive colon
/// as its second byte.
pub open spec fn is_safe_entry_name(name: Seq<char>) -> bool {
    &&& !has_infix(name, ".."@)
    &&& !(name.len() > 0 && (name[0] == '/' || name[0] == '\\'))
    &&& !(encode_utf8(name).len() > 1 && encode_utf8(name)[1] == 58u8)
}

/// The restore guard is the shared relative-path guard that pack paths
/// pass too: non-empty, no `..`, no leading `/` or `\`, no drive colon.
pub proof fn lemma_restore_guard_is_shared(name: Seq<char>)
    ensures
        (name.len() > 0 && is_safe_entry_name(name)) == text_guarded_rel(name),
{
}

/// A plain archive path: a name of letters, digits, spaces, `-`, `_`, `.` and
/// `/` separators, not starting with `/`, with no two dots in a row.
pub open spec fn plain_entry_name(name: Seq<char>) -> bool {
    &&& name.len() > 0
    &&& name[0] != '/'
    &&& forall|i: int|
        0 <= i < name.len() ==> ('a' <= #[trigger] name[i] <= 'z' || 'A' <= name[i] <= 'Z' || '0'
            <= name[i] <= '9' || name[i] == ' ' || name[i] == '-' || name[i] == '_' || name[i] == '.'
            || name[i] == '/')
    &&& forall|i: int| 0 <= i < name.len() - 1 ==> !(#[trigger] name[i] == '.' && name[i + 1] == '.')
}

/// Every plain archive path is restored: world folders such as
/// `New World/level.dat` or `saves/region/r.0.0.mca` pass the restore guard.
pub proof fn lemma_plain_entry_names_restored(name: Seq<char>)
    requires
        plain_entry_name(name),
    ensures
        name.len() > 0 && is_safe_entry_name(name),
        text_guarded_rel(name),
{
    reveal_strlit("..");
    assert(".."@.len() == 2 && ".."@[0] == '.' && ".."@[1] == '.');
    assert forall|i: int| !occurs_at(name, ".."@, i) by {
        if occurs_at(name, ".."@, i) {
            assert(name.subrange(i, i + 2)[0] == name[i]);
            assert(name.subrange(i, i + 2)[1] == name[i + 1]);
        }
    }
    assert(!has_infix(name, ".."@));
    assert(is_ascii_chars(name)) by {
        assert forall|i: int| 0 <= i < name.len() implies '\0' <= #[trigger] name[i] <= '\u{7f}' by {
            assert('a' <= name[i] <= 'z' || 'A' <= name[i] <= 'Z' || '0' <= name[i] <= '9' || name[i]
                == ' ' || name[i] == '-' || name[i] == '_' || name[i] == '.' || name[i] == '/');
        }
    }
    is_ascii_chars_encode_utf8(name);
    if name.len() > 1 {
        let c = name[1];
        assert('a' <= c <= 'z' || 'A' <= c <= 'Z' || '0' <= c <= '9' || c == ' ' || c == '-' || c
            == '_' || c == '.' || c == '/');
        assert(c as u8 == encode_utf8(name)[1]);
        assert((c as u8) != 58u8);
    }
}

/// Whether `restore_backup` extracts an entry with this name: it passes the
/// text guard and, as a path, stays below the saves folder (it has
/// components, each a normal name or `.`).
pub fn backup_entry_allowed(name: &str) -> (r: bool)
    ensures
        r == (is_safe_entry_name(name@) && stays_below(spec_path_components(name@))),
        r == (name@.len() > 0 && is_safe_entry_name(name@)),
        r == text_guarded_rel(name@),
        plain_entry_name(name@) ==> r,
{
    proof {
        lemma_restore_guard_is_shared(name@);
        if plain_entry_name(name@) {
            lemma_plain_entry_names_restored(name@);
        }
    }
    if contains_str(name, "..") || starts_with_char(name, '/') || starts_with_char(name, '\\') {
        return false;
    }
    let b = name.as_bytes();
    if b.len() > 1 && b[1] == 58u8 {
        return false;
    }
    let parts = path_components(name);
    parts_stay_below(&parts)
}

/// Newest first by creation time, compared as text.
pub open spec fn newer_first() -> spec_fn(BackupEntry, BackupEntry) -> bool {
    |a: BackupEntry, b: BackupEntry| lex_le(b.created_at@, a.created_at@)
}

/// The backup listing, newest first; the same entries, each as often.
pub fn sort_backups(entries: Vec<BackupEntry>) -> (r: Vec<BackupEntry>)
    ensures
        sorted_by(r@, newer_first()),
        r@.to_multiset() == entries@.to_multiset(),
{
    proof {
        assert forall|a: BackupEntry, b: BackupEntry|
            #[trigger] newer_first()(a, b) || newer_first()(b, a) by {
            lemma_lex_total(a.created_at@, b.created_at@);
        }
        assert forall|a: BackupEntry, b: BackupEntry, c: BackupEntry|
            #[trigger] newer_first()(a, b) && #[trigger] newer_first()(b, c) implies newer_first()(
            a,
            c,
        ) by {
            lemma_lex_trans(c.created_at@, b.created_at@, a.created_at@);
        }
    }
    sort_with(
        entries,
        (|a: &BackupEntry, b: &BackupEntry| -> (x: bool)
            ensures
                x == lex_le(b.created_at@, a.created_at@),
            { str_le(b.created_at.as_str(), a.created_at.as_str()) }),
        Ghost(newer_first()),
    )
}

/// The file name `create_backup` writes for an instance: the instance name
/// must pass the shared guard; the name is then `backup_file_name`'s.
pub fn create_backup_name(instance: &str, backup_name: Option<&str>, now_sec: u64) -> (r: Result<
    String,
    String,
>)
    ensures
        !is_valid_instance_name(instance@) ==> (r matches Err(e) && e@ == "invalid instance name"@),
        is_valid_instance_name(instance@) ==> (r matches Ok(n) && n@ == backup_name_of(
            opt_str(backup_name),
            now_sec,
        ) && is_valid_backup_file_name(n@)),
{
    if !valid_instance_name(instance) {
        return Err(String::from_str("invalid instance name"));
    }
    Ok(backup_file_name(backup_name, now_sec))
}

/// The guard of `restore_backup` and `delete_backup`: the backup file name
/// is checked first, then the instance name.
pub fn backup_request(instance: &str, file_name: &str) -> (r: Result<(), String>)
    ensures
        !is_valid_backup_file_name(file_name@) ==> (r matches Err(e) && e@
            == "invalid backup file name"@),
        is_valid_backup_file_name(file_name@) && !is_valid_instance_name(instance@) ==> (r matches Err(
            e,
        ) && e@ == "invalid instance name"@),
        is_valid_backup_file_name(file_name@) && is_valid_instance_name(instance@) ==> r is Ok,
{
    if !valid_backup_file_name(file_name) {
        return Err(String::from_str("invalid backup file name"));
    }
    if !valid_instance_name(instance) {
        return Err(String::from_str("invalid instance name"));
    }
    Ok(())
}

/// A file of the backups folder as a listing entry: only `.zip` files are
/// listed; the creation time is the modification time in seconds since the
/// epoch, or `0` when it cannot be read.
pub fn listed_backup(name: &str, size_bytes: u64, modified_secs: Option<u64>) -> (r: Option<
    BackupEntry,
>)
    ensures
        !has_suffix(name@, ".zip"@) ==> r is None,
        has_suffix(name@, ".zip"@) ==> (r matches Some(b) && b.file_name@ == name@ && b.size_bytes
            == size_bytes && b.created_at@ == match modified_secs {
            Some(t) => dec_digits(t as nat),
            None => "0"@,
        }),
{
    if !ends_with(name, ".zip") {
        return None;
    }
    let created_at = match modified_secs {
        Some(t) => decimal(t),
        None => String::from_str("0"),
    };
    Some(BackupEntry { file_name: String::from_str(name), size_bytes, created_at })
}

/// A restored entry `(name, out)` of the archive in `archive`: a directory
/// entry of the archive with `out` `None`, or a file entry that reads out with
/// `out` its data.
pub open spec fn restored_entry(archive: Seq<u8>, name: Seq<char>, out: Option<Vec<u8>>) -> bool {
    if is_dir_name(name) {
        archive_entry(archive, name) is Some && out is None
    } else {
        archive_entry(archive, name) matches Some(Some(d)) && (out matches Some(v) && v@ == d)
    }
}

/// An entry `restore_backup` extracts: a non-empty name passing the restore
/// guard.
pub open spec fn restorable_name(name: Seq<char>) -> bool {
    name.len() > 0 && is_safe_entry_name(name)
}

/// Some item of `v` has the name `n`.
pub open spec fn names_entry(v: Seq<(String, Option<Vec<u8>>)>, n: Seq<char>) -> bool {
    exists|k: int| 0 <= k < v.len() && v[k].0@ == n
}

/// Every item of `v` is an entry of the archive in `archive` that passes the
/// restore guard, stays below the saves folder, and is given as it reads out.
pub open spec fn restore_sound(archive: Seq<u8>, v: Seq<(String, Option<Vec<u8>>)>) -> bool {
    forall|k: int|
        0 <= k < v.len() ==> restorable_name((#[trigger] v[k]).0@) && stays_below(
            spec_path_components(v[k].0@),
        ) && restored_entry(archive, v[k].0@, v[k].1)
}

/// Every entry of the archive in `archive` that reads out and passes the
/// restore guard is named in `v`.
pub open spec fn restore_complete(archive: Seq<u8>, v: Seq<(String, Option<Vec<u8>>)>) -> bool {
    forall|n: Seq<char>| restorable_name(n) && #[trigger] entry_reads(archive, n) ==> names_entry(v, n)
}

/// Restoring stops on a listed entry when the archive cannot open it, when
/// its name is empty (a file would be written over the saves folder itself),
/// or when it is a file that passes the guard and does not read out.
pub open spec fn entry_blocks_restore(m: Map<Seq<char>, Option<Seq<u8>>>, n: Seq<char>) -> bool {
    !m.dom().contains(n) || n.len() == 0 || (restorable_name(n) && !is_dir_name(n) && m[n] is None)
}

/// The restore of an archive listing `names` with entries `m`, in listing
/// order: each entry passing the guard, with no data for a directory, else
/// its data.
pub open spec fn restore_plan(names: Seq<Seq<char>>, m: Map<Seq<char>, Option<Seq<u8>>>) -> Seq<
    (Seq<char>, Option<Seq<u8>>),
>
    decreases names.len(),
{
    if names.len() == 0 {
        seq![]
    } else {
        let r = restore_plan(names.drop_last(), m);
        let n = names.last();
        if restorable_name(n) {
            r.push((n, if is_dir_name(n) { None } else { m[n] }))
        } else {
            r
        }
    }
}

/// Restored items as plain values.
pub open spec fn restored_view(v: Seq<(String, Option<Vec<u8>>)>) -> Seq<(Seq<char>, Option<Seq<u8>>)> {
    v.map_values(
        |e: (String, Option<Vec<u8>>)|
            (
                e.0@,
                match e.1 {
                    Some(d) => Some(d@),
                    None => None,
                },
            ),
    )
}

/// The entries `restore_backup` extracts from a backup archive, in archive
/// order, as names with `None` for a directory or the file's data: every
/// entry whose name passes the restore guard. Bytes that are no archive, a
/// listed entry the archive cannot open or with an empty name, or a guarded
/// file entry that does not read out give an error text.
pub fn restore_entries(archive: &[u8]) -> (r: Result<Vec<(String, Option<Vec<u8>>)>, String>)
    ensures
        spec_zip_read(archive@) is None ==> r is Err,
        spec_zip_read(archive@) matches Some(m) ==> (r is Err <==> exists|j: int|
            0 <= j < spec_zip_names(archive@).len() && #[trigger] entry_blocks_restore(
                m,
                spec_zip_names(archive@)[j],
            )),
        r matches Ok(v) ==> (spec_zip_read(archive@) matches Some(m) && restored_view(v@)
            == restore_plan(spec_zip_names(archive@), m)),
        r matches Ok(v) ==> restore_sound(archive@, v@),
        r matches Ok(v) ==> restore_complete(archive@, v@),
{
    let mut zip = match zip_open(archive) {
        Ok(z) => z,
        Err(e) => {
            return Err(zip_error_text(&e));
        },
    };
    let ghost m = spec_zip_entries(zip);
    let names = zip_entry_names(&zip);
    let ghost all = views(names@);
    let mut out: Vec<(String, Option<Vec<u8>>)> = Vec::new();
    let n = names.len();
    let mut i: usize = 0;
    proof {
        assert(restored_view(out@) =~= restore_plan(all.take(0), m));
        assert forall|nm: Seq<char>| #[trigger] m.dom().contains(nm) implies exists|k: int|
            0 <= k < all.len() && all[k] == nm by {
            let k = choose|k: int| 0 <= k < names@.len() && names@[k]@ == nm;
            assert(all[k] == names@[k]@);
        }
    }
    while i < n
        invariant
            n == names@.len(),
            0 <= i <= n,
            all == views(names@),
            all == spec_zip_names(archive@),
            spec_zip_read(archive@) == Some(m),
            spec_zip_entries(zip) == m,
            forall|nm: Seq<char>| #[trigger] m.dom().contains(nm) ==> exists|k: int|
                0 <= k < all.len() && all[k] == nm,
            forall|j: int| 0 <= j < i ==> !#[trigger] entry_blocks_restore(m, all[j]),
            restored_view(out@) == restore_plan(all.take(i as int), m),
            forall|k: int|
                0 <= k < out@.len() ==> restorable_name((#[trigger] out@[k]).0@) && stays_below(
                    spec_path_components(out@[k].0@),
                ) && restored_entry(archive@, out@[k].0@, out@[k].1),
            forall|j: int|
                0 <= j < i && restorable_name(#[trigger] all[j]) && m.dom().contains(all[j])
                    && m[all[j]] is Some ==> names_entry(out@, all[j]),
        decreases n - i,
    {
        let name = names[i].as_str();
        proof {
            assert(all[i as int] == name@);
            assert(all.take(i + 1).drop_last() =~= all.take(i as int));
        }
        let allowed = backup_entry_allowed(name);
        let is_dir = dir_name(name);
        let found = zip_entry_bytes(&mut zip, name);
        if name.unicode_len() == 0 {
            proof {
                assert(entry_blocks_restore(spec_zip_read(archive@)->Some_0, spec_zip_names(archive@)[i as int]));
            }
            return Err(String::from_str("backup entry with an empty name"));
        }
        match found {
            Err(e) => {
                proof {
                    assert(entry_blocks_restore(spec_zip_read(archive@)->Some_0, spec_zip_names(archive@)[i as int]));
                }
                return Err(zip_error_text(&e));
            },
            Ok(read) => {
                if allowed {
                    let item = if is_dir {
                        None
                    } else {
                        match read {
                            Ok(d) => Some(d),
                            Err(e) => {
                                proof {
                                    assert(entry_blocks_restore(
                                        spec_zip_read(archive@)->Some_0,
                                        spec_zip_names(archive@)[i as int],
                                    ));
                                }
                                return Err(io_error_text(&e));
                            },
                        }
                    };
                    let ghost before = out@;
                    out.push((String::from_str(name), item));
                    proof {
                        assert(restored_view(out@) =~= restored_view(before).push(
                            (name@, if is_dir_name(name@) { None } else { m[name@] }),
                        ));
                        assert(out@[before.len() as int].0@ == all[i as int]);
                        assert forall|j: int|
                            0 <= j < i + 1 && restorable_name(#[trigger] all[j]) && m.dom().contains(
                                all[j],
                            ) && m[all[j]] is Some implies names_entry(out@, all[j]) by {
                            if j < i {
                                let k0 = choose|k: int| 0 <= k < before.len() && before[k].0@ == all[j];
                                assert(out@[k0] == before[k0]);
                            }
                        }
                        assert(names_entry(out@, all[i as int]));
                    }
                } else {
                    proof {
                        assert(restore_plan(all.take(i + 1), m) == restore_plan(all.take(i as int), m));
                    }
                }
            },
        }
        i = i + 1;
    }
    proof {
        assert(all.take(n as int) =~= all);
        assert forall|nm: Seq<char>|
            restorable_name(nm) && #[trigger] entry_reads(archive@, nm) implies names_entry(out@, nm) by {
            assert(m.dom().contains(nm));
            let j = choose|j: int| 0 <= j < all.len() && all[j] == nm;
            assert(restorable_name(all[j]));
        }
    }
    Ok(out)
}

/// An entry name as stored in a backup archive: `\\` made `/`.
pub open spec fn slash_name(s: Seq<char>) -> Seq<char> {
    s.map_values(|c: char| if c == '\\' { '/' } else { c })
}

/// `\\` made `/` in an entry name.
fn slash_name_of(s: &str) -> (r: String)
    ensures
        r@ == slash_name(s@),
{
    let mut out = String::new();
    let n = s.unicode_len();
    let mut i: usize = 0;
    while i < n
        invariant
            n == s@.len(),
            0 <= i <= n,
            out@ == slash_name(s@.take(i as int)),
        decreases n - i,
    {
        let c = s.get_char(i);
        let d = if c == '\\' {
            '/'
        } else {
            c
        };
        string_push(&mut out, d);
        assert(slash_name(s@.take(i + 1)) =~= slash_name(s@.take(i as int)).push(d));
        i = i + 1;
    }
    assert(s@.take(n as int) =~= s@);
    out
}

/// The entry a backup item becomes: a file under its name, a directory under
/// its name with a trailing `/`; names use `/`.
pub open spec fn written_form(e: (String, Option<Vec<u8>>)) -> (Seq<char>, Seq<u8>) {
    match e.1 {
        Some(d) => (slash_name(e.0@), d@),
        None => (dir_entry_name(slash_name(e.0@)), Seq::<u8>::empty()),
    }
}

/// The entries a backup archive gets for the items, in order.
pub open spec fn backup_written(items: Seq<(String, Option<Vec<u8>>)>) -> Seq<(Seq<char>, Seq<u8>)> {
    items.map_values(|e: (String, Option<Vec<u8>>)| written_form(e))
}

/// The items give pairwise distinct entry names.
pub open spec fn backup_names_distinct(items: Seq<(String, Option<Vec<u8>>)>) -> bool {
    forall|i: int, j: int|
        0 <= i < j < items.len() ==> #[trigger] written_form(items[i]).0 != #[trigger] written_form(
            items[j],
        ).0
}

/// Every entry name the items give fits the ZIP name field.
pub open spec fn backup_names_fit(items: Seq<(String, Option<Vec<u8>>)>) -> bool {
    forall|k: int|
        0 <= k < items.len() ==> utf8_len(#[trigger] written_form(items[k]).0) <= zip_name_limit()
}

/// What a successful `backup_archive` gives: every item reads back from the
/// archive under its entry name with its data, the archive has no other
/// entries, and it lists them in the items' order.
pub open spec fn backup_archive_holds(items: Seq<(String, Option<Vec<u8>>)>, b: Seq<u8>) -> bool {
    &&& forall|k: int|
        0 <= k < items.len() ==> #[trigger] archive_entry(b, written_form(items[k]).0) == Some(
            Some(written_form(items[k]).1),
        )
    &&& forall|n: Seq<char>|
        #[trigger] archive_entry(b, n) is Some ==> exists|k: int|
            0 <= k < items.len() && written_form(items[k]).0 == n
    &&& spec_zip_names(b) == backup_written(items).map_values(|e: (Seq<char>, Seq<u8>)| e.0)
    &&& spec_zip_read(b) is Some
}

proof fn lemma_written_size_take(s: Seq<(Seq<char>, Seq<u8>)>, i: int)
    requires
        0 <= i <= s.len(),
    ensures
        written_size(s.take(i)) <= written_size(s),
    decreases s.len(),
{
    if i < s.len() {
        assert(s.take(i) =~= s.drop_last().take(i));
        lemma_written_size_take(s.drop_last(), i);
    } else {
        assert(s.take(i) =~= s);
    }
}

/// The archive `create_backup` writes for the saves folder's items, given in
/// walking order as relative paths with `None` for a directory or the file's
/// data. On success it is an archive whose entries are exactly the items,
/// names written with `/`, directories with a trailing `/`, each reading out
/// as the item's data (a directory as no data). It succeeds whenever the
/// entry names are pairwise distinct and the data is within the writer's
/// plain-archive limit; otherwise the ZIP writer's error text.
pub fn backup_archive(items: &Vec<(String, Option<Vec<u8>>)>) -> (r: Result<Vec<u8>, String>)
    requires
        backup_names_fit(items@),
    ensures
        r matches Ok(b) ==> backup_archive_holds(items@, b@),
        backup_names_distinct(items@) && written_size(backup_written(items@)) <= zip_plain_limit()
            ==> r is Ok,
{
    let ghost owed = backup_names_distinct(items@) && written_size(backup_written(items@))
        <= zip_plain_limit();
    let ghost all = backup_written(items@);
    let mut w = zip_writer_new();
    let n = items.len();
    let mut i: usize = 0;
    proof {
        assert(spec_zip_written(w) =~= all.take(0));
    }
    while i < n
        invariant
            n == items@.len(),
            0 <= i <= n,
            all == backup_written(items@),
            all.len() == n,
            owed == (backup_names_distinct(items@) && written_size(all) <= zip_plain_limit()),
            backup_names_fit(items@),
            spec_zip_written(w) == all.take(i as int),
        decreases n - i,
    {
        let name = slash_name_of(items[i].0.as_str());
        let ghost before = spec_zip_written(w);
        proof {
            assert(all[i as int] == written_form(items@[i as int]));
            assert(utf8_len(written_form(items@[i as int]).0) <= zip_name_limit());
            lemma_written_size_take(all, i as int);
            lemma_written_size_take(all, i + 1);
            assert(all.take(i + 1).drop_last() =~= all.take(i as int));
            if owed {
                assert forall|k: int| 0 <= k < before.len() implies (#[trigger] before[k]).0 != all[i as int].0 by {
                    assert(before[k] == all[k]);
                    assert(all[k] == written_form(items@[k]));
                }
            }
        }
        match &items[i].1 {
            None => {
                match zip_add_directory(&mut w, name.as_str()) {
                    Ok(()) => {},
                    Err(e) => {
                        return Err(zip_error_text(&e));
                    },
                }
            },
            Some(data) => {
                match zip_start_file(&mut w, name.as_str()) {
                    Ok(()) => {},
                    Err(e) => {
                        return Err(zip_error_text(&e));
                    },
                }
                proof {
                    assert(spec_zip_written(w).drop_last() =~= before);
                }
                match zip_write_all(&mut w, data.as_slice()) {
                    Ok(()) => {},
                    Err(e) => {
                        return Err(io_error_text(&e));
                    },
                }
                assert(Seq::<u8>::empty() + data@ =~= data@);
            },
        }
        proof {
            assert(spec_zip_written(w) =~= all.take(i + 1));
        }
        i = i + 1;
    }
    let ghost written = spec_zip_written(w);
    proof {
        assert(written =~= all);
    }
    match zip_finish(w) {
        Ok(b) => {
            proof {
                assert forall|k: int| 0 <= k < items@.len() implies #[trigger] archive_entry(
                    b@,
                    written_form(items@[k]).0,
                ) == Some(Some(written_form(items@[k]).1)) by {
                    assert(written[k] == written_form(items@[k]));
                }
                assert forall|nm: Seq<char>| #[trigger] archive_entry(b@, nm) is Some implies exists|k: int|
                    0 <= k < items@.len() && written_form(items@[k]).0 == nm by {
                    let k = choose|k: int| 0 <= k < written.len() && written[k].0 == nm;
                    assert(written[k] == written_form(items@[k]));
                }
                assert(written.map_values(|e: (Seq<char>, Seq<u8>)| e.0) =~= backup_written(items@).map_values(
                    |e: (Seq<char>, Seq<u8>)| e.0,
                ));
            }
            Ok(b)
        },
        Err(e) => Err(zip_error_text(&e)),
    }
}

/// `restore_backup` gives back what `create_backup` stored: a file written to
/// a backup archive under a name that passes the restore guard is listed by
/// the restore with the same data.
pub proof fn lemma_backup_round_trip(
    archive: Seq<u8>,
    restored: Seq<(String, Option<Vec<u8>>)>,
    name: Seq<char>,
    data: Seq<u8>,
)
    requires
        archive_entry(archive, name) == Some(Some(data)),
        restorable_name(name),
        !is_dir_name(name),
        restore_sound(archive, restored),
        restore_complete(archive, restored),
    ensures
        exists|k: int|
            0 <= k < restored.len() && (#[trigger] restored[k]).0@ == name && restored[k].1 == Some(
                restored[k].1->Some_0,
            ) && restored[k].1->Some_0@ == data,
{
    assert(entry_reads(archive, name));
    let k = choose|k: int| 0 <= k < restored.len() && restored[k].0@ == name;
    assert(restored_entry(archive, restored[k].0@, restored[k].1));
}

/// Backup then restore: for the saves folder's items, with the name
/// `create_backup_name` gives, `backup_archive` builds the archive (it always
/// succeeds on distinct names within the writer's limit), and restoring that
/// archive with `restore_entries` gives back every saved file whose path
/// passes the restore guard, under the same path (written with `/`) and with
/// the same data.
pub proof fn lemma_create_then_restore(
    items: Seq<(String, Option<Vec<u8>>)>,
    archive: Seq<u8>,
    restored: Seq<(String, Option<Vec<u8>>)>,
    k: int,
)
    requires
        backup_archive_holds(items, archive),
        restore_sound(archive, restored),
        restore_complete(archive, restored),
        0 <= k < items.len(),
        items[k].1 is Some,
        restorable_name(slash_name(items[k].0@)),
        !is_dir_name(slash_name(items[k].0@)),
    ensures
        exists|j: int|
            0 <= j < restored.len() && (#[trigger] restored[j]).0@ == slash_name(items[k].0@)
                && restored[j].1 == Some(restored[j].1->Some_0) && restored[j].1->Some_0@
                == items[k].1->Some_0@,
{
    assert(archive_entry(archive, written_form(items[k]).0) == Some(Some(written_form(items[k]).1)));
    lemma_backup_round_trip(archive, restored, slash_name(items[k].0@), items[k].1->Some_0@);
}

/// A backup archive restores in full: when every item of the saves folder
/// has a non-empty name, no entry of the archive `backup_archive` built stops
/// the restore, so `restore_entries` succeeds on it.
pub proof fn lemma_backup_restores_fully(items: Seq<(String, Option<Vec<u8>>)>, archive: Seq<u8>)
    requires
        backup_archive_holds(items, archive),
        forall|k: int| 0 <= k < items.len() ==> (#[trigger] items[k]).0@.len() > 0,
    ensures
        spec_zip_read(archive) is Some,
        forall|j: int|
            0 <= j < spec_zip_names(archive).len() ==> !#[trigger] entry_blocks_restore(
                spec_zip_read(archive)->Some_0,
                spec_zip_names(archive)[j],
            ),
{
    let names = spec_zip_names(archive);
    let m = spec_zip_read(archive)->Some_0;
    assert forall|j: int| 0 <= j < names.len() implies !#[trigger] entry_blocks_restore(m, names[j]) by {
        assert(names[j] == backup_written(items)[j].0);
        assert(backup_written(items)[j] == written_form(items[j]));
        assert(archive_entry(archive, written_form(items[j]).0) == Some(Some(written_form(items[j]).1)));
        assert(slash_name(items[j].0@).len() == items[j].0@.len());
    }
}

} // verus!
