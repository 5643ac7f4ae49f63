//! Install system: Mojang version manifests, hash-verified downloads, the
//! per-instance mod folder, and Forge installer profiles.
use crate::archive::{
    archive_entry, io_error_text, is_text, spec_zip_read, zip_entry_string, zip_error_text, zip_open,
};
use crate::digest::{sha1_matches, spec_sha1};
use crate::text::{has_infix, hex_chars, spec_to_lowercase};
use std::path::PathBuf;
use vstd::prelude::*;
use vstd::utf8::{decode_utf8, encode_utf8, valid_utf8};

verus! {

/// Errors of the install system.
#[derive(Debug)]
pub enum InstallError {
    Http(String),
    HashMismatch(String),
    Io(String),
}

/// The text an install error is shown with.
pub open spec fn install_error_text(e: InstallError) -> Seq<char> {
    match e {
        InstallError::Http(m) => "http: "@ + m@,
        InstallError::HashMismatch(m) => "hash mismatch for "@ + m@,
        InstallError::Io(m) => "io: "@ + m@,
    }
}

impl InstallError {
    /// The message shown for this error.
    pub fn message(&self) -> (r: String)
        ensures
            r@ == install_error_text(*self),
    {
        let (prefix, m) = match self {
            InstallError::Http(m) => ("http: ", m),
            InstallError::HashMismatch(m) => ("hash mismatch for ", m),
            InstallError::Io(m) => ("io: ", m),
        };
        let mut s = String::from_str(prefix);
        s.append(m.as_str());
        s
    }
}

/// Where Mojang publishes the version list.
pub const VERSION_MANIFEST_V2: &'static str = "https://piston-meta.mojang.com/mc/game/version_manifest_v2.json";

/// One entry of the Mojang version list.
#[allow(non_snake_case)]
#[derive(Debug, Clone)]
pub struct VersionEntry {
    pub id: String,
    pub kind: String,
    pub url: String,
    pub time: String,
    pub releaseTime: String,
    pub sha1: String,
}

/// A downloaded artifact is accepted when its lower-case hex SHA-1 equals the
/// expected digest lowercased; otherwise it is a hash mismatch for its URL.
pub fn check_download_sha1(bytes: &[u8], expect_sha1: &str, url: &str) -> (r: Result<
    (),
    InstallError,
>)
    ensures
        hex_chars(spec_sha1(bytes@)) == spec_to_lowercase(expect_sha1@) ==> r is Ok,
        hex_chars(spec_sha1(bytes@)) != spec_to_lowercase(expect_sha1@) ==> (r matches Err(
            InstallError::HashMismatch(u),
        ) && u@ == url@),
{
    if !sha1_matches(bytes, expect_sha1) {
        return Err(InstallError::HashMismatch(String::from_str(url)));
    }
    Ok(())
}

/// `std::path::PathBuf`, carried through opaquely.
#[verifier::external_type_specification]
#[verifier::external_body]
pub struct ExPathBuf(PathBuf);

/// What `Path::join` makes of a base path and a relative part.
pub uninterp spec fn spec_path_join(base: PathBuf, part: Seq<char>) -> PathBuf;

/// `std::path::Path::join`. Claimed here: the joined path is the named
/// function of the base path and the part, a function of the two alone.
#[verifier::external_body]
fn path_join(base: &PathBuf, part: &str) -> (r: PathBuf)
    ensures
        r == spec_path_join(*base, part@),
{
    base.join(part)
}

/// A path segment without separators or drive colons.
pub open spec fn plain_segment(s: Seq<char>) -> bool {
    s.len() > 0 && !s.contains('/') && !s.contains('\\') && !s.contains(':')
}

/// The kind of one path component, as `std::path::Component` tells them
/// apart.
#[derive(Debug, Clone, Copy, PartialEq, Eq, Structural)]
pub enum PathPart {
    Prefix,
    RootDir,
    CurDir,
    ParentDir,
    Normal,
}

/// What `Path::components` yields for the path `s`, by kind.
pub uninterp spec fn spec_path_components(s: Seq<char>) -> Seq<PathPart>;

/// A relative path that stays below the folder it is joined to: it has
/// components, and each is a normal name or `.`.
pub open spec fn stays_below(parts: Seq<PathPart>) -> bool {
    &&& parts.len() > 0
    &&& forall|i: int| 0 <= i < parts.len() ==> (#[trigger] parts[i] == PathPart::Normal || parts[i]
        == PathPart::CurDir)
}

/// Whether a relative path stays below the folder it is joined to.
pub(crate) fn parts_stay_below(parts: &Vec<PathPart>) -> (r: bool)
    ensures
        r == stays_below(parts@),
{
    let n = parts.len();
    if n == 0 {
        return false;
    }
    let mut i: usize = 0;
    while i < n
        invariant
            n == parts@.len(),
            0 <= i <= n,
            forall|k: int| 0 <= k < i ==> (#[trigger] parts@[k] == PathPart::Normal || parts@[k]
                == PathPart::CurDir),
        decreases n - i,
    {
        if parts[i] != PathPart::Normal && parts[i] != PathPart::CurDir {
            return false;
        }
        i = i + 1;
    }
    true
}

/// A relative path by its text: non-empty, no `..`, no leading `/` or `\`,
/// and no `:` as its second byte (so no drive or UNC prefix, no root).
pub open spec fn text_guarded_rel(s: Seq<char>) -> bool {
    &&& s.len() > 0
    &&& !has_infix(s, ".."@)
    &&& !(s[0] == '/' || s[0] == '\\')
    &&& !(encode_utf8(s).len() > 1 && encode_utf8(s)[1] == 58u8)
}

/// `std::path::Path::components`, each component given by its kind. Claimed
/// here: the kinds are the named function of the text, and, as holds on Unix
/// and on Windows, the empty path has no components; a path without `/`, `\`
/// or `:` other than `.` and `..` is one normal component; two such segments
/// joined by `/` give two components unless the second is `.`; and a path
/// guarded by its text (`text_guarded_rel`) has at least one component, each
/// a normal name or `.` (a root, a prefix and `..` all need text it lacks).
#[verifier::external_body]
pub(crate) fn path_components(s: &str) -> (r: Vec<PathPart>)
    ensures
        r@ == spec_path_components(s@),
        s@.len() == 0 ==> r@.len() == 0,
        plain_segment(s@) && s@ != "."@ && s@ != ".."@ ==> r@ == seq![PathPart::Normal],
        forall|a: Seq<char>, b: Seq<char>|
            plain_segment(a) && plain_segment(b) && b != "."@ && s@ == a + "/"@ + b ==> r@.len()
                == 2,
        text_guarded_rel(s@) ==> stays_below(r@),
{
    let mut parts = Vec::new();
    for c in std::path::Path::new(s).components() {
        parts.push(match c {
            std::path::Component::Prefix(_) => PathPart::Prefix,
            std::path::Component::RootDir => PathPart::RootDir,
            std::path::Component::CurDir => PathPart::CurDir,
            std::path::Component::ParentDir => PathPart::ParentDir,
            std::path::Component::Normal(_) => PathPart::Normal,
        });
    }
    parts
}

/// A Minecraft instance's on-disk layout.
#[derive(Debug)]
pub struct Instance {
    pub name: String,
    pub game_version: String,
    pub loader: String,
    pub dir: PathBuf,
}

/// The mod-folder rule: a file name is accepted when, as a path, it is a
/// single normal component, and it is non-empty without a leading dot.
pub fn mod_file_name_allowed(file_name: &str, parts: &Vec<PathPart>) -> (r: bool)
    ensures
        r == (parts@ == seq![PathPart::Normal] && file_name@.len() > 0 && file_name@[0] != '.'),
{
    let one = parts.len() == 1 && parts[0] == PathPart::Normal;
    assert(one ==> parts@ =~= seq![PathPart::Normal]);
    one && file_name.unicode_len() > 0 && file_name.get_char(0) != '.'
}

impl Instance {
    /// The instance's mod folder, `dir/mods`.
    pub fn mods_dir(&self) -> (r: PathBuf)
        ensures
            r == spec_path_join(self.dir, "mods"@),
    {
        path_join(&self.dir, "mods")
    }

    /// Rejects path traversal: the file name must be a single normal path
    /// component, non-empty, without a leading dot; the result is
    /// `mods_dir()/file_name`.
    pub fn safe_mod_path(&self, file_name: &str) -> (r: Option<PathBuf>)
        ensures
            r is Some <==> (spec_path_components(file_name@) == seq![PathPart::Normal]
                && file_name@.len() > 0 && file_name@[0] != '.'),
            plain_segment(file_name@) && file_name@[0] != '.' ==> r is Some,
            (exists|a: Seq<char>, b: Seq<char>|
                plain_segment(a) && plain_segment(b) && b != "."@ && file_name@ == a + "/"@ + b)
                ==> r is None,
            r matches Some(p) ==> p == spec_path_join(spec_path_join(self.dir, "mods"@), file_name@),
    {
        let parts = path_components(file_name);
        proof {
            reveal_strlit(".");
            reveal_strlit("..");
            if plain_segment(file_name@) && file_name@[0] != '.' {
                assert(file_name@ != "."@);
                assert(file_name@ != ".."@);
            }
        }
        if !mod_file_name_allowed(file_name, &parts) {
            return None;
        }
        Some(path_join(&self.mods_dir(), file_name))
    }
}

/// Errors reading a Forge installer.
#[derive(Debug)]
pub enum ProfileError {
    Zip(String),
    MissingProfile,
    Json(String),
}

/// The text a profile error is shown with.
pub open spec fn profile_error_text(e: ProfileError) -> Seq<char> {
    match e {
        ProfileError::Zip(m) => "installer is not a valid ZIP: "@ + m@,
        ProfileError::MissingProfile => "installer has no install_profile.json"@,
        ProfileError::Json(m) => "invalid install_profile.json: "@ + m@,
    }
}

impl ProfileError {
    /// The message shown for this error.
    pub fn message(&self) -> (r: String)
        ensures
            r@ == profile_error_text(*self),
    {
        match self {
            ProfileError::Zip(m) => {
                let mut s = String::from_str("installer is not a valid ZIP: ");
                s.append(m.as_str());
                s
            },
            ProfileError::MissingProfile => String::from_str("installer has no install_profile.json"),
            ProfileError::Json(m) => {
                let mut s = String::from_str("invalid install_profile.json: ");
                s.append(m.as_str());
                s
            },
        }
    }
}

/// One processor step of a Forge installer.
#[derive(Debug, Clone)]
pub struct InstallerProcessor {
    pub sides: Option<Vec<String>>,
    pub jar: String,
    pub classpath: Vec<String>,
    pub args: Vec<String>,
}

/// One library a Forge installer needs.
#[derive(Debug)]
pub struct InstallerLibrary {
    pub name: String,
    pub downloads: Option<serde_json::Value>,
}

/// A Forge/NeoForge `install_profile.json`.
#[derive(Debug)]
pub struct InstallerProfile {
    pub spec: Option<u32>,
    pub version: Option<String>,
    pub path: Option<String>,
    pub processors: Vec<InstallerProcessor>,
    pub libraries: Vec<InstallerLibrary>,
    pub data: serde_json::Value,
}

/// The text of `install_profile.json` inside a Forge installer: bytes that
/// are no ZIP archive give `Zip`, an archive without the entry gives
/// `MissingProfile`, an entry that does not read out as UTF-8 text gives
/// `Json`; otherwise the entry's text.
pub fn install_profile_json(bytes: &[u8]) -> (r: Result<String, ProfileError>)
    ensures
        spec_zip_read(bytes@) is None <==> r matches Err(ProfileError::Zip(_)),
        (spec_zip_read(bytes@) is Some && archive_entry(bytes@, "install_profile.json"@) is None)
            <==> r matches Err(ProfileError::MissingProfile),
        (archive_entry(bytes@, "install_profile.json"@) matches Some(d) && !is_text(d)) <==> r matches Err(
            ProfileError::Json(_),
        ),
        archive_entry(bytes@, "install_profile.json"@) matches Some(Some(b)) ==> (valid_utf8(b) ==> (
        r matches Ok(t) && t@ == decode_utf8(b))),
{
    broadcast use vstd::utf8::encode_utf8_decode_utf8;

    let mut zip = match zip_open(bytes) {
        Ok(z) => z,
        Err(e) => {
            return Err(ProfileError::Zip(zip_error_text(&e)));
        },
    };
    match zip_entry_string(&mut zip, "install_profile.json") {
        Ok(Ok(text)) => Ok(text),
        Ok(Err(e)) => Err(ProfileError::Json(io_error_text(&e))),
        Err(_) => Err(ProfileError::MissingProfile),
    }
}

} // verus!
