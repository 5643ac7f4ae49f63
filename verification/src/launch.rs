//! Launch preparation: picking the requested version and its client jar, and
//! recognising a Java runtime from its `-version` output.
use crate::install::VersionEntry;
use crate::text::str_eq;
use vstd::prelude::*;
use vstd::utf8::{decode_utf8, valid_utf8};

verus! {

/// A client jar ready on disk.
#[derive(Debug, Clone)]
pub struct PreparedClient {
    pub version: String,
    pub jar_path: String,
}

/// A Java runtime found on the path.
#[derive(Debug, Clone)]
pub struct JavaInfo {
    pub path: String,
    pub version_line: String,
}

/// One named download of a version package (`client`, `server`, ...).
#[derive(Debug, Clone)]
pub struct DownloadArtifact {
    pub name: String,
    pub sha1: String,
    pub url: String,
}

/// The package URL of the first manifest entry with the requested id.
pub fn find_version_url(entries: &Vec<VersionEntry>, version: &str) -> (r: Result<String, String>)
    ensures
        (forall|j: int| 0 <= j < entries@.len() ==> entries@[j].id@ != version@) ==> (r matches Err(
            e,
        ) && e@ == "unknown version "@ + version@),
        (exists|j: int| 0 <= j < entries@.len() && entries@[j].id@ == version@) ==> (r matches Ok(
            u,
        ) && exists|k: int|
            0 <= k < entries@.len() && entries@[k].id@ == version@ && (forall|j: int|
                0 <= j < k ==> entries@[j].id@ != version@) && u@ == entries@[k].url@),
{
    let n = entries.len();
    let mut i: usize = 0;
    while i < n
        invariant
            n == entries@.len(),
            0 <= i <= n,
            forall|j: int| 0 <= j < i ==> entries@[j].id@ != version@,
        decreases n - i,
    {
        if str_eq(entries[i].id.as_str(), version) {
            return Ok(entries[i].url.clone());
        }
        i = i + 1;
    }
    let mut e = String::from_str("unknown version ");
    e.append(version);
    Err(e)
}

/// The URL and SHA-1 of the `client` download of a version package.
pub fn client_download(downloads: &Vec<DownloadArtifact>) -> (r: Result<(String, String), String>)
    ensures
        (forall|j: int| 0 <= j < downloads@.len() ==> downloads@[j].name@ != "client"@) ==> (r matches Err(
            e,
        ) && e@ == "version package has no client download"@),
        (exists|j: int| 0 <= j < downloads@.len() && downloads@[j].name@ == "client"@) ==> (r matches Ok(
            (u, h),
        ) && exists|k: int|
            0 <= k < downloads@.len() && downloads@[k].name@ == "client"@ && (forall|j: int|
                0 <= j < k ==> downloads@[j].name@ != "client"@) && u@ == downloads@[k].url@ && h@
                == downloads@[k].sha1@),
{
    let n = downloads.len();
    let mut i: usize = 0;
    while i < n
        invariant
            n == downloads@.len(),
            0 <= i <= n,
            forall|j: int| 0 <= j < i ==> downloads@[j].name@ != "client"@,
        decreases n - i,
    {
        if str_eq(downloads[i].name.as_str(), "client") {
            let ghost k = i as int;
            let u = downloads[i].url.clone();
            let h = downloads[i].sha1.clone();
            let ghost uv = u@;
            let ghost hv = h@;
            let r = (u, h);
            assert(r.0@ == uv && r.1@ == hv);
            return Ok(r);
        }
        i = i + 1;
    }
    Err(String::from_str("version package has no client download"))
}

/// What `String::from_utf8_lossy` makes of some bytes.
pub uninterp spec fn spec_utf8_lossy(bytes: Seq<u8>) -> Seq<char>;

/// `String::from_utf8_lossy`: the text of the bytes, invalid sequences
/// replaced by U+FFFD. Claimed here: the result is the named function of the
/// bytes, and valid UTF-8 decodes unchanged.
#[verifier::external_body]
pub(crate) fn utf8_lossy(bytes: &[u8]) -> (r: String)
    ensures
        r@ == spec_utf8_lossy(bytes@),
        valid_utf8(bytes@) ==> r@ == decode_utf8(bytes@),
{
    String::from_utf8_lossy(bytes).into_owned()
}

/// The text before the first line feed.
pub open spec fn line_head(t: Seq<char>) -> Seq<char>
    decreases t.len(),
{
    if t.len() == 0 || t[0] == '\n' {
        seq![]
    } else {
        seq![t[0]] + line_head(t.drop_first())
    }
}

/// What `text.lines().next().unwrap_or("")` gives: the text before the first
/// line feed with one trailing carriage return removed, or the whole text
/// when there is no line feed.
pub open spec fn first_line_of(t: Seq<char>) -> Seq<char> {
    if t.contains('\n') {
        let h = line_head(t);
        if h.len() > 0 && h.last() == '\r' {
            h.drop_last()
        } else {
            h
        }
    } else {
        t
    }
}

proof fn lemma_line_head_take(t: Seq<char>, k: int)
    requires
        0 <= k < t.len(),
        t[k] == '\n',
        forall|j: int| 0 <= j < k ==> t[j] != '\n',
    ensures
        line_head(t) == t.take(k),
    decreases k,
{
    if k > 0 {
        let d = t.drop_first();
        assert forall|j: int| 0 <= j < k - 1 implies d[j] != '\n' by {
            assert(d[j] == t[j + 1]);
        }
        lemma_line_head_take(d, k - 1);
        assert(seq![t[0]] + d.take(k - 1) =~= t.take(k));
    } else {
        assert(t.take(0) =~= Seq::<char>::empty());
    }
}

/// The first line of a text, as `str::lines` gives it.
pub fn first_line(text: &str) -> (r: String)
    ensures
        r@ == first_line_of(text@),
{
    let n = text.unicode_len();
    let mut k: usize = 0;
    while k < n && text.get_char(k) != '\n'
        invariant
            n == text@.len(),
            0 <= k <= n,
            forall|j: int| 0 <= j < k ==> text@[j] != '\n',
        decreases n - k,
    {
        k = k + 1;
    }
    if k == n {
        assert(!text@.contains('\n'));
        return String::from_str(text);
    }
    proof {
        lemma_line_head_take(text@, k as int);
    }
    if k > 0 && text.get_char(k - 1) == '\r' {
        let l = text.substring_char(0, k - 1);
        assert(l@ =~= text@.take(k as int).drop_last());
        String::from_str(l)
    } else {
        let l = text.substring_char(0, k);
        assert(l@ =~= text@.take(k as int));
        String::from_str(l)
    }
}

/// `detect_java`'s test of one candidate: the first line of what it printed
/// to stderr for `-version`, when that line is not empty.
pub fn java_info(candidate: &str, stderr: &[u8]) -> (r: Option<JavaInfo>)
    ensures
        first_line_of(spec_utf8_lossy(stderr@)).len() == 0 ==> r is None,
        first_line_of(spec_utf8_lossy(stderr@)).len() > 0 ==> (r matches Some(j) && j.path@
            == candidate@ && j.version_line@ == first_line_of(spec_utf8_lossy(stderr@))),
{
    let text = utf8_lossy(stderr);
    let line = first_line(text.as_str());
    if line.as_str().unicode_len() == 0 {
        return None;
    }
    Some(JavaInfo { path: String::from_str(candidate), version_line: line })
}

} // verus!
