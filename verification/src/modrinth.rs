//! Modrinth API v2: the request paths the client sends, the status check, and
//! the mapping of responses onto the provider-neutral models. The HTTP
//! exchange itself happens outside the library.
use crate::json::{json_list_text, json_string_list};
use crate::models::{ContentType, Project, ProjectVersion, SearchQuery, VersionDependency, VersionFile};
use crate::modpacks::{dep_value, lookup_dep};
use crate::providers::{provider_name, ProviderError, ProviderId};
use crate::text::{dec_digits, digit_char, ends_with_char, has_prefix, join_strings, join_with, push_decimal, str_eq, views};
use vstd::prelude::*;
use vstd::utf8::encode_utf8;

verus! {

/// The API root.
pub const BASE_URL: &'static str = "https://api.modrinth.com/v2";

/// The `User-Agent` the API requires.
pub const USER_AGENT: &'static str = "nova-launcher/0.1.0 (local-first mc launcher)";

/// A byte `urlencoding` leaves as is: ASCII letters, digits, `-._~`.
pub open spec fn is_unreserved(b: u8) -> bool {
    (48 <= b <= 57) || (65 <= b <= 90) || (97 <= b <= 122) || b == 45 || b == 46 || b == 95 || b
        == 126
}

/// Upper-case hex digit for `d < 16`.
pub open spec fn upper_hex(d: nat) -> char {
    if d < 10 {
        ((d + 48) as u32) as char
    } else {
        ((d + 55) as u32) as char
    }
}

/// Percent-encoding of bytes: unreserved bytes as themselves, every other
/// byte as `%` and two upper-case hex digits.
pub open spec fn percent_encode_bytes(b: Seq<u8>) -> Seq<char>
    decreases b.len(),
{
    if b.len() == 0 {
        seq![]
    } else {
        percent_encode_bytes(b.drop_last()) + if is_unreserved(b.last()) {
            seq![b.last() as char]
        } else {
            seq!['%', upper_hex((b.last() / 16) as nat), upper_hex((b.last() % 16) as nat)]
        }
    }
}

/// Percent-encoding of a text's UTF-8 bytes.
pub open spec fn percent_encode(s: Seq<char>) -> Seq<char> {
    percent_encode_bytes(encode_utf8(s))
}

/// `urlencoding::encode`: every UTF-8 byte except ASCII letters, digits and
/// `-._~` written as `%XX` with upper-case hex, the others kept.
#[verifier::external_body]
pub(crate) fn url_encode(s: &str) -> (r: String)
    ensures
        r@ == percent_encode(s@),
{
    urlencoding::encode(s).into_owned()
}

/// The content type a Modrinth `project_type` names.
pub open spec fn content_type_named(s: Seq<char>) -> ContentType {
    if s == "mod"@ {
        ContentType::Mod
    } else if s == "resourcepack"@ {
        ContentType::ResourcePack
    } else if s == "datapack"@ {
        ContentType::DataPack
    } else if s == "shader"@ {
        ContentType::Shader
    } else if s == "modpack"@ {
        ContentType::Modpack
    } else {
        ContentType::Unknown
    }
}

/// Modrinth's project types and the content types they name: `mod`,
/// `resourcepack`, `datapack`, `shader` and `modpack` each name their own
/// content type, any other text names `Unknown`; and a search for each known
/// content type filters by its own project type.
pub proof fn lemma_project_type_table(s: Seq<char>)
    ensures
        content_type_named("mod"@) == ContentType::Mod,
        content_type_named("resourcepack"@) == ContentType::ResourcePack,
        content_type_named("datapack"@) == ContentType::DataPack,
        content_type_named("shader"@) == ContentType::Shader,
        content_type_named("modpack"@) == ContentType::Modpack,
        s != "mod"@ && s != "resourcepack"@ && s != "datapack"@ && s != "shader"@ && s
            != "modpack"@ ==> content_type_named(s) == ContentType::Unknown,
        project_type_name(ContentType::Mod) == "mod"@,
        project_type_name(ContentType::ResourcePack) == "resourcepack"@,
        project_type_name(ContentType::DataPack) == "datapack"@,
        project_type_name(ContentType::Shader) == "shader"@,
        project_type_name(ContentType::Modpack) == "modpack"@,
        project_type_name(ContentType::Unknown).len() == 0,
{
    reveal_strlit("mod");
    reveal_strlit("resourcepack");
    reveal_strlit("datapack");
    reveal_strlit("shader");
    reveal_strlit("modpack");
    reveal_strlit("");
    assert("mod"@.len() == 3);
    assert("resourcepack"@.len() == 12);
    assert("datapack"@.len() == 8);
    assert("shader"@.len() == 6);
    assert("modpack"@.len() == 7);
    assert("mod"@[0] == 'm' && "modpack"@[0] == 'm');
}

/// The content type of a Modrinth `project_type`: each of the five project
/// types gives its own content type, anything else `Unknown`.
pub fn content_type_of(s: &str) -> (r: ContentType)
    ensures
        r == content_type_named(s@),
        s@ == "mod"@ ==> r == ContentType::Mod,
        s@ == "resourcepack"@ ==> r == ContentType::ResourcePack,
        s@ == "datapack"@ ==> r == ContentType::DataPack,
        s@ == "shader"@ ==> r == ContentType::Shader,
        s@ == "modpack"@ ==> r == ContentType::Modpack,
        s@ != "mod"@ && s@ != "resourcepack"@ && s@ != "datapack"@ && s@ != "shader"@ && s@
            != "modpack"@ ==> r == ContentType::Unknown,
{
    proof {
        lemma_project_type_table(s@);
    }
    if str_eq(s, "mod") {
        ContentType::Mod
    } else if str_eq(s, "resourcepack") {
        ContentType::ResourcePack
    } else if str_eq(s, "datapack") {
        ContentType::DataPack
    } else if str_eq(s, "shader") {
        ContentType::Shader
    } else if str_eq(s, "modpack") {
        ContentType::Modpack
    } else {
        ContentType::Unknown
    }
}

/// The `project_type` a search filters by; none for `Unknown`.
pub open spec fn project_type_name(t: ContentType) -> Seq<char> {
    match t {
        ContentType::Mod => "mod"@,
        ContentType::ResourcePack => "resourcepack"@,
        ContentType::DataPack => "datapack"@,
        ContentType::Shader => "shader"@,
        ContentType::Modpack => "modpack"@,
        ContentType::Unknown => ""@,
    }
}

/// The `project_type` a search filters by; empty for `Unknown`.
pub fn project_type_filter(t: ContentType) -> (r: &'static str)
    ensures
        r@ == project_type_name(t),
        t == ContentType::Mod ==> r@ == "mod"@,
        t == ContentType::ResourcePack ==> r@ == "resourcepack"@,
        t == ContentType::DataPack ==> r@ == "datapack"@,
        t == ContentType::Shader ==> r@ == "shader"@,
        t == ContentType::Modpack ==> r@ == "modpack"@,
        t == ContentType::Unknown ==> r@.len() == 0,
{
    proof {
        lemma_project_type_table(seq![]);
    }
    match t {
        ContentType::Mod => "mod",
        ContentType::ResourcePack => "resourcepack",
        ContentType::DataPack => "datapack",
        ContentType::Shader => "shader",
        ContentType::Modpack => "modpack",
        ContentType::Unknown => "",
    }
}

/// The project type a search filters by reads back as the same content type.
pub proof fn lemma_project_type_roundtrip(t: ContentType)
    requires
        t != ContentType::Unknown,
    ensures
        content_type_named(project_type_name(t)) == t,
{
    reveal_strlit("mod");
    reveal_strlit("resourcepack");
    reveal_strlit("datapack");
    reveal_strlit("shader");
    reveal_strlit("modpack");
    assert("mod"@.len() == 3);
    assert("resourcepack"@.len() == 12);
    assert("datapack"@.len() == 8);
    assert("shader"@.len() == 6);
    assert("modpack"@.len() == 7);
}

/// `v` in double quotes after `prefix`.
pub open spec fn quoted_facet(prefix: Seq<char>, v: Seq<char>) -> Seq<char> {
    "\""@ + prefix + v + "\""@
}

/// A facet group: the quoted values, comma-separated, in brackets.
pub open spec fn facet_group(prefix: Seq<char>, vals: Seq<Seq<char>>) -> Seq<char> {
    "["@ + join_with(vals.map_values(|v: Seq<char>| quoted_facet(prefix, v)), ","@) + "]"@
}

fn quoted_list(prefix: &str, vals: &[String]) -> (r: String)
    ensures
        r@ == facet_group(prefix@, views(vals@)),
{
    let mut parts: Vec<String> = Vec::new();
    let n = vals.len();
    let mut i: usize = 0;
    while i < n
        invariant
            n == vals@.len(),
            0 <= i <= n,
            views(parts@) == views(vals@).take(i as int).map_values(
                |v: Seq<char>| quoted_facet(prefix@, v),
            ),
        decreases n - i,
    {
        let mut q = String::from_str("\"");
        q.append(prefix);
        q.append(vals[i].as_str());
        q.append("\"");
        let ghost before = views(parts@);
        parts.push(q);
        proof {
            assert(views(parts@) =~= before.push(quoted_facet(prefix@, vals@[i as int]@)));
            assert(views(vals@).take(i + 1) =~= views(vals@).take(i as int).push(vals@[i as int]@));
            assert(views(parts@) =~= views(vals@).take(i + 1).map_values(
                |v: Seq<char>| quoted_facet(prefix@, v),
            ));
        }
        i = i + 1;
    }
    assert(views(vals@).take(n as int) =~= views(vals@));
    let inner = join_strings(&parts, ",");
    let mut s = String::from_str("[");
    s.append(inner.as_str());
    s.append("]");
    s
}

/// The facet text of a value list: none when empty, else the quoted values
/// in brackets.
pub fn facet_str(v: &[String]) -> (r: Option<String>)
    ensures
        v@.len() == 0 ==> r is None,
        v@.len() > 0 ==> (r matches Some(s) && s@ == facet_group(""@, views(v@))),
{
    if v.len() == 0 {
        return None;
    }
    Some(quoted_list("", v))
}

/// The facet groups of a search: project type (unless unknown), game
/// versions, loaders (as categories), each only when given.
pub open spec fn search_facets(q: SearchQuery) -> Seq<Seq<char>> {
    let a: Seq<Seq<char>> = match q.content_type {
        Some(t) => if project_type_name(t).len() > 0 {
            seq![facet_group("project_type:"@, seq![project_type_name(t)])]
        } else {
            seq![]
        },
        None => seq![],
    };
    let b: Seq<Seq<char>> = if q.game_versions@.len() > 0 {
        seq![facet_group("versions:"@, views(q.game_versions@))]
    } else {
        seq![]
    };
    let c: Seq<Seq<char>> = if q.loaders@.len() > 0 {
        seq![facet_group("categories:"@, views(q.loaders@))]
    } else {
        seq![]
    };
    a + b + c
}

/// The page size sent: at least 1, at most 100.
pub open spec fn clamped_limit(limit: u32) -> u32 {
    if limit < 1 {
        1
    } else if limit > 100 {
        100
    } else {
        limit
    }
}

/// The sort order sent as Modrinth's `index` parameter, when one is chosen.
pub open spec fn sort_part(sort: Option<String>) -> Seq<char> {
    match sort {
        Some(s) => if s@.len() > 0 {
            "&index="@ + percent_encode(s@)
        } else {
            ""@
        },
        None => ""@,
    }
}

/// The search request path: the encoded text, the clamped limit, the
/// offset, the sort order when one is chosen, and the encoded facet groups
/// when there are any.
pub open spec fn search_path_of(q: SearchQuery) -> Seq<char> {
    let base = "/search?query="@ + percent_encode(q.text@) + "&limit="@ + dec_digits(
        clamped_limit(q.limit) as nat,
    ) + "&offset="@ + dec_digits(q.offset as nat) + sort_part(q.sort);
    let f = search_facets(q);
    if f.len() > 0 {
        base + "&facets="@ + percent_encode("["@ + join_with(f, ","@) + "]"@)
    } else {
        base
    }
}

/// The request path of a search starts with the query's text (encoded), its
/// page size clamped to 1..=100, and the query's own offset, in that order;
/// so the page a query asks for is the page it gets.
pub proof fn lemma_search_path_page(q: SearchQuery)
    ensures
        has_prefix(
            search_path_of(q),
            "/search?query="@ + percent_encode(q.text@) + "&limit="@ + dec_digits(
                clamped_limit(q.limit) as nat,
            ) + "&offset="@ + dec_digits(q.offset as nat),
        ),
        1 <= q.limit <= 100 ==> clamped_limit(q.limit) == q.limit,
        q.limit < 1 ==> clamped_limit(q.limit) == 1,
        q.limit > 100 ==> clamped_limit(q.limit) == 100,
{
    let head = "/search?query="@ + percent_encode(q.text@) + "&limit="@ + dec_digits(
        clamped_limit(q.limit) as nat,
    ) + "&offset="@ + dec_digits(q.offset as nat);
    let f = search_facets(q);
    let rest = if f.len() > 0 {
        sort_part(q.sort) + "&facets="@ + percent_encode("["@ + join_with(f, ","@) + "]"@)
    } else {
        sort_part(q.sort)
    };
    assert(search_path_of(q) =~= head + rest);
    assert((head + rest).subrange(0, head.len() as int) =~= head);
}

proof fn lemma_dec_digits_nonempty(n: nat)
    ensures
        dec_digits(n).len() >= 1,
    decreases n,
{
    if n >= 10 {
        lemma_dec_digits_nonempty(n / 10);
    }
}

/// Different numbers are written with different decimal digits.
pub proof fn lemma_dec_digits_injective(a: nat, b: nat)
    requires
        dec_digits(a) == dec_digits(b),
    ensures
        a == b,
    decreases a + b,
{
    if a < 10 && b < 10 {
        assert(dec_digits(a) == seq![digit_char(a)]);
        assert(dec_digits(b) == seq![digit_char(b)]);
        assert(digit_char(a) == dec_digits(a)[0]);
        assert(digit_char(a) == digit_char(b));
        assert((digit_char(a) as u32) == a + 48);
        assert((digit_char(b) as u32) == b + 48);
        assert(a == b);
    } else if a < 10 {
        lemma_dec_digits_nonempty(b / 10);
        assert(dec_digits(b).len() >= 2);
    } else if b < 10 {
        lemma_dec_digits_nonempty(a / 10);
        assert(dec_digits(a).len() >= 2);
    } else {
        let da = dec_digits(a);
        let db = dec_digits(b);
        assert(da.drop_last() =~= dec_digits(a / 10));
        assert(db.drop_last() =~= dec_digits(b / 10));
        lemma_dec_digits_injective(a / 10, b / 10);
        assert(da.last() == db.last());
        assert((digit_char(a % 10) as u32) == a % 10 + 48);
        assert((digit_char(b % 10) as u32) == b % 10 + 48);
        assert(a % 10 == b % 10);
        assert(a == 10 * (a / 10) + a % 10) by (nonlinear_arith);
        assert(b == 10 * (b / 10) + b % 10) by (nonlinear_arith);
        assert(a / 10 == b / 10);
        assert(a == b);
    }
}

/// Two searches that differ only in their offset request different paths:
/// each page of results is asked for by its own offset.
pub proof fn lemma_offset_changes_search(q1: SearchQuery, q2: SearchQuery)
    requires
        q1.text == q2.text,
        q1.content_type == q2.content_type,
        q1.game_versions == q2.game_versions,
        q1.loaders == q2.loaders,
        q1.limit == q2.limit,
        q1.sort == q2.sort,
        q1.offset != q2.offset,
    ensures
        search_path_of(q1) != search_path_of(q2),
{
    let common = "/search?query="@ + percent_encode(q1.text@) + "&limit="@ + dec_digits(
        clamped_limit(q1.limit) as nat,
    ) + "&offset="@;
    let f = search_facets(q1);
    assert(search_facets(q2) == f);
    let rest = if f.len() > 0 {
        sort_part(q1.sort) + "&facets="@ + percent_encode("["@ + join_with(f, ","@) + "]"@)
    } else {
        sort_part(q1.sort)
    };
    let d1 = dec_digits(q1.offset as nat);
    let d2 = dec_digits(q2.offset as nat);
    assert(search_path_of(q1) =~= common + d1 + rest);
    assert(search_path_of(q2) =~= common + d2 + rest);
    if search_path_of(q1) == search_path_of(q2) {
        assert(d1.len() == d2.len());
        assert forall|i: int| 0 <= i < d1.len() implies d1[i] == d2[i] by {
            assert((common + d1 + rest)[common.len() + i] == d1[i]);
            assert((common + d2 + rest)[common.len() + i] == d2[i]);
        }
        assert(d1 =~= d2);
        lemma_dec_digits_injective(q1.offset as nat, q2.offset as nat);
    }
}

/// Choosing a sort order changes the search request: two queries that differ
/// only in that one asks for a (non-empty) sort order send different paths.
pub proof fn lemma_sort_changes_search(q1: SearchQuery, q2: SearchQuery)
    requires
        q1.text == q2.text,
        q1.content_type == q2.content_type,
        q1.game_versions == q2.game_versions,
        q1.loaders == q2.loaders,
        q1.limit == q2.limit,
        q1.offset == q2.offset,
        q1.sort is None,
        q2.sort matches Some(s) && s@.len() > 0,
    ensures
        search_path_of(q1) != search_path_of(q2),
{
    reveal_strlit("&index=");
    reveal_strlit("");
    let common = "/search?query="@ + percent_encode(q1.text@) + "&limit="@ + dec_digits(
        clamped_limit(q1.limit) as nat,
    ) + "&offset="@ + dec_digits(q1.offset as nat);
    let f = search_facets(q1);
    assert(search_facets(q2) == f);
    let tail = if f.len() > 0 {
        "&facets="@ + percent_encode("["@ + join_with(f, ","@) + "]"@)
    } else {
        ""@
    };
    assert(sort_part(q1.sort) == ""@);
    assert(sort_part(q2.sort).len() > 0);
    assert(search_path_of(q1) =~= common + ""@ + tail);
    assert(search_path_of(q2) =~= common + sort_part(q2.sort) + tail);
    assert(search_path_of(q1).len() < search_path_of(q2).len());
}

/// The path of a search request.
pub fn search_path(query: &SearchQuery) -> (r: String)
    ensures
        r@ == search_path_of(*query),
        has_prefix(
            r@,
            "/search?query="@ + percent_encode(query.text@) + "&limit="@ + dec_digits(
                clamped_limit(query.limit) as nat,
            ) + "&offset="@ + dec_digits(query.offset as nat),
        ),
{
    proof {
        lemma_search_path_page(*query);
    }
    let mut facets: Vec<String> = Vec::new();
    match query.content_type {
        Some(t) => {
            let pt = project_type_filter(t);
            if pt.unicode_len() > 0 {
                let one = vec![String::from_str(pt)];
                assert(views(one@) =~= seq![project_type_name(t)]);
                facets.push(quoted_list("project_type:", one.as_slice()));
            }
        },
        None => {},
    }
    if query.game_versions.len() > 0 {
        facets.push(quoted_list("versions:", query.game_versions.as_slice()));
    }
    if query.loaders.len() > 0 {
        facets.push(quoted_list("categories:", query.loaders.as_slice()));
    }
    assert(views(facets@) =~= search_facets(*query));
    let mut url = String::from_str("/search?query=");
    let text = url_encode(query.text.as_str());
    url.append(text.as_str());
    url.append("&limit=");
    let limit: u32 = if query.limit < 1 {
        1
    } else if query.limit > 100 {
        100
    } else {
        query.limit
    };
    push_decimal(&mut url, limit as u64);
    url.append("&offset=");
    push_decimal(&mut url, query.offset as u64);
    match &query.sort {
        Some(order) => {
            if order.as_str().unicode_len() > 0 {
                let enc = url_encode(order.as_str());
                url.append("&index=");
                url.append(enc.as_str());
            }
        },
        None => {},
    }
    proof {
        reveal_strlit("");
    }
    if facets.len() > 0 {
        let joined = join_strings(&facets, ",");
        let mut all = String::from_str("[");
        all.append(joined.as_str());
        all.append("]");
        let enc = url_encode(all.as_str());
        url.append("&facets=");
        url.append(enc.as_str());
    }
    url
}

/// The path of a project lookup.
pub fn project_path(id: &str) -> (r: String)
    ensures
        r@ == "/project/"@ + id@,
{
    let mut s = String::from_str("/project/");
    s.append(id);
    s
}

/// The path of a version listing: filters sent as percent-encoded JSON
/// arrays, joined with `&` when both are given.
pub open spec fn versions_path_of(
    id: Seq<char>,
    game_versions: Seq<Seq<char>>,
    loaders: Seq<Seq<char>>,
) -> Seq<char> {
    let u0 = "/project/"@ + id + "/version?"@;
    let u1 = if game_versions.len() > 0 {
        u0 + "game_versions="@ + percent_encode(json_list_text(game_versions))
    } else {
        u0
    };
    if loaders.len() > 0 {
        let sep = if u1.last() != '?' {
            "&"@
        } else {
            ""@
        };
        u1 + sep + "loaders="@ + percent_encode(json_list_text(loaders))
    } else {
        u1
    }
}

/// The path of a version listing.
pub fn versions_path(id: &str, game_versions: &[String], loaders: &[String]) -> (r: String)
    ensures
        r@ == versions_path_of(id@, views(game_versions@), views(loaders@)),
{
    let mut url = String::from_str("/project/");
    url.append(id);
    url.append("/version?");
    proof {
        reveal_strlit("/version?");
        reveal_strlit("/project/");
        assert(url@.last() == '?');
    }
    let ghost u0 = url@;
    if game_versions.len() > 0 {
        let j = json_string_list(game_versions);
        let e = url_encode(j.as_str());
        url.append("game_versions=");
        url.append(e.as_str());
    }
    let ghost u1 = url@;
    assert(u1.len() > 0);
    if loaders.len() > 0 {
        if !ends_with_char(url.as_str(), '?') {
            url.append("&");
        } else {
            proof {
                reveal_strlit("");
            }
            assert(url@ =~= u1 + ""@);
        }
        let j = json_string_list(loaders);
        let e = url_encode(j.as_str());
        url.append("loaders=");
        url.append(e.as_str());
    }
    url
}

/// The response status check: 429 is rate limiting, anything outside 2xx an
/// HTTP error carrying the status text.
pub fn check_status(code: u16, status_text: &str) -> (r: Result<(), ProviderError>)
    ensures
        code == 429 ==> r matches Err(ProviderError::RateLimited),
        code != 429 && !(200 <= code <= 299) ==> (r matches Err(ProviderError::Http(m)) && m@
            == "status "@ + status_text@),
        code != 429 && 200 <= code <= 299 ==> r is Ok,
{
    if code == 429 {
        return Err(ProviderError::RateLimited);
    }
    if !(200 <= code && code <= 299) {
        let mut m = String::from_str("status ");
        m.append(status_text);
        return Err(ProviderError::Http(m));
    }
    Ok(())
}

/// One search hit as the API returns it.
#[derive(Debug, Clone)]
pub struct SearchHit {
    pub project_id: String,
    pub slug: Option<String>,
    pub title: String,
    pub description: String,
    pub project_type: String,
    pub versions: Vec<String>,
    pub icon_url: Option<String>,
    pub downloads: u64,
}

/// A full project as the API returns it.
#[derive(Debug, Clone)]
pub struct FullProject {
    pub id: String,
    pub slug: Option<String>,
    pub title: String,
    pub description: String,
    pub project_type: String,
    pub game_versions: Vec<String>,
    pub loaders: Vec<String>,
    pub icon_url: Option<String>,
    pub downloads: u64,
}

/// One file of a version as the API returns it; `hashes` maps algorithm
/// names to hex digests.
#[derive(Debug, Clone)]
pub struct FullFile {
    pub hashes: Vec<(String, String)>,
    pub url: String,
    pub filename: String,
    pub primary: bool,
}

/// A version as the API returns it, with the dependencies it declares.
#[derive(Debug, Clone)]
pub struct FullVersion {
    pub id: String,
    pub project_id: String,
    pub name: String,
    pub version_number: String,
    pub game_versions: Vec<String>,
    pub loaders: Vec<String>,
    pub files: Vec<FullFile>,
    pub dependencies: Vec<VersionDependency>,
}

/// A hit as a Modrinth project: no loaders listed, no follow count or
/// update time.
pub open spec fn hit_project(h: SearchHit, p: Project) -> bool {
    &&& p.provider@ == provider_name(ProviderId::Modrinth)
    &&& p.id == h.project_id
    &&& p.slug == h.slug
    &&& p.title == h.title
    &&& p.description == h.description
    &&& p.content_type == content_type_named(h.project_type@)
    &&& p.game_versions == h.versions
    &&& p.loaders@.len() == 0
    &&& p.icon_url == h.icon_url
    &&& p.downloads == h.downloads
    &&& p.follows == 0
    &&& p.updated is None
}

/// A search hit as a project.
pub fn project_from_hit(h: SearchHit) -> (p: Project)
    ensures
        hit_project(h, p),
{
    let content_type = content_type_of(h.project_type.as_str());
    Project {
        provider: String::from_str(ProviderId::Modrinth.as_str()),
        id: h.project_id,
        slug: h.slug,
        title: h.title,
        description: h.description,
        content_type,
        game_versions: h.versions,
        loaders: Vec::new(),
        icon_url: h.icon_url,
        downloads: h.downloads,
        follows: 0,
        updated: None,
    }
}

/// Search hits as projects, in order.
pub fn projects_from_hits(hits: Vec<SearchHit>) -> (r: Vec<Project>)
    ensures
        r@.len() == hits@.len(),
        forall|i: int| 0 <= i < r@.len() ==> hit_project(hits@[i], #[trigger] r@[i]),
{
    let ghost orig = hits@;
    let mut v = hits;
    let mut out: Vec<Project> = Vec::new();
    let ghost mut k: int = 0;
    proof {
        assert(orig.skip(0) =~= orig);
    }
    while v.len() > 0
        invariant
            0 <= k <= orig.len(),
            v@ == orig.skip(k),
            out@.len() == k,
            forall|i: int| 0 <= i < k ==> hit_project(orig[i], #[trigger] out@[i]),
        decreases v.len(),
    {
        let h = v.remove(0);
        proof {
            assert(h == orig[k]);
        }
        out.push(project_from_hit(h));
        proof {
            k = k + 1;
            assert(v@ =~= orig.skip(k));
        }
    }
    out
}

/// A full project as a Modrinth project: no follow count or update time.
pub open spec fn full_project(f: FullProject, p: Project) -> bool {
    &&& p.provider@ == provider_name(ProviderId::Modrinth)
    &&& p.id == f.id
    &&& p.slug == f.slug
    &&& p.title == f.title
    &&& p.description == f.description
    &&& p.content_type == content_type_named(f.project_type@)
    &&& p.game_versions == f.game_versions
    &&& p.loaders == f.loaders
    &&& p.icon_url == f.icon_url
    &&& p.downloads == f.downloads
    &&& p.follows == 0
    &&& p.updated is None
}

/// A full project response as a project.
pub fn project_from_full(f: FullProject) -> (p: Project)
    ensures
        full_project(f, p),
{
    let content_type = content_type_of(f.project_type.as_str());
    Project {
        provider: String::from_str(ProviderId::Modrinth.as_str()),
        id: f.id,
        slug: f.slug,
        title: f.title,
        description: f.description,
        content_type,
        game_versions: f.game_versions,
        loaders: f.loaders,
        icon_url: f.icon_url,
        downloads: f.downloads,
        follows: 0,
        updated: None,
    }
}

/// A response file as a version file: its SHA-512 is the `sha512` hash, if
/// listed.
pub open spec fn file_mapped(f: FullFile, v: VersionFile) -> bool {
    &&& v.name == f.filename
    &&& v.url == f.url
    &&& match v.sha512 {
        Some(h) => dep_value(f.hashes@, "sha512"@) == Some(h@),
        None => dep_value(f.hashes@, "sha512"@) is None,
    }
    &&& v.primary == f.primary
}

/// A response file as a version file.
pub fn file_from_full(f: FullFile) -> (v: VersionFile)
    ensures
        file_mapped(f, v),
{
    let sha512 = match lookup_dep(&f.hashes, "sha512") {
        Some(k) => Some(f.hashes[k].1.clone()),
        None => None,
    };
    VersionFile { name: f.filename, url: f.url, sha512, primary: f.primary }
}

/// A response version as a project version: its files mapped in order, its
/// dependencies kept as declared.
pub open spec fn version_mapped(f: FullVersion, v: ProjectVersion) -> bool {
    &&& v.id == f.id
    &&& v.project_id == f.project_id
    &&& v.name == f.name
    &&& v.version_number == f.version_number
    &&& v.game_versions == f.game_versions
    &&& v.loaders == f.loaders
    &&& v.files@.len() == f.files@.len()
    &&& forall|i: int| 0 <= i < v.files@.len() ==> file_mapped(f.files@[i], #[trigger] v.files@[i])
    &&& v.dependencies == f.dependencies
}

/// A response version as a project version.
pub fn version_from_full(f: FullVersion) -> (v: ProjectVersion)
    ensures
        version_mapped(f, v),
{
    let ghost orig = f.files@;
    let mut files = f.files;
    let mut out: Vec<VersionFile> = Vec::new();
    let ghost mut k: int = 0;
    proof {
        assert(orig.skip(0) =~= orig);
    }
    while files.len() > 0
        invariant
            0 <= k <= orig.len(),
            files@ == orig.skip(k),
            out@.len() == k,
            forall|i: int| 0 <= i < k ==> file_mapped(orig[i], #[trigger] out@[i]),
        decreases files.len(),
    {
        let x = files.remove(0);
        proof {
            assert(x == orig[k]);
        }
        out.push(file_from_full(x));
        proof {
            k = k + 1;
            assert(files@ =~= orig.skip(k));
        }
    }
    ProjectVersion {
        id: f.id,
        project_id: f.project_id,
        name: f.name,
        version_number: f.version_number,
        game_versions: f.game_versions,
        loaders: f.loaders,
        files: out,
        dependencies: f.dependencies,
    }
}

/// Response versions as project versions, in order.
pub fn versions_from_full(versions: Vec<FullVersion>) -> (r: Vec<ProjectVersion>)
    ensures
        r@.len() == versions@.len(),
        forall|i: int| 0 <= i < r@.len() ==> version_mapped(versions@[i], #[trigger] r@[i]),
{
    let ghost orig = versions@;
    let mut v = versions;
    let mut out: Vec<ProjectVersion> = Vec::new();
    let ghost mut k: int = 0;
    proof {
        assert(orig.skip(0) =~= orig);
    }
    while v.len() > 0
        invariant
            0 <= k <= orig.len(),
            v@ == orig.skip(k),
            out@.len() == k,
            forall|i: int| 0 <= i < k ==> version_mapped(orig[i], #[trigger] out@[i]),
        decreases v.len(),
    {
        let x = v.remove(0);
        proof {
            assert(x == orig[k]);
        }
        out.push(version_from_full(x));
        proof {
            k = k + 1;
            assert(v@ =~= orig.skip(k));
        }
    }
    out
}

} // verus!
