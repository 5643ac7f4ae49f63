//! Saved multiplayer servers: the input guards, the store updates, and the
//! address a reachability check dials.
use crate::seqs::{lemma_filter_push_dropped, retain_where};
use crate::text::{char_is_ws, is_ws, contains_char, spec_to_lowercase, str_eq, to_lowercase, trim, trimmed, utf8_len,
    utf8_len_at_most};
use vstd::prelude::*;

verus! {

/// A saved server with the latency of its last successful ping.
#[derive(Debug, Clone)]
pub struct ServerEntry {
    pub id: String,
    pub name: String,
    pub address: String,
    pub last_ping_ms: Option<u128>,
}

/// Characters an address may not hold: slashes and any whitespace.
pub open spec fn is_address_special(c: char) -> bool {
    c == '/' || c == '\\' || is_ws(c)
}

/// An address is 1 to 255 bytes without slashes or whitespace.
pub open spec fn is_valid_address(a: Seq<char>) -> bool {
    &&& a.len() > 0
    &&& forall|i: int| 0 <= i < a.len() ==> !is_address_special(#[trigger] a[i])
    &&& utf8_len(a) <= 255
}

/// A display name is, trimmed, 1 to 80 bytes on one line.
pub open spec fn is_valid_server_name(n: Seq<char>) -> bool {
    let t = trimmed(n);
    &&& t.len() > 0
    &&& utf8_len(t) <= 80
    &&& !t.contains('\n')
    &&& !t.contains('\r')
}

fn has_address_special(a: &str) -> (r: bool)
    ensures
        r == exists|i: int| 0 <= i < a@.len() && is_address_special(#[trigger] a@[i]),
{
    let n = a.unicode_len();
    let mut i: usize = 0;
    while i < n
        invariant
            n == a@.len(),
            0 <= i <= n,
            forall|k: int| 0 <= k < i ==> !is_address_special(#[trigger] a@[k]),
        decreases n - i,
    {
        let c = a.get_char(i);
        if c == '/' || c == '\\' || char_is_ws(c) {
            assert(is_address_special(a@[i as int]));
            return true;
        }
        i = i + 1;
    }
    false
}

/// Guard for server addresses.
pub fn valid_address(a: &str) -> (r: bool)
    ensures
        r == is_valid_address(a@),
{
    a.unicode_len() > 0 && !has_address_special(a) && utf8_len_at_most(a, 255)
}

/// Guard for server display names.
pub fn valid_name(n: &str) -> (r: bool)
    ensures
        r == is_valid_server_name(n@),
{
    let t = trim(n);
    t.unicode_len() > 0 && utf8_len_at_most(t, 80) && !contains_char(t, '\n') && !contains_char(
        t,
        '\r',
    )
}

/// Keeps the servers with another id.
pub open spec fn other_server(id: Seq<char>) -> spec_fn(ServerEntry) -> bool {
    |s: ServerEntry| s.id@ != id
}

/// The id a server is saved under: its address, lowercased.
pub open spec fn server_id_of(address: Seq<char>) -> Seq<char> {
    "server:"@ + spec_to_lowercase(address)
}

/// `add_server`: the name must pass its guard and the trimmed address its
/// guard; the server replaces any with the same id and is appended last,
/// never pinged.
pub fn add_server(all: Vec<ServerEntry>, name: &str, address: &str) -> (r: Result<
    Vec<ServerEntry>,
    String,
>)
    ensures
        !is_valid_server_name(name@) ==> (r matches Err(e) && e@
            == "server name must be 1-80 characters"@),
        is_valid_server_name(name@) && !is_valid_address(trimmed(address@)) ==> (r matches Err(
            e,
        ) && e@ == "invalid server address"@),
        is_valid_server_name(name@) && is_valid_address(trimmed(address@)) ==> (r matches Ok(v)
            && v@.drop_last() == all@.filter(other_server(server_id_of(trimmed(address@))))
            && v@.len() > 0 && v@.last().id@ == server_id_of(trimmed(address@))
            && v@.last().name@ == trimmed(name@) && v@.last().address@ == trimmed(address@)
            && v@.last().last_ping_ms is None),
{
    if !valid_name(name) {
        return Err(String::from_str("server name must be 1-80 characters"));
    }
    let address = trim(address);
    if !valid_address(address) {
        return Err(String::from_str("invalid server address"));
    }
    let mut id = String::from_str("server:");
    let lower = to_lowercase(address);
    id.append(lower.as_str());
    let ghost idv = id@;
    let mut kept = retain_where(
        all,
        (|s: &ServerEntry| -> (b: bool)
            ensures
                b == (s.id@ != idv),
            { !str_eq(s.id.as_str(), id.as_str()) }),
        Ghost(other_server(idv)),
    );
    let ghost before = kept@;
    kept.push(
        ServerEntry {
            id,
            name: String::from_str(trim(name)),
            address: String::from_str(address),
            last_ping_ms: None,
        },
    );
    assert(kept@.drop_last() =~= before);
    Ok(kept)
}

/// `remove_server`: every server with the id goes.
pub fn remove_server(all: Vec<ServerEntry>, id: &str) -> (r: Vec<ServerEntry>)
    ensures
        r@ == all@.filter(other_server(id@)),
{
    retain_where(
        all,
        (|s: &ServerEntry| -> (b: bool)
            ensures
                b == (s.id@ != id@),
            { !str_eq(s.id.as_str(), id) }),
        Ghost(other_server(id@)),
    )
}

/// After `add_server`, exactly one saved server has the added id: the added
/// one, last.
pub proof fn lemma_add_server_unique(all: Seq<ServerEntry>, added: ServerEntry, i: int)
    requires
        0 <= i < all.filter(other_server(added.id@)).push(added).len(),
        all.filter(other_server(added.id@)).push(added)[i].id@ == added.id@,
    ensures
        i == all.filter(other_server(added.id@)).len(),
{
    broadcast use vstd::seq_lib::group_filter_ensures;

    let f = all.filter(other_server(added.id@));
    if i < f.len() {
        assert(other_server(added.id@)(f[i]));
    }
}

/// Removing a server by the id it was just added under leaves the list as
/// removing that id alone would.
pub proof fn lemma_remove_undoes_add_server(all: Seq<ServerEntry>, added: ServerEntry)
    ensures
        all.filter(other_server(added.id@)).push(added).filter(other_server(added.id@))
            == all.filter(other_server(added.id@)),
{
    lemma_filter_push_dropped(all, other_server(added.id@), added);
}

/// The socket address dialled for a server: its address, with the default
/// Minecraft port when it names none.
pub open spec fn dial_address_of(address: Seq<char>) -> Seq<char> {
    if address.contains(':') {
        address
    } else {
        address + ":25565"@
    }
}

/// Position of the first server with the id.
fn find_server(all: &Vec<ServerEntry>, id: &str) -> (r: Option<usize>)
    ensures
        match r {
            Some(k) => k < all@.len() && all@[k as int].id@ == id@ && forall|j: int|
                0 <= j < k ==> all@[j].id@ != id@,
            None => forall|j: int| 0 <= j < all@.len() ==> all@[j].id@ != id@,
        },
{
    let len = all.len();
    let mut i: usize = 0;
    while i < len
        invariant
            len == all@.len(),
            0 <= i <= len,
            forall|j: int| 0 <= j < i ==> all@[j].id@ != id@,
        decreases len - i,
    {
        if str_eq(all[i].id.as_str(), id) {
            return Some(i);
        }
        i = i + 1;
    }
    None
}

/// What `ping_server` dials: the first server with the id, by its address
/// with the default port added when missing.
pub fn ping_address(all: &Vec<ServerEntry>, id: &str) -> (r: Result<String, String>)
    ensures
        (forall|j: int| 0 <= j < all@.len() ==> all@[j].id@ != id@) ==> (r matches Err(e) && e@
            == "unknown server"@),
        (exists|j: int| 0 <= j < all@.len() && all@[j].id@ == id@) ==> (r matches Ok(a)
            && exists|k: int|
            0 <= k < all@.len() && all@[k].id@ == id@ && (forall|j: int|
                0 <= j < k ==> all@[j].id@ != id@) && a@ == dial_address_of(all@[k].address@)),
{
    match find_server(all, id) {
        None => Err(String::from_str("unknown server")),
        Some(k) => {
            let a = all[k].address.as_str();
            if contains_char(a, ':') {
                Ok(String::from_str(a))
            } else {
                let mut s = String::from_str(a);
                s.append(":25565");
                Ok(s)
            }
        },
    }
}

/// `v` is `all` with the ping recorded at `k`, the first server with the id,
/// and `s` is the updated entry.
pub open spec fn ping_recorded(
    all: Seq<ServerEntry>,
    v: Seq<ServerEntry>,
    s: ServerEntry,
    id: Seq<char>,
    latency_ms: u128,
    k: int,
) -> bool {
    &&& 0 <= k < all.len()
    &&& all[k].id@ == id
    &&& forall|j: int| 0 <= j < k ==> all[j].id@ != id
    &&& v.len() == all.len()
    &&& forall|j: int| 0 <= j < all.len() && j != k ==> v[j] == all[j]
    &&& v[k].id == all[k].id
    &&& v[k].name == all[k].name
    &&& v[k].address == all[k].address
    &&& v[k].last_ping_ms == Some(latency_ms)
    &&& s == v[k]
}

/// Records a successful ping on the first server with the id; answers the
/// updated list and a copy of the updated entry.
pub fn record_ping(all: Vec<ServerEntry>, id: &str, latency_ms: u128) -> (r: Result<
    (Vec<ServerEntry>, ServerEntry),
    String,
>)
    ensures
        (forall|j: int| 0 <= j < all@.len() ==> all@[j].id@ != id@) ==> (r matches Err(e) && e@
            == "unknown server"@),
        (exists|j: int| 0 <= j < all@.len() && all@[j].id@ == id@) ==> r is Ok,
        r matches Ok((v, s)) ==> exists|k: int| ping_recorded(all@, v@, s, id@, latency_ms, k),
{
    let k = match find_server(&all, id) {
        None => {
            return Err(String::from_str("unknown server"));
        },
        Some(k) => k,
    };
    let ghost before = all@;
    let mut all = all;
    let mut s = all.remove(k);
    s.last_ping_ms = Some(latency_ms);
    let copy = ServerEntry {
        id: s.id.clone(),
        name: s.name.clone(),
        address: s.address.clone(),
        last_ping_ms: s.last_ping_ms,
    };
    all.insert(k, s);
    assert(ping_recorded(before, all@, copy, id@, latency_ms, k as int));
    let ghost updated = all@;
    let r = (all, copy);
    assert(r.0@ == updated);
    Ok(r)
}

} // verus!
