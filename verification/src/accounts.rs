//! Account store: Microsoft and offline profiles. Tokens live in the OS
//! keychain under `token_key(id)`; the stored list never holds them.
use crate::seqs::{lemma_filter_push_dropped, retain_where};
use crate::text::{contains_char, dec_digits, decimal, str_eq, utf8_len, utf8_len_at_most};
use vstd::prelude::*;

verus! {

/// How an account signs in.
#[derive(Debug, Clone, PartialEq, Eq, Structural)]
pub enum AccountKind {
    Microsoft,
    Offline,
}

/// One launcher account. `ms_refresh` is transient: carried in when an
/// account is added, stored to the keychain, never written to disk.
#[derive(Debug)]
pub struct Account {
    pub id: String,
    pub kind: AccountKind,
    pub mc_name: String,
    pub uuid: String,
    pub ms_refresh: Option<serde_json::Value>,
    pub last_used: Option<String>,
    pub skin_url: Option<String>,
    pub cape_id: Option<String>,
}

/// The keychain service name tokens are stored under.
pub const KEYCHAIN_SERVICE: &'static str = "dev.remlauncher.app";

/// The keychain entry name of an account's token.
pub fn token_key(id: &str) -> (r: String)
    ensures
        r@ == "ms-token:"@ + id@,
{
    let mut s = String::from_str("ms-token:");
    s.append(id);
    s
}

/// The `last_used` stamp: seconds since the Unix epoch in decimal, or `0`
/// when the clock reads before the epoch (`None`).
pub fn epoch_text(since_epoch_secs: Option<u64>) -> (r: String)
    ensures
        since_epoch_secs matches Some(s) ==> r@ == dec_digits(s as nat),
        since_epoch_secs is None ==> r@ == "0"@,
{
    match since_epoch_secs {
        Some(s) => decimal(s),
        None => String::from_str("0"),
    }
}

/// Characters an auth-cache key may not hold.
pub open spec fn is_cache_key_special(c: char) -> bool {
    c == '/' || c == '\\' || c == '.' || c == ':'
}

/// Auth-cache keys name files: 1 to 128 bytes without `/ \ . :`.
pub open spec fn is_safe_cache_key(key: Seq<char>) -> bool {
    &&& key.len() > 0
    &&& utf8_len(key) <= 128
    &&& forall|i: int| 0 <= i < key.len() ==> !is_cache_key_special(#[trigger] key[i])
}

/// The key itself when it is safe to use as a cache file name.
pub fn safe_cache_key(key: &str) -> (r: Option<String>)
    ensures
        is_safe_cache_key(key@) ==> (r matches Some(k) && k@ == key@),
        !is_safe_cache_key(key@) ==> r is None,
{
    if key.unicode_len() == 0 || !utf8_len_at_most(key, 128) || contains_char(key, '/')
        || contains_char(key, '\\') || contains_char(key, '.') || contains_char(key, ':') {
        proof {
            if is_safe_cache_key(key@) {
                assert(!key@.contains('/')) by {
                    if key@.contains('/') {
                        let i = choose|i: int| 0 <= i < key@.len() && key@[i] == '/';
                        assert(!is_cache_key_special(key@[i]));
                    }
                }
                assert(!key@.contains('\\')) by {
                    if key@.contains('\\') {
                        let i = choose|i: int| 0 <= i < key@.len() && key@[i] == '\\';
                        assert(!is_cache_key_special(key@[i]));
                    }
                }
                assert(!key@.contains('.')) by {
                    if key@.contains('.') {
                        let i = choose|i: int| 0 <= i < key@.len() && key@[i] == '.';
                        assert(!is_cache_key_special(key@[i]));
                    }
                }
                assert(!key@.contains(':')) by {
                    if key@.contains(':') {
                        let i = choose|i: int| 0 <= i < key@.len() && key@[i] == ':';
                        assert(!is_cache_key_special(key@[i]));
                    }
                }
            }
        }
        return None;
    }
    proof {
        assert forall|i: int| 0 <= i < key@.len() implies !is_cache_key_special(#[trigger] key@[i]) by {
            if is_cache_key_special(key@[i]) {
                assert(key@.contains(key@[i]));
            }
        }
    }
    Some(String::from_str(key))
}

/// Two accounts agree on everything but the transient token.
pub open spec fn same_profile(a: Account, b: Account) -> bool {
    &&& a.id == b.id
    &&& a.kind == b.kind
    &&& a.mc_name == b.mc_name
    &&& a.uuid == b.uuid
    &&& a.last_used == b.last_used
    &&& a.skin_url == b.skin_url
    &&& a.cape_id == b.cape_id
}

/// The list as it is written to disk: the same profiles, every token dropped.
pub fn scrub_for_storage(accounts: Vec<Account>) -> (r: Vec<Account>)
    ensures
        r@.len() == accounts@.len(),
        forall|i: int|
            0 <= i < r@.len() ==> (#[trigger] r@[i]).ms_refresh is None && same_profile(
                r@[i],
                accounts@[i],
            ),
{
    let ghost orig = accounts@;
    let mut v = accounts;
    let mut out: Vec<Account> = Vec::new();
    let ghost mut k: int = 0;
    proof {
        assert(orig.skip(0) =~= orig);
    }
    while v.len() > 0
        invariant
            0 <= k <= orig.len(),
            v@ == orig.skip(k),
            out@.len() == k,
            forall|i: int|
                0 <= i < k ==> (#[trigger] out@[i]).ms_refresh is None && same_profile(
                    out@[i],
                    orig[i],
                ),
        decreases v.len(),
    {
        let mut a = v.remove(0);
        proof {
            assert(a == orig[k]);
        }
        a.ms_refresh = None;
        out.push(a);
        proof {
            k = k + 1;
            assert(v@ =~= orig.skip(k));
        }
    }
    out
}

/// `touch_account`: every account with the id gets `last_used` set to `now`;
/// the others are unchanged.
pub fn touch_account(all: Vec<Account>, id: &str, now: &str) -> (r: Vec<Account>)
    ensures
        r@.len() == all@.len(),
        forall|i: int|
            0 <= i < r@.len() && all@[i].id@ != id@ ==> #[trigger] r@[i] == all@[i],
        forall|i: int|
            0 <= i < r@.len() && all@[i].id@ == id@ ==> ((#[trigger] r@[i]).last_used matches Some(
                t,
            ) && t@ == now@) && r@[i].id == all@[i].id && r@[i].kind == all@[i].kind
                && r@[i].mc_name == all@[i].mc_name && r@[i].uuid == all@[i].uuid
                && r@[i].ms_refresh == all@[i].ms_refresh && r@[i].skin_url == all@[i].skin_url
                && r@[i].cape_id == all@[i].cape_id,
{
    let ghost orig = all@;
    let mut v = all;
    let mut out: Vec<Account> = Vec::new();
    let ghost mut k: int = 0;
    proof {
        assert(orig.skip(0) =~= orig);
    }
    while v.len() > 0
        invariant
            0 <= k <= orig.len(),
            v@ == orig.skip(k),
            out@.len() == k,
            forall|i: int| 0 <= i < k && orig[i].id@ != id@ ==> #[trigger] out@[i] == orig[i],
            forall|i: int|
                0 <= i < k && orig[i].id@ == id@ ==> ((#[trigger] out@[i]).last_used matches Some(
                    t,
                ) && t@ == now@) && out@[i].id == orig[i].id && out@[i].kind == orig[i].kind
                    && out@[i].mc_name == orig[i].mc_name && out@[i].uuid == orig[i].uuid
                    && out@[i].ms_refresh == orig[i].ms_refresh && out@[i].skin_url
                    == orig[i].skin_url && out@[i].cape_id == orig[i].cape_id,
        decreases v.len(),
    {
        let mut a = v.remove(0);
        proof {
            assert(a == orig[k]);
        }
        if str_eq(a.id.as_str(), id) {
            a.last_used = Some(String::from_str(now));
        }
        out.push(a);
        proof {
            k = k + 1;
            assert(v@ =~= orig.skip(k));
        }
    }
    out
}

/// Keeps the accounts with another id.
pub open spec fn other_id(id: Seq<char>) -> spec_fn(Account) -> bool {
    |a: Account| a.id@ != id
}

/// `add_account`: an account replaces every stored account with its id and
/// is appended last.
pub fn add_account(all: Vec<Account>, account: Account) -> (r: Vec<Account>)
    ensures
        r@ == all@.filter(other_id(account.id@)).push(account),
{
    let ghost id = account.id@;
    let mut kept = retain_where(
        all,
        (|a: &Account| -> (b: bool)
            ensures
                b == (a.id@ != id),
            { !str_eq(a.id.as_str(), account.id.as_str()) }),
        Ghost(other_id(account.id@)),
    );
    kept.push(account);
    kept
}

/// `remove_account`: every account with the id goes.
pub fn remove_account(all: Vec<Account>, id: &str) -> (r: Vec<Account>)
    ensures
        r@ == all@.filter(other_id(id@)),
{
    retain_where(
        all,
        (|a: &Account| -> (b: bool)
            ensures
                b == (a.id@ != id@),
            { !str_eq(a.id.as_str(), id) }),
        Ghost(other_id(id@)),
    )
}

/// After `add_account`, exactly one stored account has the added id: the
/// added one, last.
pub proof fn lemma_add_account_unique(all: Seq<Account>, account: Account, i: int)
    requires
        0 <= i < all.filter(other_id(account.id@)).push(account).len(),
        all.filter(other_id(account.id@)).push(account)[i].id@ == account.id@,
    ensures
        i == all.filter(other_id(account.id@)).len(),
{
    let f = all.filter(other_id(account.id@));
    broadcast use vstd::seq_lib::group_filter_ensures;

    if i < f.len() {
        assert(other_id(account.id@)(f[i]));
    }
}

/// Removing an account right after adding it leaves the store as removing
/// that id alone would.
pub proof fn lemma_remove_undoes_add(all: Seq<Account>, account: Account)
    ensures
        all.filter(other_id(account.id@)).push(account).filter(other_id(account.id@)) == all.filter(
            other_id(account.id@),
        ),
{
    lemma_filter_push_dropped(all, other_id(account.id@), account);
}

/// Adding the same account twice stores what adding it once does.
pub proof fn lemma_add_account_idempotent(all: Seq<Account>, account: Account)
    ensures
        all.filter(other_id(account.id@)).push(account).filter(other_id(account.id@)).push(account)
            == all.filter(other_id(account.id@)).push(account),
{
    lemma_filter_push_dropped(all, other_id(account.id@), account);
}

} // verus!
