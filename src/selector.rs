//! Which accounts are of interest: by identity key, by owner, or all of them.
use vstd::prelude::*;
use vstd::string::StrSliceExecFns;
use crate::bytes::{contains_key, holds_key};

verus! {

/// The characters of the Bitcoin base58 alphabet.
pub open spec fn is_base58_char(c: char) -> bool {
    ('1' <= c && c <= '9') || ('A' <= c && c <= 'Z' && c != 'I' && c != 'O') || ('a' <= c
        && c <= 'z' && c != 'l')
}

pub open spec fn is_base58(s: Seq<char>) -> bool {
    forall|i: int| 0 <= i < s.len() ==> is_base58_char(#[trigger] s[i])
}

/// The bytes that a valid base58 string stands for.
pub uninterp spec fn base58_bytes(s: Seq<char>) -> Seq<u8>;

/// Relies on `bs58::decode(..).into_vec()` with the default (Bitcoin) alphabet:
/// it fails exactly on a character outside the alphabet, and otherwise returns
/// at most one byte per input character.
#[verifier::external_body]
fn decode_base58(s: &str) -> (r: Option<Vec<u8>>)
    ensures
        r.is_some() == is_base58(s@),
        r matches Some(v) ==> v@ == base58_bytes(s@) && v@.len() <= s@.len(),
{
    bs58::decode(s).into_vec().ok()
}

/// The string `*`, which selects every account.
pub open spec fn is_wildcard(s: Seq<char>) -> bool {
    s == seq!['*']
}

fn wildcard(s: &String) -> (r: bool)
    ensures
        r == is_wildcard(s@),
{
    let t = s.as_str();
    if t.unicode_len() != 1 {
        return false;
    }
    let c = t.get_char(0);
    if c == '*' {
        assert(t@ =~= seq!['*']);
        true
    } else {
        false
    }
}

/// The keys among `names` that decode, as byte strings.
pub open spec fn decoded_keys(names: Seq<String>) -> Set<Seq<u8>> {
    Set::new(
        |b: Seq<u8>|
            exists|i: int|
                0 <= i < names.len() && is_base58((#[trigger] names[i])@) && base58_bytes(
                    names[i]@,
                ) == b,
    )
}

/// The byte strings held by a list of keys.
pub open spec fn key_set(keys: Seq<Vec<u8>>) -> Set<Seq<u8>> {
    Set::new(|b: Seq<u8>| holds_key(keys, b))
}

fn decode_all(names: &[String]) -> (r: Vec<Vec<u8>>)
    ensures
        key_set(r@) == decoded_keys(names@),
{
    let mut out: Vec<Vec<u8>> = Vec::new();
    let mut i: usize = 0;
    while i < names.len()
        invariant
            i <= names@.len(),
            key_set(out@) == decoded_keys(names@.subrange(0, i as int)),
        decreases names@.len() - i,
    {
        let decoded = decode_base58(names[i].as_str());
        let ghost prev = out@;
        let ghost pre = names@.subrange(0, i as int);
        let ghost post = names@.subrange(0, i + 1);
        assert(post == pre.push(names@[i as int]));
        match decoded {
            Some(v) => {
                out.push(v);
                assert forall|b: Seq<u8>| key_set(out@).contains(b) == decoded_keys(post).contains(b) by {
                    if key_set(out@).contains(b) {
                        let j = choose|j: int| 0 <= j < out@.len() && (#[trigger] out@[j])@ == b;
                        if j < prev.len() {
                            assert(key_set(prev).contains(b));
                            let k = choose|k: int| 0 <= k < pre.len() && is_base58((#[trigger] pre[k])@)
                                && base58_bytes(pre[k]@) == b;
                            assert(post[k] == pre[k]);
                        } else {
                            assert(post[i as int] == names@[i as int]);
                        }
                    }
                    if decoded_keys(post).contains(b) {
                        let k = choose|k: int| 0 <= k < post.len() && is_base58((#[trigger] post[k])@)
                            && base58_bytes(post[k]@) == b;
                        if k < pre.len() {
                            assert(pre[k] == post[k]);
                            assert(decoded_keys(pre).contains(b));
                            let j = choose|j: int| 0 <= j < prev.len() && (#[trigger] prev[j])@ == b;
                            assert(out@[j] == prev[j]);
                        } else {
                            assert(out@[prev.len() as int]@ == b);
                        }
                    }
                }
                assert(key_set(out@) =~= decoded_keys(post));
            },
            None => {
                assert forall|b: Seq<u8>| decoded_keys(post).contains(b) == decoded_keys(pre).contains(b) by {
                    if decoded_keys(post).contains(b) {
                        let k = choose|k: int| 0 <= k < post.len() && is_base58((#[trigger] post[k])@)
                            && base58_bytes(post[k]@) == b;
                        assert(k < pre.len());
                        assert(pre[k] == post[k]);
                    }
                    if decoded_keys(pre).contains(b) {
                        let k = choose|k: int| 0 <= k < pre.len() && is_base58((#[trigger] pre[k])@)
                            && base58_bytes(pre[k]@) == b;
                        assert(pre[k] == post[k]);
                    }
                }
                assert(decoded_keys(post) =~= decoded_keys(pre));
            },
        }
        i = i + 1;
    }
    assert(names@.subrange(0, names@.len() as int) == names@);
    out
}

fn has_wildcard(names: &[String]) -> (r: bool)
    ensures
        r == exists|i: int| 0 <= i < names@.len() && is_wildcard((#[trigger] names@[i])@),
{
    let mut i: usize = 0;
    while i < names.len()
        invariant
            i <= names@.len(),
            forall|j: int| 0 <= j < i ==> !is_wildcard((#[trigger] names@[j])@),
        decreases names@.len() - i,
    {
        if wildcard(&names[i]) {
            return true;
        }
        i = i + 1;
    }
    false
}

/// Selects accounts by identity key or by owner key; or selects all of them.
#[derive(Debug, Default)]
pub struct AccountsSelector {
    pub accounts: Vec<Vec<u8>>,
    pub owners: Vec<Vec<u8>>,
    pub select_all_accounts: bool,
}

impl AccountsSelector {
    /// The identity keys that are selected (empty when all accounts are).
    pub open spec fn account_keys(&self) -> Set<Seq<u8>> {
        key_set(self.accounts@)
    }

    /// The owner keys whose accounts are selected.
    pub open spec fn owner_keys(&self) -> Set<Seq<u8>> {
        key_set(self.owners@)
    }

    /// Builds a selector from base58 keys. A key `*` among `accounts` selects
    /// every account; otherwise keys that are not valid base58 are skipped.
    pub fn new(accounts: &[String], owners: &[String]) -> (r: Self)
        ensures
            r.select_all_accounts == exists|i: int|
                0 <= i < accounts@.len() && is_wildcard((#[trigger] accounts@[i])@),
            r.select_all_accounts ==> r.account_keys().is_empty() && r.owner_keys().is_empty(),
            !r.select_all_accounts ==> r.account_keys() == decoded_keys(accounts@)
                && r.owner_keys() == decoded_keys(owners@),
    {
        let select_all_accounts = has_wildcard(accounts);
        if select_all_accounts {
            let r = AccountsSelector { accounts: Vec::new(), owners: Vec::new(), select_all_accounts };
            assert(r.account_keys() =~= Set::empty());
            assert(r.owner_keys() =~= Set::empty());
            return r;
        }
        AccountsSelector { accounts: decode_all(accounts), owners: decode_all(owners), select_all_accounts }
    }

    /// Whether an account with this identity key and owner is of interest.
    pub fn is_account_selected(&self, account: &[u8], owner: &[u8]) -> (r: bool)
        ensures
            r == (self.select_all_accounts || self.account_keys().contains(account@)
                || self.owner_keys().contains(owner@)),
    {
        self.select_all_accounts || contains_key(&self.accounts, account) || contains_key(
            &self.owners,
            owner,
        )
    }

    /// Whether any account is of interest at all.
    pub fn is_enabled(&self) -> (r: bool)
        ensures
            r == (self.select_all_accounts || !self.account_keys().is_empty()
                || !self.owner_keys().is_empty()),
    {
        if self.select_all_accounts {
            return true;
        }
        if self.accounts.len() > 0 {
            assert(self.account_keys().contains(self.accounts@[0]@));
            return true;
        }
        if self.owners.len() > 0 {
            assert(self.owner_keys().contains(self.owners@[0]@));
            return true;
        }
        assert(self.account_keys() =~= Set::empty());
        assert(self.owner_keys() =~= Set::empty());
        false
    }
}

} // verus!
