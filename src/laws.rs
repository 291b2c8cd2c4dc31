//! Properties that hold across operations, stated over the models that the
//! operations' contracts use.

use vstd::prelude::*;

use crate::guards::authenticated_account;
use crate::text::{ascii_lower, lemma_same_ignoring_case_lowers_equal, same_ignoring_case};
use crate::types::UrlView;
use crate::url_service::{
    has_key, lemma_keys_unique, lemma_row_with_key_at, not_owned_by, owned_by, owned_row_with_key,
    row_with_key, table_ok,
};
use crate::user_service::{
    account_removed, account_with_client_id, account_with_id, accounts_ok,
    lemma_account_at, lemma_account_remove, lemma_cascade_leaves_nothing, UserService,
};

verus! {

/// A record that creation stored under `key` is what a lookup under any
/// spelling of `key` that differs only in ASCII case finds.
pub proof fn created_key_resolves_in_any_case(
    before: Seq<UrlView>,
    after: Seq<UrlView>,
    j: int,
    created: UrlView,
    key: Seq<char>,
    variant: Seq<char>,
)
    requires
        table_ok(after),
        0 <= j <= before.len(),
        after == before.insert(j, created),
        created.key == ascii_lower(key),
        same_ignoring_case(key, variant),
    ensures
        row_with_key(after, ascii_lower(variant)) == Some(created),
{
    lemma_same_ignoring_case_lowers_equal(key, variant);
    assert(after[j] == created);
    lemma_row_with_key_at(after, j);
}

/// No two records share a key.
pub proof fn keys_are_unique(t: Seq<UrlView>)
    requires
        table_ok(t),
    ensures
        forall|i: int, j: int|
            0 <= i < t.len() && 0 <= j < t.len() && i != j ==> #[trigger] t[i].key
                != #[trigger] t[j].key,
{
    lemma_keys_unique(t);
}

/// Once a record holds a key, the key counts as taken for every spelling of
/// it, so a second creation under it is refused.
pub proof fn stored_key_is_taken(t: Seq<UrlView>, i: int, key: Seq<char>)
    requires
        0 <= i < t.len(),
        t[i].key == ascii_lower(key),
    ensures
        has_key(t, ascii_lower(key)),
{
    assert(t[i].key == ascii_lower(key));
}

/// A lookup on behalf of anyone but a record's owner finds nothing, exactly
/// as for a key that does not exist.
pub proof fn other_owners_find_nothing(t: Seq<UrlView>, i: int, owner: i32, key: Seq<char>)
    requires
        table_ok(t),
        0 <= i < t.len(),
        t[i].user_id != owner,
        ascii_lower(key) == t[i].key,
    ensures
        owned_row_with_key(t, owner, ascii_lower(key)) is None,
{
    lemma_row_with_key_at(t, i);
}

/// After an account's records are removed, listing that owner's records
/// gives nothing.
pub proof fn cascade_leaves_no_urls(t: Seq<UrlView>, owner: i32)
    ensures
        owned_by(not_owned_by(t, owner), owner).len() == 0,
{
    lemma_cascade_leaves_nothing(t, owner);
}

/// After an account is removed, looking up its id finds nothing.
pub proof fn removed_account_is_gone(
    before: Seq<crate::user_service::AccountView>,
    after: Seq<crate::user_service::AccountView>,
    id: i32,
)
    requires
        accounts_ok(before),
        account_with_id(before, id) matches Some(a) && account_removed(before, after, a),
    ensures
        account_with_id(after, id) is None,
{
    let a = account_with_id(before, id)->0;
    let i = choose|i: int| 0 <= i < before.len() && before[i] == a && after == #[trigger] before.remove(i);
    lemma_account_at(before, i);
    lemma_account_remove(before, i);
}

/// An unknown client id and a known one with a wrong secret are turned away
/// alike: neither authenticates as any account.
pub proof fn bad_credentials_look_alike<S: UserService>(
    service: &S,
    unknown_id: Seq<char>,
    any_secret: Seq<char>,
    known_id: Seq<char>,
    wrong_secret: Seq<char>,
)
    requires
        account_with_client_id(service.accounts(), ascii_lower(unknown_id)) is None,
        account_with_client_id(service.accounts(), ascii_lower(known_id)) matches Some(a)
            && service.verdict(a.hash, wrong_secret) == Some(false),
    ensures
        authenticated_account(service, unknown_id, any_secret) is None,
        authenticated_account(service, known_id, wrong_secret) is None,
{
}

} // verus!
