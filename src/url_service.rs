//! Short URLs: creation, lookup, change and removal, per owner or for all.

use vstd::prelude::*;

use crate::errors::UrlError;
use crate::text::{ascii_lower, key_less, key_lt, lemma_ascii_lower_idempotent, lemma_key_order, to_lower};
use crate::types::{opt_view, url_views, CreateUrlRequest, UpdateUrlRequest, Url, UrlView, User};
use crate::url_rules::{
    destination_acceptable, destination_error, key_length_error, validate_key, validate_url,
};

verus! {

/// A stored record is normalised and valid: a lower-case key of allowed
/// length and an acceptable destination.
pub open spec fn row_ok(r: UrlView) -> bool {
    &&& ascii_lower(r.key) == r.key
    &&& key_length_error(r.key.len()) is None
    &&& destination_acceptable(r.url)
}

/// The table holds valid records in strictly increasing order of key, so no
/// key occurs twice.
pub open spec fn table_ok(t: Seq<UrlView>) -> bool {
    &&& forall|i: int| 0 <= i < t.len() ==> row_ok(#[trigger] t[i])
    &&& forall|i: int, j: int| 0 <= i < j < t.len() ==> key_lt(#[trigger] t[i].key, #[trigger] t[j].key)
}

/// Some record of `t` has the key `k`.
pub open spec fn has_key(t: Seq<UrlView>, k: Seq<char>) -> bool {
    exists|i: int| 0 <= i < t.len() && #[trigger] t[i].key == k
}

/// The record of `t` with the key `k`, if there is one.
pub open spec fn row_with_key(t: Seq<UrlView>, k: Seq<char>) -> Option<UrlView> {
    if has_key(t, k) {
        Some(t[choose|i: int| 0 <= i < t.len() && #[trigger] t[i].key == k])
    } else {
        None
    }
}

/// The record of `t` with the key `k`, if there is one and `owner` owns it.
pub open spec fn owned_row_with_key(t: Seq<UrlView>, owner: i32, k: Seq<char>) -> Option<UrlView> {
    match row_with_key(t, k) {
        Some(r) => if r.user_id == owner {
            Some(r)
        } else {
            None
        },
        None => None,
    }
}

/// The records of `t` that `owner` owns, in the order of `t`.
pub open spec fn owned_by(t: Seq<UrlView>, owner: i32) -> Seq<UrlView> {
    t.filter(|r: UrlView| r.user_id == owner)
}

/// The records of `t` that `owner` does not own, in the order of `t`.
pub open spec fn not_owned_by(t: Seq<UrlView>, owner: i32) -> Seq<UrlView> {
    t.filter(|r: UrlView| r.user_id != owner)
}

/// The error that validation of a patch reports, if any: the new key is
/// checked before the new destination.
pub open spec fn patch_rejected(key: Option<Seq<char>>, url: Option<Seq<char>>) -> bool {
    ||| key matches Some(k) && key_length_error(k.len()) is Some
    ||| url matches Some(u) && !destination_acceptable(u)
}

/// `e` is what validation of a rejected patch reports.
pub open spec fn patch_error(key: Option<Seq<char>>, url: Option<Seq<char>>, e: UrlError) -> bool {
    if key matches Some(k) && key_length_error(k.len()) is Some {
        Some(e) == key_length_error(key->0.len())
    } else {
        destination_error(url->0, e)
    }
}

/// `r` with the patch applied: a new key is stored in lower case.
pub open spec fn patched(r: UrlView, key: Option<Seq<char>>, url: Option<Seq<char>>) -> UrlView {
    UrlView {
        key: match key {
            Some(k) => ascii_lower(k),
            None => r.key,
        },
        url: match url {
            Some(u) => u,
            None => r.url,
        },
        user_id: r.user_id,
    }
}

/// The patch would give the record a key that another record holds.
pub open spec fn patch_collides(t: Seq<UrlView>, current: Seq<char>, key: Option<Seq<char>>) -> bool {
    key matches Some(k) && ascii_lower(k) != current && has_key(t, ascii_lower(k))
}

/// `after` is `before` with the record at some position `i`, whose key is
/// `k`, replaced by `row`, at the position that keeps the keys in order.
pub open spec fn replaced(before: Seq<UrlView>, after: Seq<UrlView>, k: Seq<char>, row: UrlView) -> bool {
    exists|i: int, j: int|
        0 <= i < before.len() && before[i].key == k && 0 <= j < before.len() && after
            == #[trigger] before.remove(i).insert(j, row)
}

/// The operations on short URLs.
pub trait UrlService: Sized {
    /// The stored records, in increasing order of key.
    spec fn table(&self) -> Seq<UrlView>;

    /// Stores a new short URL for `user`, under its key in lower case.
    fn create(&mut self, user: User, url: CreateUrlRequest) -> (r: Result<Url, UrlError>)
        requires
            table_ok(old(self).table()),
        ensures
            table_ok(final(self).table()),
            key_length_error(url.key@.len()) matches Some(e) ==> r == Err::<Url, UrlError>(e),
            key_length_error(url.key@.len()) is None && !destination_acceptable(url.url@) ==> (
            r matches Err(e) && destination_error(url.url@, e)),
            key_length_error(url.key@.len()) is None && destination_acceptable(url.url@)
                && has_key(old(self).table(), ascii_lower(url.key@)) ==> r == Err::<Url, UrlError>(
                UrlError::KeyAlreadyExists,
            ),
            key_length_error(url.key@.len()) is None && destination_acceptable(url.url@)
                && !has_key(old(self).table(), ascii_lower(url.key@)) ==> (r matches Ok(u) && u@
                == (UrlView { key: ascii_lower(url.key@), url: url.url@, user_id: user.id })
                && exists|j: int|
                0 <= j <= old(self).table().len() && final(self).table() == #[trigger] old(self).table().insert(j, u@)),
            r is Err ==> final(self).table() == old(self).table(),
    ;

    /// Every record, in increasing order of key.
    fn get_all(&self) -> (r: Result<Vec<Url>, UrlError>)
        requires
            table_ok(self.table()),
        ensures
            r matches Ok(v) && url_views(v@) == self.table(),
    ;

    /// The records that `user` owns, in increasing order of key.
    fn get_all_by_user(&self, user: User) -> (r: Result<Vec<Url>, UrlError>)
        requires
            table_ok(self.table()),
        ensures
            r matches Ok(v) && url_views(v@) == owned_by(self.table(), user.id),
    ;

    /// The record with the key, in any case.
    fn get_by_key(&self, key: String) -> (r: Result<Url, UrlError>)
        requires
            table_ok(self.table()),
        ensures
            match row_with_key(self.table(), ascii_lower(key@)) {
                Some(row) => r matches Ok(u) && u@ == row,
                None => r == Err::<Url, UrlError>(UrlError::NotFound),
            },
    ;

    /// The record with the key, in any case, if `user` owns it.
    fn get_by_key_for_user(&self, user: User, key: String) -> (r: Result<Url, UrlError>)
        requires
            table_ok(self.table()),
        ensures
            match owned_row_with_key(self.table(), user.id, ascii_lower(key@)) {
                Some(row) => r matches Ok(u) && u@ == row,
                None => r == Err::<Url, UrlError>(UrlError::NotFound),
            },
    ;

    /// Changes the key and/or the destination of the record with the key.
    fn update_by_key(&mut self, key: String, url: UpdateUrlRequest) -> (r: Result<Url, UrlError>)
        requires
            table_ok(old(self).table()),
        ensures
            table_ok(final(self).table()),
            r is Err ==> final(self).table() == old(self).table(),
            patch_rejected(opt_view(url.key), opt_view(url.url)) ==> (r matches Err(e)
                && patch_error(opt_view(url.key), opt_view(url.url), e)),
            !patch_rejected(opt_view(url.key), opt_view(url.url)) ==> match row_with_key(
                old(self).table(),
                ascii_lower(key@),
            ) {
                None => r == Err::<Url, UrlError>(UrlError::NotFound),
                Some(row) => if patch_collides(old(self).table(), row.key, opt_view(url.key)) {
                    r == Err::<Url, UrlError>(UrlError::KeyAlreadyExists)
                } else {
                    r matches Ok(u) && u@ == patched(row, opt_view(url.key), opt_view(url.url))
                        && replaced(old(self).table(), final(self).table(), row.key, u@)
                },
            },
    ;

    /// Changes the key and/or the destination of the record with the key, if
    /// `user` owns it.
    fn update_by_key_for_user(&mut self, user: User, key: String, url: UpdateUrlRequest) -> (r:
        Result<Url, UrlError>)
        requires
            table_ok(old(self).table()),
        ensures
            table_ok(final(self).table()),
            r is Err ==> final(self).table() == old(self).table(),
            patch_rejected(opt_view(url.key), opt_view(url.url)) ==> (r matches Err(e)
                && patch_error(opt_view(url.key), opt_view(url.url), e)),
            !patch_rejected(opt_view(url.key), opt_view(url.url)) ==> match owned_row_with_key(
                old(self).table(),
                user.id,
                ascii_lower(key@),
            ) {
                None => r == Err::<Url, UrlError>(UrlError::NotFound),
                Some(row) => if patch_collides(old(self).table(), row.key, opt_view(url.key)) {
                    r == Err::<Url, UrlError>(UrlError::KeyAlreadyExists)
                } else {
                    r matches Ok(u) && u@ == patched(row, opt_view(url.key), opt_view(url.url))
                        && replaced(old(self).table(), final(self).table(), row.key, u@)
                },
            },
    ;

    /// Removes the record with the key.
    fn delete_by_key(&mut self, key: String) -> (r: Result<(), UrlError>)
        requires
            table_ok(old(self).table()),
        ensures
            table_ok(final(self).table()),
            match row_with_key(old(self).table(), ascii_lower(key@)) {
                None => r == Err::<(), UrlError>(UrlError::NotFound) && final(self).table() == old(self).table(),
                Some(row) => r is Ok && exists|i: int|
                    0 <= i < old(self).table().len() && old(self).table()[i] == row && final(self).table() == #[trigger] old(self).table().remove(i),
            },
    ;

    /// Removes the record with the key, if `user` owns it.
    fn delete_by_key_for_user(&mut self, user: User, key: String) -> (r: Result<(), UrlError>)
        requires
            table_ok(old(self).table()),
        ensures
            table_ok(final(self).table()),
            match owned_row_with_key(old(self).table(), user.id, ascii_lower(key@)) {
                None => r == Err::<(), UrlError>(UrlError::NotFound) && final(self).table() == old(self).table(),
                Some(row) => r is Ok && exists|i: int|
                    0 <= i < old(self).table().len() && old(self).table()[i] == row && final(self).table() == #[trigger] old(self).table().remove(i),
            },
    ;

    /// Removes every record that the user with this id owns; finding none is
    /// no error, so this always succeeds.
    fn delete_by_user_id(&mut self, user_id: i32) -> (r: Result<(), UrlError>)
        requires
            table_ok(old(self).table()),
        ensures
            table_ok(final(self).table()),
            r is Ok,
            final(self).table() == not_owned_by(old(self).table(), user_id),
    ;
}

/// In a well-formed table a key picks out at most one record.
pub proof fn lemma_keys_unique(t: Seq<UrlView>)
    requires
        table_ok(t),
    ensures
        forall|i: int, j: int|
            0 <= i < t.len() && 0 <= j < t.len() && #[trigger] t[i].key == #[trigger] t[j].key
                ==> i == j,
{
    assert forall|i: int, j: int|
        0 <= i < t.len() && 0 <= j < t.len() && #[trigger] t[i].key == #[trigger] t[j].key implies i
        == j by {
        lemma_key_order(t[i].key, t[j].key, t[j].key);
        if i < j {
            assert(key_lt(t[i].key, t[j].key));
        } else if j < i {
            assert(key_lt(t[j].key, t[i].key));
        }
    }
}

/// The record at position `i` is the one that its key picks out.
pub proof fn lemma_row_with_key_at(t: Seq<UrlView>, i: int)
    requires
        table_ok(t),
        0 <= i < t.len(),
    ensures
        row_with_key(t, t[i].key) == Some(t[i]),
{
    lemma_keys_unique(t);
    assert(has_key(t, t[i].key));
}

/// Taking a record out keeps a table well formed.
pub proof fn lemma_remove_keeps_table_ok(t: Seq<UrlView>, i: int)
    requires
        table_ok(t),
        0 <= i < t.len(),
    ensures
        table_ok(t.remove(i)),
        forall|k: Seq<char>| !has_key(t, k) ==> !has_key(#[trigger] t.remove(i), k),
        !has_key(t.remove(i), t[i].key),
{
    let s = t.remove(i);
    assert forall|a: int| 0 <= a < s.len() implies row_ok(#[trigger] s[a]) by {
        if a < i {
            assert(s[a] == t[a]);
        } else {
            assert(s[a] == t[a + 1]);
        }
    }
    assert forall|a: int, b: int| 0 <= a < b < s.len() implies key_lt(
        #[trigger] s[a].key,
        #[trigger] s[b].key,
    ) by {
        let a0 = if a < i {
            a
        } else {
            a + 1
        };
        let b0 = if b < i {
            b
        } else {
            b + 1
        };
        assert(s[a] == t[a0] && s[b] == t[b0]);
        assert(key_lt(t[a0].key, t[b0].key));
    }
    assert forall|k: Seq<char>| !has_key(t, k) implies !has_key(#[trigger] t.remove(i), k) by {
        if has_key(s, k) {
            let a = choose|a: int| 0 <= a < s.len() && #[trigger] s[a].key == k;
            if a < i {
                assert(t[a].key == k);
            } else {
                assert(t[a + 1].key == k);
            }
        }
    }
    lemma_keys_unique(t);
    if has_key(s, t[i].key) {
        let a = choose|a: int| 0 <= a < s.len() && #[trigger] s[a].key == t[i].key;
        if a < i {
            assert(t[a].key == t[i].key);
        } else {
            assert(t[a + 1].key == t[i].key);
        }
    }
}

/// A patch that passed validation and does not collide leaves a valid record
/// whose key no other record holds.
proof fn lemma_patched_row_ok(t: Seq<UrlView>, i: int, key: Option<Seq<char>>, url: Option<Seq<char>>)
    requires
        table_ok(t),
        0 <= i < t.len(),
        !patch_rejected(key, url),
        !patch_collides(t, t[i].key, key),
    ensures
        row_ok(patched(t[i], key, url)),
        !has_key(t.remove(i), patched(t[i], key, url).key),
{
    lemma_remove_keeps_table_ok(t, i);
    if let Some(k) = key {
        lemma_ascii_lower_idempotent(k);
    }
}

/// The short URL service over a table held in memory.
pub struct DbUrlService {
    urls: Vec<Url>,
}

impl DbUrlService {
    /// A service with no records.
    pub fn new() -> (s: DbUrlService)
        ensures
            s.table() == Seq::<UrlView>::empty(),
    {
        let s = DbUrlService { urls: Vec::new() };
        assert(s.table() =~= Seq::<UrlView>::empty());
        s
    }

    /// The position of the record with exactly this key.
    fn position_of(&self, key: &String) -> (r: Option<usize>)
        ensures
            match r {
                Some(i) => i < self.table().len() && self.table()[i as int].key == key@,
                None => !has_key(self.table(), key@),
            },
    {
        let n = self.urls.len();
        let mut i: usize = 0;
        while i < n
            invariant
                n == self.urls@.len(),
                i <= n,
                forall|m: int| 0 <= m < i ==> #[trigger] self.table()[m].key != key@,
            decreases n - i,
        {
            if self.urls[i].key == *key {
                return Some(i);
            }
            i = i + 1;
        }
        None
    }

    /// Adds a record where its key belongs in the order; returns its position.
    fn insert_sorted(&mut self, row: Url) -> (j: usize)
        requires
            table_ok(old(self).table()),
            row_ok(row@),
            !has_key(old(self).table(), row@.key),
        ensures
            j <= old(self).table().len(),
            final(self).table() == old(self).table().insert(j as int, row@),
            table_ok(final(self).table()),
    {
        let n = self.urls.len();
        let mut p: usize = 0;
        while p < n
            invariant
                n == self.urls@.len(),
                p <= n,
                self.urls == old(self).urls,
                forall|m: int| 0 <= m < p ==> key_lt(#[trigger] self.table()[m].key, row@.key),
            ensures
                p <= n,
                self.urls == old(self).urls,
                forall|m: int| 0 <= m < p ==> key_lt(#[trigger] self.table()[m].key, row@.key),
                p < n ==> !key_lt(self.table()[p as int].key, row@.key),
            decreases n - p,
        {
            if !key_less(self.urls[p].key.as_str(), row.key.as_str()) {
                break;
            }
            p = p + 1;
        }
        let ghost t = self.table();
        let ghost k = row@.key;
        self.urls.insert(p, row);
        proof {
            let s = t.insert(p as int, row@);
            assert(self.table() =~= s);
            assert forall|a: int| 0 <= a < s.len() implies row_ok(#[trigger] s[a]) by {
                if a > p {
                    assert(s[a] == t[a - 1]);
                }
            }
            assert forall|a: int, b: int| 0 <= a < b < s.len() implies key_lt(
                #[trigger] s[a].key,
                #[trigger] s[b].key,
            ) by {
                if b < p {
                    assert(s[a] == t[a] && s[b] == t[b]);
                } else if a < p && b == p {
                    assert(s[a] == t[a]);
                } else if a < p {
                    assert(s[a] == t[a] && s[b] == t[b - 1]);
                } else if a == p {
                    assert(s[b] == t[b - 1]);
                    assert(t[p as int].key != k);
                    lemma_key_order(k, t[p as int].key, t[b - 1].key);
                    if b - 1 > p {
                        assert(key_lt(t[p as int].key, t[b - 1].key));
                    }
                } else {
                    assert(s[a] == t[a - 1] && s[b] == t[b - 1]);
                }
            }
        }
        p
    }

    /// Checks a patch's fields before anything is looked up.
    fn check_patch(url: &UpdateUrlRequest) -> (r: Result<(), UrlError>)
        ensures
            r is Err <==> patch_rejected(opt_view(url.key), opt_view(url.url)),
            r matches Err(e) ==> patch_error(opt_view(url.key), opt_view(url.url), e),
    {
        if let Some(k) = &url.key {
            match validate_key(k.as_str()) {
                Err(e) => {
                    return Err(e);
                },
                Ok(()) => {},
            }
        }
        if let Some(u) = &url.url {
            match validate_url(u.as_str()) {
                Err(e) => {
                    return Err(e);
                },
                Ok(()) => {},
            }
        }
        Ok(())
    }

    /// Applies a validated patch to the record at position `i`.
    fn update_at(&mut self, i: usize, url: UpdateUrlRequest) -> (r: Result<Url, UrlError>)
        requires
            table_ok(old(self).table()),
            i < old(self).table().len(),
            !patch_rejected(opt_view(url.key), opt_view(url.url)),
        ensures
            table_ok(final(self).table()),
            if patch_collides(old(self).table(), old(self).table()[i as int].key, opt_view(url.key)) {
                r == Err::<Url, UrlError>(UrlError::KeyAlreadyExists) && final(self).table() == old(
                self).table()
            } else {
                r matches Ok(u) && u@ == patched(
                    old(self).table()[i as int],
                    opt_view(url.key),
                    opt_view(url.url),
                ) && replaced(old(self).table(), final(self).table(), old(self).table()[i as int].key, u@)
            },
    {
        let ghost t = self.table();
        let current = self.urls[i].key.clone();
        let new_key = match url.key {
            Some(k) => {
                let nk = to_lower(k.as_str());
                if nk != current {
                    if self.position_of(&nk).is_some() {
                        return Err(UrlError::KeyAlreadyExists);
                    }
                }
                nk
            },
            None => current,
        };
        let old_row = self.urls.remove(i);
        assert(self.table() =~= t.remove(i as int));
        let new_url = match url.url {
            Some(u) => u,
            None => old_row.url,
        };
        let row = Url { key: new_key, url: new_url, user_id: old_row.user_id };
        let result = row.duplicate();
        proof {
            lemma_remove_keeps_table_ok(t, i as int);
            lemma_patched_row_ok(t, i as int, opt_view(url.key), opt_view(url.url));
        }
        let j = self.insert_sorted(row);
        assert(self.table() == t.remove(i as int).insert(j as int, result@));
        Ok(result)
    }
}

impl UrlService for DbUrlService {
    closed spec fn table(&self) -> Seq<UrlView> {
        url_views(self.urls@)
    }

    fn create(&mut self, user: User, url: CreateUrlRequest) -> (r: Result<Url, UrlError>) {
        match validate_key(url.key.as_str()) {
            Err(e) => {
                return Err(e);
            },
            Ok(()) => {},
        }
        match validate_url(url.url.as_str()) {
            Err(e) => {
                return Err(e);
            },
            Ok(()) => {},
        }
        let key = to_lower(url.key.as_str());
        if self.position_of(&key).is_some() {
            return Err(UrlError::KeyAlreadyExists);
        }
        let row = Url { key, url: url.url, user_id: user.id };
        let result = row.duplicate();
        proof {
            lemma_ascii_lower_idempotent(url.key@);
        }
        self.insert_sorted(row);
        Ok(result)
    }

    fn get_all(&self) -> (r: Result<Vec<Url>, UrlError>) {
        let n = self.urls.len();
        let mut out: Vec<Url> = Vec::new();
        let mut i: usize = 0;
        while i < n
            invariant
                n == self.urls@.len(),
                i <= n,
                url_views(out@) == self.table().subrange(0, i as int),
            decreases n - i,
        {
            let ghost before = out@;
            out.push(self.urls[i].duplicate());
            proof {
                let t = self.table();
                assert(t[i as int] == self.urls@[i as int]@);
                assert(url_views(out@) =~= url_views(before).push(t[i as int]));
                assert(t.subrange(0, i + 1) =~= t.subrange(0, i as int).push(t[i as int]));
            }
            i = i + 1;
        }
        assert(self.table().subrange(0, n as int) =~= self.table());
        Ok(out)
    }

    fn get_all_by_user(&self, user: User) -> (r: Result<Vec<Url>, UrlError>) {
        let n = self.urls.len();
        let mut out: Vec<Url> = Vec::new();
        let mut i: usize = 0;
        while i < n
            invariant
                n == self.urls@.len(),
                i <= n,
                url_views(out@) == owned_by(self.table().subrange(0, i as int), user.id),
            decreases n - i,
        {
            let ghost before = out@;
            if self.urls[i].user_id == user.id {
                out.push(self.urls[i].duplicate());
            }
            proof {
                let t = self.table();
                assert(t.subrange(0, i + 1).drop_last() =~= t.subrange(0, i as int));
                reveal(Seq::filter);
                assert(url_views(out@) =~= owned_by(t.subrange(0, i + 1), user.id));
            }
            i = i + 1;
        }
        assert(self.table().subrange(0, n as int) =~= self.table());
        Ok(out)
    }

    fn get_by_key(&self, key: String) -> (r: Result<Url, UrlError>) {
        let k = to_lower(key.as_str());
        match self.position_of(&k) {
            Some(i) => {
                proof {
                    lemma_row_with_key_at(self.table(), i as int);
                }
                Ok(self.urls[i].duplicate())
            },
            None => Err(UrlError::NotFound),
        }
    }

    fn get_by_key_for_user(&self, user: User, key: String) -> (r: Result<Url, UrlError>) {
        let k = to_lower(key.as_str());
        match self.position_of(&k) {
            Some(i) => {
                proof {
                    lemma_row_with_key_at(self.table(), i as int);
                }
                if self.urls[i].user_id == user.id {
                    Ok(self.urls[i].duplicate())
                } else {
                    Err(UrlError::NotFound)
                }
            },
            None => Err(UrlError::NotFound),
        }
    }

    fn update_by_key(&mut self, key: String, url: UpdateUrlRequest) -> (r: Result<Url, UrlError>) {
        match Self::check_patch(&url) {
            Err(e) => {
                return Err(e);
            },
            Ok(()) => {},
        }
        let k = to_lower(key.as_str());
        match self.position_of(&k) {
            Some(i) => {
                proof {
                    lemma_row_with_key_at(self.table(), i as int);
                }
                self.update_at(i, url)
            },
            None => Err(UrlError::NotFound),
        }
    }

    fn update_by_key_for_user(&mut self, user: User, key: String, url: UpdateUrlRequest) -> (r:
        Result<Url, UrlError>) {
        match Self::check_patch(&url) {
            Err(e) => {
                return Err(e);
            },
            Ok(()) => {},
        }
        let k = to_lower(key.as_str());
        match self.position_of(&k) {
            Some(i) => {
                proof {
                    lemma_row_with_key_at(self.table(), i as int);
                }
                if self.urls[i].user_id == user.id {
                    self.update_at(i, url)
                } else {
                    Err(UrlError::NotFound)
                }
            },
            None => Err(UrlError::NotFound),
        }
    }

    fn delete_by_key(&mut self, key: String) -> (r: Result<(), UrlError>) {
        let k = to_lower(key.as_str());
        match self.position_of(&k) {
            Some(i) => {
                let ghost t = self.table();
                proof {
                    lemma_row_with_key_at(t, i as int);
                    lemma_remove_keeps_table_ok(t, i as int);
                }
                self.urls.remove(i);
                assert(self.table() =~= t.remove(i as int));
                Ok(())
            },
            None => Err(UrlError::NotFound),
        }
    }

    fn delete_by_key_for_user(&mut self, user: User, key: String) -> (r: Result<(), UrlError>) {
        let k = to_lower(key.as_str());
        match self.position_of(&k) {
            Some(i) => {
                let ghost t = self.table();
                proof {
                    lemma_row_with_key_at(t, i as int);
                    lemma_remove_keeps_table_ok(t, i as int);
                }
                if self.urls[i].user_id != user.id {
                    return Err(UrlError::NotFound);
                }
                self.urls.remove(i);
                assert(self.table() =~= t.remove(i as int));
                Ok(())
            },
            None => Err(UrlError::NotFound),
        }
    }

    fn delete_by_user_id(&mut self, user_id: i32) -> (r: Result<(), UrlError>) {
        let ghost t = self.table();
        let n = self.urls.len();
        let mut kept: Vec<Url> = Vec::new();
        let mut i: usize = 0;
        while i < n
            invariant
                n == self.urls@.len(),
                i <= n,
                self.table() == t,
                table_ok(t),
                url_views(kept@) == not_owned_by(t.subrange(0, i as int), user_id),
            decreases n - i,
        {
            if self.urls[i].user_id != user_id {
                kept.push(self.urls[i].duplicate());
            }
            proof {
                assert(t.subrange(0, i + 1).drop_last() =~= t.subrange(0, i as int));
                reveal(Seq::filter);
                assert(url_views(kept@) =~= not_owned_by(t.subrange(0, i + 1), user_id));
            }
            i = i + 1;
        }
        assert(t.subrange(0, n as int) =~= t);
        self.urls = kept;
        proof {
            lemma_filter_keeps_table_ok(t, user_id);
        }
        Ok(())
    }
}

/// Dropping one owner's records keeps a table well formed.
pub proof fn lemma_filter_keeps_table_ok(t: Seq<UrlView>, owner: i32)
    requires
        table_ok(t),
    ensures
        table_ok(not_owned_by(t, owner)),
    decreases t.len(),
{
    reveal(Seq::filter);
    if t.len() > 0 {
        let u = t.drop_last();
        assert forall|i: int| 0 <= i < u.len() implies row_ok(#[trigger] u[i]) by {
            assert(u[i] == t[i]);
        }
        assert forall|i: int, j: int| 0 <= i < j < u.len() implies key_lt(
            #[trigger] u[i].key,
            #[trigger] u[j].key,
        ) by {
            assert(u[i] == t[i] && u[j] == t[j]);
        }
        lemma_filter_keeps_table_ok(u, owner);
        let f = not_owned_by(u, owner);
        if t.last().user_id != owner {
            let s = f.push(t.last());
            assert(s == not_owned_by(t, owner));
            assert forall|i: int, j: int| 0 <= i < j < s.len() implies key_lt(
                #[trigger] s[i].key,
                #[trigger] s[j].key,
            ) by {
                if j == s.len() - 1 {
                    assert(f.contains(s[i])) by {
                        assert(f[i] == s[i]);
                    }
                    u.lemma_filter_contains_rev(|r: UrlView| r.user_id != owner, s[i]);
                    let m = choose|m: int| 0 <= m < u.len() && u[m] == s[i];
                    assert(t[m] == u[m]);
                    assert(key_lt(t[m].key, t[t.len() - 1].key));
                } else {
                    assert(s[i] == f[i] && s[j] == f[j]);
                }
            }
            assert forall|i: int| 0 <= i < s.len() implies row_ok(#[trigger] s[i]) by {
                if i < s.len() - 1 {
                    assert(s[i] == f[i]);
                }
            }
        }
    }
}

} // verus!
