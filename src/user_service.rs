//! Accounts: creation, authentication, change and removal with their URLs.

use vstd::prelude::*;

use crate::errors::UserError;
use crate::password::PasswordService;
use crate::text::{ascii_lower, lemma_ascii_lower_idempotent, to_lower};
use crate::types::{
    opt_view, user_views, CreateUserRequest, UpdateUserRequest, UrlView, User, UserView,
};
use crate::url_service::{not_owned_by, owned_by, table_ok, UrlService};

verus! {

pub const CLIENT_ID_MIN_LEN: usize = 3;

pub const CLIENT_ID_MAX_LEN: usize = 256;

pub const CLIENT_SECRET_MIN_LEN: usize = 6;

pub const CLIENT_SECRET_MAX_LEN: usize = 1024;

/// The error that a client id of `n` characters is refused with, if any.
pub open spec fn client_id_error(n: nat) -> Option<UserError> {
    if n < CLIENT_ID_MIN_LEN {
        Some(UserError::ClientIdTooShort { min: CLIENT_ID_MIN_LEN })
    } else if n > CLIENT_ID_MAX_LEN {
        Some(UserError::ClientIdTooLong { max: CLIENT_ID_MAX_LEN })
    } else {
        None
    }
}

/// The error that a client secret of `n` characters is refused with, if any.
pub open spec fn client_secret_error(n: nat) -> Option<UserError> {
    if n < CLIENT_SECRET_MIN_LEN {
        Some(UserError::ClientSecretTooShort { min: CLIENT_SECRET_MIN_LEN })
    } else if n > CLIENT_SECRET_MAX_LEN {
        Some(UserError::ClientSecretTooLong { max: CLIENT_SECRET_MAX_LEN })
    } else {
        None
    }
}

/// Checks the length of a client id, counted in characters.
pub fn validate_client_id(client_id: &str) -> (r: Result<(), UserError>)
    ensures
        match client_id_error(client_id@.len()) {
            Some(e) => r == Err::<(), UserError>(e),
            None => r is Ok,
        },
{
    let length = client_id.unicode_len();
    if length < CLIENT_ID_MIN_LEN {
        return Err(UserError::ClientIdTooShort { min: CLIENT_ID_MIN_LEN });
    }
    if length > CLIENT_ID_MAX_LEN {
        return Err(UserError::ClientIdTooLong { max: CLIENT_ID_MAX_LEN });
    }
    Ok(())
}

/// Checks the length of a client secret, counted in characters.
pub fn validate_client_secret(client_secret: &str) -> (r: Result<(), UserError>)
    ensures
        match client_secret_error(client_secret@.len()) {
            Some(e) => r == Err::<(), UserError>(e),
            None => r is Ok,
        },
{
    let length = client_secret.unicode_len();
    if length < CLIENT_SECRET_MIN_LEN {
        return Err(UserError::ClientSecretTooShort { min: CLIENT_SECRET_MIN_LEN });
    }
    if length > CLIENT_SECRET_MAX_LEN {
        return Err(UserError::ClientSecretTooLong { max: CLIENT_SECRET_MAX_LEN });
    }
    Ok(())
}

/// An account as it is stored, with the hash of its secret.
struct StoredUser {
    id: i32,
    client_id: String,
    hash: String,
    is_admin: bool,
}

/// What a stored account holds, as mathematical values.
pub struct AccountView {
    pub id: i32,
    pub client_id: Seq<char>,
    pub hash: Seq<char>,
    pub is_admin: bool,
}

impl View for StoredUser {
    type V = AccountView;

    closed spec fn view(&self) -> AccountView {
        AccountView {
            id: self.id,
            client_id: self.client_id@,
            hash: self.hash@,
            is_admin: self.is_admin,
        }
    }
}

/// What an account shows of itself: everything but the hash.
pub open spec fn public_view(a: AccountView) -> UserView {
    UserView { id: a.id, client_id: a.client_id, is_admin: a.is_admin }
}

/// A stored account is normalised: a lower-case client id of allowed length.
pub open spec fn account_ok(a: AccountView) -> bool {
    &&& ascii_lower(a.client_id) == a.client_id
    &&& client_id_error(a.client_id.len()) is None
}

/// The accounts are valid, in strictly increasing order of id, and no client
/// id occurs twice.
pub open spec fn accounts_ok(t: Seq<AccountView>) -> bool {
    &&& forall|i: int| 0 <= i < t.len() ==> account_ok(#[trigger] t[i])
    &&& forall|i: int, j: int| 0 <= i < j < t.len() ==> #[trigger] t[i].id < #[trigger] t[j].id
    &&& forall|i: int, j: int|
        0 <= i < t.len() && 0 <= j < t.len() && i != j ==> #[trigger] t[i].client_id
            != #[trigger] t[j].client_id
}

/// Some account of `t` has the id `id`.
pub open spec fn has_id(t: Seq<AccountView>, id: i32) -> bool {
    exists|i: int| 0 <= i < t.len() && #[trigger] t[i].id == id
}

/// The account of `t` with the id `id`, if there is one.
pub open spec fn account_with_id(t: Seq<AccountView>, id: i32) -> Option<AccountView> {
    if has_id(t, id) {
        Some(t[choose|i: int| 0 <= i < t.len() && #[trigger] t[i].id == id])
    } else {
        None
    }
}

/// Some account of `t` has the client id `c`.
pub open spec fn has_client_id(t: Seq<AccountView>, c: Seq<char>) -> bool {
    exists|i: int| 0 <= i < t.len() && #[trigger] t[i].client_id == c
}

/// The account of `t` with the client id `c`, if there is one.
pub open spec fn account_with_client_id(t: Seq<AccountView>, c: Seq<char>) -> Option<AccountView> {
    if has_client_id(t, c) {
        Some(t[choose|i: int| 0 <= i < t.len() && #[trigger] t[i].client_id == c])
    } else {
        None
    }
}

/// What the administrator flag becomes where none is given.
pub open spec fn flag_or_false(o: Option<bool>) -> bool {
    match o {
        Some(b) => b,
        None => false,
    }
}

/// `after` is `before` with one account added at the end, whose id is
/// greater than every earlier id and which shows itself as `u`.
pub open spec fn appended(before: Seq<AccountView>, after: Seq<AccountView>, u: UserView) -> bool {
    &&& after.len() == before.len() + 1
    &&& after.drop_last() == before
    &&& public_view(after.last()) == u
    &&& forall|i: int| 0 <= i < before.len() ==> #[trigger] before[i].id < u.id
}

/// The client id of account `id` would become `c`, which another account
/// holds.
pub open spec fn client_id_taken(t: Seq<AccountView>, id: i32, c: Option<Seq<char>>) -> bool {
    c matches Some(c) && account_with_client_id(t, ascii_lower(c)) matches Some(o) && o.id != id
}

/// `a` with the given fields replaced; a new client id is stored in lower
/// case.
pub open spec fn amended(a: AccountView, c: Option<Seq<char>>, hash: Seq<char>, is_admin: Option<bool>) -> AccountView {
    AccountView {
        id: a.id,
        client_id: match c {
            Some(c) => ascii_lower(c),
            None => a.client_id,
        },
        hash,
        is_admin: match is_admin {
            Some(b) => b,
            None => a.is_admin,
        },
    }
}

/// The hash that `a` keeps, or the new one where one is given.
pub open spec fn hash_or(a: AccountView, hash: Option<Seq<char>>) -> Seq<char> {
    match hash {
        Some(h) => h,
        None => a.hash,
    }
}

/// `after` is `before` with the account `a` replaced by `b` in its place.
pub open spec fn account_replaced(before: Seq<AccountView>, after: Seq<AccountView>, a: AccountView, b: AccountView) -> bool {
    exists|i: int| 0 <= i < before.len() && before[i] == a && after == #[trigger] before.update(i, b)
}

/// `after` is `before` without the account `a`.
pub open spec fn account_removed(before: Seq<AccountView>, after: Seq<AccountView>, a: AccountView) -> bool {
    exists|i: int| 0 <= i < before.len() && before[i] == a && after == #[trigger] before.remove(i)
}

/// The public views of a sequence of accounts.
pub open spec fn public_views(t: Seq<AccountView>) -> Seq<UserView> {
    t.map_values(|a: AccountView| public_view(a))
}

/// The operations on accounts.
pub trait UserService: Sized {
    /// The stored accounts, in increasing order of id.
    spec fn accounts(&self) -> Seq<AccountView>;

    /// The short URLs that removing an account cascades into.
    spec fn url_table(&self) -> Seq<UrlView>;

    /// Whether `secret` matches `hash`, or None where the check cannot be
    /// made.
    spec fn verdict(&self, hash: Seq<char>, secret: Seq<char>) -> Option<bool>;

    /// `hash` is one that the password service can make of `secret`.
    spec fn hashes(&self, hash: Seq<char>, secret: Seq<char>) -> bool;

    /// The service's internal consistency.
    spec fn inv(&self) -> bool;

    /// A consistent service keeps its accounts and its URL table well formed.
    proof fn lemma_inv(&self)
        requires
            self.inv(),
        ensures
            accounts_ok(self.accounts()),
            table_ok(self.url_table()),
    ;

    /// The store can still assign a fresh id.
    spec fn can_add(&self) -> bool;

    /// Creates an account with a hash of its secret and its client id in
    /// lower case; it is not an administrator unless asked.
    fn create(&mut self, user: CreateUserRequest) -> (r: Result<User, UserError>)
        requires
            old(self).inv(),
        ensures
            final(self).inv(),
            forall|h: Seq<char>, s: Seq<char>|
                #[trigger] final(self).verdict(h, s) == old(self).verdict(h, s),
            forall|h: Seq<char>, s: Seq<char>|
                #[trigger] final(self).hashes(h, s) == old(self).hashes(h, s),
            final(self).url_table() == old(self).url_table(),
            r is Err ==> final(self).accounts() == old(self).accounts(),
            client_id_error(user.client_id@.len()) matches Some(e) ==> r == Err::<User, UserError>(e),
            client_id_error(user.client_id@.len()) is None ==> (client_secret_error(
                user.client_secret@.len(),
            ) matches Some(e) ==> r == Err::<User, UserError>(e)),
            r matches Err(UserError::HashError(_)) ==> client_id_error(user.client_id@.len()) is None
                && client_secret_error(user.client_secret@.len()) is None,
            client_id_error(user.client_id@.len()) is None && client_secret_error(
                user.client_secret@.len(),
            ) is None && !(r matches Err(UserError::HashError(_))) ==> match account_with_client_id(
                old(self).accounts(),
                ascii_lower(user.client_id@),
            ) {
                Some(_) => r == Err::<User, UserError>(UserError::ClientIdAlreadyExists),
                None => if old(self).can_add() {
                    r matches Ok(u) && u@ == (UserView {
                        id: u.id,
                        client_id: ascii_lower(user.client_id@),
                        is_admin: flag_or_false(user.is_admin),
                    }) && appended(old(self).accounts(), final(self).accounts(), u@)
                        && old(self).hashes(final(self).accounts().last().hash, user.client_secret@)
                } else {
                    r == Err::<User, UserError>(UserError::Unknown)
                },
            },
    ;

    /// Every account, in increasing order of id, without hashes.
    fn get_all(&self) -> (r: Result<Vec<User>, UserError>)
        requires
            self.inv(),
        ensures
            r matches Ok(v) && user_views(v@) == public_views(self.accounts()),
            accounts_ok(self.accounts()),
    ;

    /// Authenticates: the account with the client id, in any case, if the
    /// secret matches its hash.
    fn verify_and_get(&self, client_id: String, client_secret: String) -> (r: Result<User, UserError>)
        requires
            self.inv(),
        ensures
            match account_with_client_id(self.accounts(), ascii_lower(client_id@)) {
                None => r == Err::<User, UserError>(UserError::NotFound),
                Some(a) => match self.verdict(a.hash, client_secret@) {
                    Some(true) => r matches Ok(u) && u@ == public_view(a),
                    Some(false) => r == Err::<User, UserError>(UserError::Invalid),
                    None => r matches Err(UserError::HashError(_)),
                },
            },
            account_with_client_id(self.accounts(), ascii_lower(client_id@)) is Some && self.hashes(
                account_with_client_id(self.accounts(), ascii_lower(client_id@))->0.hash,
                client_secret@,
            ) ==> (r matches Ok(u) && u@ == public_view(
                account_with_client_id(self.accounts(), ascii_lower(client_id@))->0,
            )),
    ;

    /// The account with the id.
    fn get_by_id(&self, id: i32) -> (r: Result<User, UserError>)
        requires
            self.inv(),
        ensures
            match account_with_id(self.accounts(), id) {
                Some(a) => r matches Ok(u) && u@ == public_view(a),
                None => r == Err::<User, UserError>(UserError::NotFound),
            },
    ;

    /// Changes the client id, the secret and/or the administrator flag of the
    /// account with the id.
    fn update_by_id(&mut self, id: i32, user: UpdateUserRequest) -> (r: Result<User, UserError>)
        requires
            old(self).inv(),
        ensures
            final(self).inv(),
            forall|h: Seq<char>, s: Seq<char>|
                #[trigger] final(self).verdict(h, s) == old(self).verdict(h, s),
            forall|h: Seq<char>, s: Seq<char>|
                #[trigger] final(self).hashes(h, s) == old(self).hashes(h, s),
            final(self).url_table() == old(self).url_table(),
            r is Err ==> final(self).accounts() == old(self).accounts(),
            user.client_id matches Some(c) && client_id_error(c@.len()) is Some ==> r
                == Err::<User, UserError>(client_id_error(user.client_id->0@.len())->0),
            !(user.client_id matches Some(c) && client_id_error(c@.len()) is Some)
                && (user.client_secret matches Some(s) && client_secret_error(s@.len()) is Some)
                ==> r == Err::<User, UserError>(
                client_secret_error(user.client_secret->0@.len())->0,
            ),
            r matches Err(UserError::HashError(_)) ==> user.client_secret is Some,
            !(user.client_id matches Some(c) && client_id_error(c@.len()) is Some) && !(
            user.client_secret matches Some(s) && client_secret_error(s@.len()) is Some) && !(r matches Err(
                UserError::HashError(_),
            )) ==> match account_with_id(old(self).accounts(), id) {
                None => r == Err::<User, UserError>(UserError::NotFound),
                Some(a) => if client_id_taken(old(self).accounts(), id, opt_view(user.client_id)) {
                    r == Err::<User, UserError>(UserError::ClientIdAlreadyExists)
                } else {
                    r matches Ok(u) && exists|h: Seq<char>|
                        (user.client_secret is None ==> h == a.hash) && (user.client_secret is Some
                            ==> old(self).hashes(h, user.client_secret->0@)) && #[trigger] account_replaced(
                            old(self).accounts(),
                            final(self).accounts(),
                            a,
                            amended(a, opt_view(user.client_id), h, user.is_admin),
                        ) && u@ == public_view(amended(a, opt_view(user.client_id), h, user.is_admin))
                },
            },
    ;

    /// Gives the acting account a new secret; nothing else changes.
    fn update_self_client_secret(&mut self, user: User, client_secret: String) -> (r: Result<
        User,
        UserError,
    >)
        requires
            old(self).inv(),
        ensures
            final(self).inv(),
            forall|h: Seq<char>, s: Seq<char>|
                #[trigger] final(self).verdict(h, s) == old(self).verdict(h, s),
            forall|h: Seq<char>, s: Seq<char>|
                #[trigger] final(self).hashes(h, s) == old(self).hashes(h, s),
            final(self).url_table() == old(self).url_table(),
            r is Err ==> final(self).accounts() == old(self).accounts(),
            client_secret_error(client_secret@.len()) matches Some(e) ==> r == Err::<User, UserError>(e),
            client_secret_error(client_secret@.len()) is None && !(r matches Err(UserError::HashError(_)))
                ==> match account_with_id(old(self).accounts(), user.id) {
                None => r == Err::<User, UserError>(UserError::Unknown),
                Some(a) => r matches Ok(u) && u@ == public_view(a) && exists|h: Seq<char>|
                    old(self).hashes(h, client_secret@) && #[trigger] account_replaced(
                        old(self).accounts(),
                        final(self).accounts(),
                        a,
                        amended(a, None, h, None),
                    ),
            },
    ;

    /// Removes the account with the id after removing every short URL it
    /// owns.
    fn delete_by_id(&mut self, id: i32) -> (r: Result<(), UserError>)
        requires
            old(self).inv(),
        ensures
            final(self).inv(),
            forall|h: Seq<char>, s: Seq<char>|
                #[trigger] final(self).verdict(h, s) == old(self).verdict(h, s),
            forall|h: Seq<char>, s: Seq<char>|
                #[trigger] final(self).hashes(h, s) == old(self).hashes(h, s),
            !(r matches Err(UserError::UrlDeletionError(_))),
            final(self).url_table() == not_owned_by(old(self).url_table(), id),
            match account_with_id(
                old(self).accounts(),
                id,
            ) {
                None => r == Err::<(), UserError>(UserError::NotFound) && final(self).accounts()
                    == old(self).accounts(),
                Some(a) => r is Ok && account_removed(old(self).accounts(), final(self).accounts(), a),
            },
            r is Ok ==> owned_by(final(self).url_table(), id).len() == 0 && account_with_id(
                final(self).accounts(),
                id,
            ) is None,
    ;
}

/// In well-formed accounts an id and a client id each pick out at most one
/// account.
pub proof fn lemma_accounts_unique(t: Seq<AccountView>)
    requires
        accounts_ok(t),
    ensures
        forall|i: int, j: int|
            0 <= i < t.len() && 0 <= j < t.len() && #[trigger] t[i].id == #[trigger] t[j].id ==> i
                == j,
{
    assert forall|i: int, j: int|
        0 <= i < t.len() && 0 <= j < t.len() && #[trigger] t[i].id == #[trigger] t[j].id implies i
        == j by {
        if i < j {
            assert(t[i].id < t[j].id);
        } else if j < i {
            assert(t[j].id < t[i].id);
        }
    }
}

/// The account at position `i` is the one that its id and its client id pick
/// out.
pub proof fn lemma_account_at(t: Seq<AccountView>, i: int)
    requires
        accounts_ok(t),
        0 <= i < t.len(),
    ensures
        account_with_id(t, t[i].id) == Some(t[i]),
        account_with_client_id(t, t[i].client_id) == Some(t[i]),
{
    lemma_accounts_unique(t);
    assert(has_id(t, t[i].id));
    assert(has_client_id(t, t[i].client_id));
}

/// Taking an account out keeps the accounts well formed, and its id is then
/// gone.
pub proof fn lemma_account_remove(t: Seq<AccountView>, i: int)
    requires
        accounts_ok(t),
        0 <= i < t.len(),
    ensures
        accounts_ok(t.remove(i)),
        account_with_id(t.remove(i), t[i].id) is None,
{
    let s = t.remove(i);
    assert forall|a: int| 0 <= a < s.len() implies s[a] == (if a < i {
        t[a]
    } else {
        t[a + 1]
    }) by {}
    assert forall|a: int, b: int| 0 <= a < b < s.len() implies #[trigger] s[a].id < #[trigger] s[b].id by {
        let b0 = if b < i { b } else { b + 1 };
        let a0 = if a < i { a } else { a + 1 };
        assert(s[a] == t[a0] && s[b] == t[b0]);
    }
    assert forall|a: int, b: int|
        0 <= a < s.len() && 0 <= b < s.len() && a != b implies #[trigger] s[a].client_id
        != #[trigger] s[b].client_id by {
        let b0 = if b < i { b } else { b + 1 };
        let a0 = if a < i { a } else { a + 1 };
        assert(s[a] == t[a0] && s[b] == t[b0]);
    }
    lemma_accounts_unique(t);
    if has_id(s, t[i].id) {
        let a = choose|a: int| 0 <= a < s.len() && #[trigger] s[a].id == t[i].id;
        let a0 = if a < i { a } else { a + 1 };
        assert(s[a] == t[a0]);
    }
}

/// Removing an owner's records leaves none of theirs.
pub proof fn lemma_cascade_leaves_nothing(t: Seq<UrlView>, owner: i32)
    ensures
        owned_by(not_owned_by(t, owner), owner).len() == 0,
{
    let s = not_owned_by(t, owner);
    let o = owned_by(s, owner);
    broadcast use vstd::seq_lib::group_filter_ensures;

    if o.len() > 0 {
        assert(o[0].user_id == owner);
        s.lemma_filter_contains_rev(|r: UrlView| r.user_id == owner, o[0]);
        let m = choose|m: int| 0 <= m < s.len() && s[m] == o[0];
        assert(s[m].user_id != owner);
    }
}

/// The account service over accounts held in memory, cascading into a short
/// URL service and hashing with a password service.
pub struct DbUserService<U: UrlService, P: PasswordService> {
    users: Vec<StoredUser>,
    next_id: i32,
    url_service: U,
    password_service: P,
}

impl<U: UrlService, P: PasswordService> DbUserService<U, P> {
    /// A service with no accounts over the given URL and password services.
    pub fn new(url_service: U, password_service: P) -> (s: Self)
        requires
            table_ok(url_service.table()),
        ensures
            s.inv(),
            s.can_add(),
            s.accounts() == Seq::<AccountView>::empty(),
            s.url_table() == url_service.table(),
            forall|h: Seq<char>, t: Seq<char>|
                #[trigger] s.verdict(h, t) == password_service.verdict(h, t),
            forall|h: Seq<char>, t: Seq<char>|
                #[trigger] s.hashes(h, t) == password_service.hashes(h, t),
    {
        let s = DbUserService { users: Vec::new(), next_id: 1, url_service, password_service };
        assert(s.accounts() =~= Seq::<AccountView>::empty());
        s
    }

    /// The URL service that account removal cascades into.
    pub fn url_service(&self) -> (r: &U)
        requires
            self.inv(),
        ensures
            r.table() == self.url_table(),
            table_ok(r.table()),
    {
        &self.url_service
    }

    /// The URL service that account removal cascades into, to work on; the
    /// accounts stay as they are, and the service stays consistent as long as
    /// the URL table does.
    pub fn url_service_mut(&mut self) -> (r: &mut U)
        requires
            old(self).inv(),
        ensures
            r.table() == old(self).url_table(),
            table_ok(r.table()),
            final(self).url_table() == final(r).table(),
            final(self).accounts() == old(self).accounts(),
            forall|h: Seq<char>, s: Seq<char>|
                #[trigger] final(self).verdict(h, s) == old(self).verdict(h, s),
            forall|h: Seq<char>, s: Seq<char>|
                #[trigger] final(self).hashes(h, s) == old(self).hashes(h, s),
            table_ok(final(r).table()) ==> final(self).inv(),
    {
        &mut self.url_service
    }

    /// The position of the account with the id.
    fn position_of_id(&self, id: i32) -> (r: Option<usize>)
        ensures
            match r {
                Some(i) => i < self.accounts().len() && self.accounts()[i as int].id == id,
                None => !has_id(self.accounts(), id),
            },
    {
        let n = self.users.len();
        let mut i: usize = 0;
        while i < n
            invariant
                n == self.users@.len(),
                i <= n,
                forall|m: int| 0 <= m < i ==> #[trigger] self.accounts()[m].id != id,
            decreases n - i,
        {
            if self.users[i].id == id {
                return Some(i);
            }
            i = i + 1;
        }
        None
    }

    /// The position of the account with exactly this client id.
    fn position_of_client_id(&self, client_id: &String) -> (r: Option<usize>)
        ensures
            match r {
                Some(i) => i < self.accounts().len() && self.accounts()[i as int].client_id
                    == client_id@,
                None => !has_client_id(self.accounts(), client_id@),
            },
    {
        let n = self.users.len();
        let mut i: usize = 0;
        while i < n
            invariant
                n == self.users@.len(),
                i <= n,
                forall|m: int| 0 <= m < i ==> #[trigger] self.accounts()[m].client_id != client_id@,
            decreases n - i,
        {
            if self.users[i].client_id == *client_id {
                return Some(i);
            }
            i = i + 1;
        }
        None
    }

    /// Stores an account whose secret has already been hashed: the part of
    /// account creation that follows the hashing.
    pub fn create_with_hash(&mut self, client_id: String, hash: String, is_admin: Option<bool>) -> (r:
        Result<User, UserError>)
        requires
            old(self).inv(),
        ensures
            final(self).inv(),
            forall|h: Seq<char>, s: Seq<char>|
                #[trigger] final(self).verdict(h, s) == old(self).verdict(h, s),
            forall|h: Seq<char>, s: Seq<char>|
                #[trigger] final(self).hashes(h, s) == old(self).hashes(h, s),
            final(self).url_table() == old(self).url_table(),
            r is Err ==> final(self).accounts() == old(self).accounts(),
            match client_id_error(client_id@.len()) {
                Some(e) => r == Err::<User, UserError>(e),
                None => match account_with_client_id(old(self).accounts(), ascii_lower(client_id@)) {
                    Some(_) => r == Err::<User, UserError>(UserError::ClientIdAlreadyExists),
                    None => if old(self).can_add() {
                        r matches Ok(u) && u@ == (UserView {
                            id: u.id,
                            client_id: ascii_lower(client_id@),
                            is_admin: flag_or_false(is_admin),
                        }) && appended(old(self).accounts(), final(self).accounts(), u@)
                            && final(self).accounts().last().hash == hash@
                    } else {
                        r == Err::<User, UserError>(UserError::Unknown)
                    },
                },
            },
    {
        match validate_client_id(client_id.as_str()) {
            Err(e) => {
                return Err(e);
            },
            Ok(()) => {},
        }
        let normalized = to_lower(client_id.as_str());
        match self.position_of_client_id(&normalized) {
            Some(i) => {
                proof {
                    lemma_account_at(self.accounts(), i as int);
                }
                return Err(UserError::ClientIdAlreadyExists);
            },
            None => {},
        }
        if self.next_id == i32::MAX {
            return Err(UserError::Unknown);
        }
        let id = self.next_id;
        let flag = match is_admin {
            Some(b) => b,
            None => false,
        };
        let ghost t = self.accounts();
        let shown = User { id, client_id: normalized.clone(), is_admin: flag };
        self.users.push(StoredUser { id, client_id: normalized, hash, is_admin: flag });
        self.next_id = id + 1;
        proof {
            lemma_ascii_lower_idempotent(client_id@);
            let s = self.accounts();
            assert(s.drop_last() =~= t);
            assert(s =~= t.push(s.last()));
            assert forall|a: int, b: int|
                0 <= a < s.len() && 0 <= b < s.len() && a != b implies #[trigger] s[a].client_id
                != #[trigger] s[b].client_id by {
                if a < t.len() && b < t.len() {
                    assert(s[a] == t[a] && s[b] == t[b]);
                } else if a < t.len() {
                    assert(s[a] == t[a]);
                } else {
                    assert(s[b] == t[b]);
                }
            }
            assert forall|a: int, b: int| 0 <= a < b < s.len() implies #[trigger] s[a].id
                < #[trigger] s[b].id by {
                assert(s[a] == t[a]);
                if b < t.len() {
                    assert(s[b] == t[b]);
                }
            }
            assert forall|a: int| 0 <= a < s.len() implies account_ok(#[trigger] s[a]) by {
                if a < t.len() {
                    assert(s[a] == t[a]);
                }
            }
        }
        Ok(shown)
    }
}

impl<U: UrlService, P: PasswordService> DbUserService<U, P> {
    /// Changes an account with a secret that has already been hashed: the
    /// part of an account update that follows the hashing.
    pub fn update_with_hash(
        &mut self,
        id: i32,
        client_id: Option<String>,
        hash: Option<String>,
        is_admin: Option<bool>,
    ) -> (r: Result<User, UserError>)
        requires
            old(self).inv(),
        ensures
            final(self).inv(),
            forall|h: Seq<char>, s: Seq<char>|
                #[trigger] final(self).verdict(h, s) == old(self).verdict(h, s),
            forall|h: Seq<char>, s: Seq<char>|
                #[trigger] final(self).hashes(h, s) == old(self).hashes(h, s),
            final(self).url_table() == old(self).url_table(),
            r is Err ==> final(self).accounts() == old(self).accounts(),
            client_id matches Some(c) && client_id_error(c@.len()) is Some ==> r == Err::<
                User,
                UserError,
            >(client_id_error(client_id->0@.len())->0),
            !(client_id matches Some(c) && client_id_error(c@.len()) is Some) ==> match account_with_id(
                old(self).accounts(),
                id,
            ) {
                None => r == Err::<User, UserError>(UserError::NotFound),
                Some(a) => if client_id_taken(old(self).accounts(), id, opt_view(client_id)) {
                    r == Err::<User, UserError>(UserError::ClientIdAlreadyExists)
                } else {
                    r matches Ok(u) && account_replaced(
                        old(self).accounts(),
                        final(self).accounts(),
                        a,
                        amended(a, opt_view(client_id), hash_or(a, opt_view(hash)), is_admin),
                    ) && u@ == public_view(
                        amended(a, opt_view(client_id), hash_or(a, opt_view(hash)), is_admin),
                    )
                },
            },
    {
        if let Some(c) = &client_id {
            match validate_client_id(c.as_str()) {
                Err(e) => {
                    return Err(e);
                },
                Ok(()) => {},
            }
        }
        let i = match self.position_of_id(id) {
            None => {
                return Err(UserError::NotFound);
            },
            Some(i) => i,
        };
        let ghost t = self.accounts();
        proof {
            lemma_account_at(t, i as int);
            lemma_accounts_unique(t);
        }
        let new_client_id = match client_id {
            Some(c) => {
                let nc = to_lower(c.as_str());
                match self.position_of_client_id(&nc) {
                    Some(j) => {
                        proof {
                            lemma_account_at(t, j as int);
                        }
                        if self.users[j].id != id {
                            return Err(UserError::ClientIdAlreadyExists);
                        }
                    },
                    None => {},
                }
                proof {
                    lemma_ascii_lower_idempotent(c@);
                }
                nc
            },
            None => self.users[i].client_id.clone(),
        };
        let new_hash = match hash {
            Some(h) => h,
            None => self.users[i].hash.clone(),
        };
        let new_admin = match is_admin {
            Some(b) => b,
            None => self.users[i].is_admin,
        };
        let shown = User { id, client_id: new_client_id.clone(), is_admin: new_admin };
        self.users.set(i, StoredUser { id, client_id: new_client_id, hash: new_hash, is_admin: new_admin });
        proof {
            let b = amended(t[i as int], opt_view(client_id), hash_or(t[i as int], opt_view(hash)), is_admin);
            let s = self.accounts();
            assert(s =~= t.update(i as int, b));
            assert forall|x: int, y: int|
                0 <= x < s.len() && 0 <= y < s.len() && x != y implies #[trigger] s[x].client_id
                != #[trigger] s[y].client_id by {
                if x != i && y != i {
                    assert(s[x] == t[x] && s[y] == t[y]);
                } else if x == i {
                    assert(s[y] == t[y]);
                } else {
                    assert(s[x] == t[x]);
                }
            }
            assert forall|x: int, y: int| 0 <= x < y < s.len() implies #[trigger] s[x].id
                < #[trigger] s[y].id by {
                assert(t[x].id < t[y].id);
            }
            assert forall|x: int| 0 <= x < s.len() implies #[trigger] s[x].id < self.next_id by {
                assert(t[x].id < self.next_id);
            }
            assert forall|x: int| 0 <= x < s.len() implies account_ok(#[trigger] s[x]) by {
                if x != i {
                    assert(s[x] == t[x]);
                }
            }
            assert(account_replaced(t, s, t[i as int], b));
        }
        Ok(shown)
    }
}

impl<U: UrlService, P: PasswordService> UserService for DbUserService<U, P> {
    closed spec fn accounts(&self) -> Seq<AccountView> {
        self.users@.map_values(|u: StoredUser| u@)
    }

    closed spec fn url_table(&self) -> Seq<UrlView> {
        self.url_service.table()
    }

    closed spec fn verdict(&self, hash: Seq<char>, secret: Seq<char>) -> Option<bool> {
        self.password_service.verdict(hash, secret)
    }

    closed spec fn hashes(&self, hash: Seq<char>, secret: Seq<char>) -> bool {
        self.password_service.hashes(hash, secret)
    }

    proof fn lemma_inv(&self) {
    }

    closed spec fn inv(&self) -> bool {
        &&& accounts_ok(self.accounts())
        &&& 1 <= self.next_id
        &&& forall|i: int| 0 <= i < self.accounts().len() ==> #[trigger] self.accounts()[i].id < self.next_id
        &&& table_ok(self.url_service.table())
    }

    closed spec fn can_add(&self) -> bool {
        self.next_id < i32::MAX
    }

    fn create(&mut self, user: CreateUserRequest) -> (r: Result<User, UserError>) {
        match validate_client_id(user.client_id.as_str()) {
            Err(e) => {
                return Err(e);
            },
            Ok(()) => {},
        }
        match validate_client_secret(user.client_secret.as_str()) {
            Err(e) => {
                return Err(e);
            },
            Ok(()) => {},
        }
        let hash = match self.password_service.generate_hash(user.client_secret.as_str()) {
            Ok(h) => h,
            Err(e) => {
                return Err(e);
            },
        };
        self.create_with_hash(user.client_id, hash, user.is_admin)
    }

    fn get_all(&self) -> (r: Result<Vec<User>, UserError>) {
        let n = self.users.len();
        let mut out: Vec<User> = Vec::new();
        let mut i: usize = 0;
        while i < n
            invariant
                n == self.users@.len(),
                i <= n,
                user_views(out@) == public_views(self.accounts().subrange(0, i as int)),
            decreases n - i,
        {
            let ghost before = out@;
            let row = &self.users[i];
            out.push(User { id: row.id, client_id: row.client_id.clone(), is_admin: row.is_admin });
            proof {
                let t = self.accounts();
                assert(t[i as int] == self.users@[i as int]@);
                assert(user_views(out@) =~= user_views(before).push(public_view(t[i as int])));
                assert(t.subrange(0, i + 1) =~= t.subrange(0, i as int).push(t[i as int]));
                assert(public_views(t.subrange(0, i + 1)) =~= public_views(t.subrange(0, i as int)).push(public_view(t[i as int])));
            }
            i = i + 1;
        }
        assert(self.accounts().subrange(0, n as int) =~= self.accounts());
        Ok(out)
    }

    fn verify_and_get(&self, client_id: String, client_secret: String) -> (r: Result<User, UserError>) {
        let normalized = to_lower(client_id.as_str());
        match self.position_of_client_id(&normalized) {
            None => Err(UserError::NotFound),
            Some(i) => {
                proof {
                    lemma_account_at(self.accounts(), i as int);
                }
                let row = &self.users[i];
                match self.password_service.verify_client_secret(row.hash.as_str(), client_secret.as_str()) {
                    Ok(true) => Ok(User { id: row.id, client_id: row.client_id.clone(), is_admin: row.is_admin }),
                    Ok(false) => Err(UserError::Invalid),
                    Err(e) => Err(e),
                }
            },
        }
    }

    fn get_by_id(&self, id: i32) -> (r: Result<User, UserError>) {
        match self.position_of_id(id) {
            None => Err(UserError::NotFound),
            Some(i) => {
                proof {
                    lemma_account_at(self.accounts(), i as int);
                }
                let row = &self.users[i];
                Ok(User { id: row.id, client_id: row.client_id.clone(), is_admin: row.is_admin })
            },
        }
    }

    fn update_by_id(&mut self, id: i32, user: UpdateUserRequest) -> (r: Result<User, UserError>) {
        if let Some(c) = &user.client_id {
            match validate_client_id(c.as_str()) {
                Err(e) => {
                    return Err(e);
                },
                Ok(()) => {},
            }
        }
        if let Some(s) = &user.client_secret {
            match validate_client_secret(s.as_str()) {
                Err(e) => {
                    return Err(e);
                },
                Ok(()) => {},
            }
        }
        let hash = match &user.client_secret {
            Some(s) => match self.password_service.generate_hash(s.as_str()) {
                Ok(h) => Some(h),
                Err(e) => {
                    return Err(e);
                },
            },
            None => None,
        };
        self.update_with_hash(id, user.client_id, hash, user.is_admin)
    }

    fn update_self_client_secret(&mut self, user: User, client_secret: String) -> (r: Result<User, UserError>) {
        match validate_client_secret(client_secret.as_str()) {
            Err(e) => {
                return Err(e);
            },
            Ok(()) => {},
        }
        let hash = match self.password_service.generate_hash(client_secret.as_str()) {
            Ok(h) => h,
            Err(e) => {
                return Err(e);
            },
        };
        match self.update_with_hash(user.id, None, Some(hash), None) {
            Ok(u) => Ok(u),
            Err(_) => Err(UserError::Unknown),
        }
    }

    fn delete_by_id(&mut self, id: i32) -> (r: Result<(), UserError>) {
        match self.url_service.delete_by_user_id(id) {
            Err(e) => {
                return Err(UserError::UrlDeletionError(e));
            },
            Ok(()) => {},
        }
        proof {
            lemma_cascade_leaves_nothing(old(self).url_service.table(), id);
        }
        match self.position_of_id(id) {
            None => Err(UserError::NotFound),
            Some(i) => {
                let ghost t = self.accounts();
                proof {
                    lemma_account_at(t, i as int);
                    lemma_account_remove(t, i as int);
                }
                self.users.remove(i);
                assert(self.accounts() =~= t.remove(i as int));
                proof {
                    let s = self.accounts();
                    assert forall|a: int| 0 <= a < s.len() implies #[trigger] s[a].id < self.next_id by {
                        if a < i {
                            assert(s[a] == t[a]);
                        } else {
                            assert(s[a] == t[a + 1]);
                        }
                    }
                }
                Ok(())
            },
        }
    }
}

} // verus!
