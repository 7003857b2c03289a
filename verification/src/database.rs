//! The search/persistence abstraction over share and user records: create,
//! find-by-criterion, update and delete, each scoped so that at most one
//! row is affected, over an in-memory table that models the backing store.
use vstd::prelude::*;

use crate::common::push_char;
use crate::url_id::{spec_token_prefix, ShareView, UncommittedUrlID, UrlID, UrlIDError};
use crate::users::{NewUser, User, UserView};

verus! {

/// An enum representing the database error states.
#[derive(Debug, Clone, PartialEq, Eq)]
pub enum DatabaseError {
    UrlIDError(UrlIDError),
    DoesNotExist,
    UnableToContact,
    SqlError(String),
    InsertError(String),
}

impl DatabaseError {
    pub open spec fn spec_message(&self) -> Seq<char> {
        match self {
            DatabaseError::DoesNotExist => "not found in database"@,
            DatabaseError::UrlIDError(e) =>
                "a problem occurred with a share when interacting with the database: "@
                    + e.spec_message(),
            DatabaseError::UnableToContact => "failed to connect to the database"@,
            DatabaseError::SqlError(s) =>
                "an sql error occurred when interfacing with the database: "@ + s@,
            DatabaseError::InsertError(s) =>
                "an error occurred attempting to add a new share to the database: "@ + s@,
        }
    }

    /// A human-readable message for each error state.
    pub fn message(&self) -> (r: String)
        ensures
            r@ == self.spec_message(),
    {
        match self {
            DatabaseError::DoesNotExist => String::from_str("not found in database"),
            DatabaseError::UrlIDError(e) => {
                let mut m = String::from_str(
                    "a problem occurred with a share when interacting with the database: ",
                );
                let inner = e.message();
                m.append(inner.as_str());
                m
            },
            DatabaseError::UnableToContact => String::from_str(
                "failed to connect to the database",
            ),
            DatabaseError::SqlError(s) => {
                let mut m = String::from_str(
                    "an sql error occurred when interfacing with the database: ",
                );
                m.append(s.as_str());
                m
            },
            DatabaseError::InsertError(s) => {
                let mut m = String::from_str(
                    "an error occurred attempting to add a new share to the database: ",
                );
                m.append(s.as_str());
                m
            },
        }
    }

    /// The http status the error maps to at the request boundary: a store
    /// that cannot be reached or rejects a write is a server-side failure;
    /// a missing row is a plain not-found.
    pub fn status_code(&self) -> (r: u16)
        ensures
            r == self.spec_status_code(),
    {
        match self {
            DatabaseError::DoesNotExist => 404,
            DatabaseError::UrlIDError(_) => 500,
            DatabaseError::UnableToContact => 503,
            DatabaseError::SqlError(_) => 500,
            DatabaseError::InsertError(_) => 500,
        }
    }

    pub open spec fn spec_status_code(&self) -> u16 {
        match self {
            DatabaseError::DoesNotExist => 404u16,
            DatabaseError::UrlIDError(_) => 500u16,
            DatabaseError::UnableToContact => 503u16,
            DatabaseError::SqlError(_) => 500u16,
            DatabaseError::InsertError(_) => 500u16,
        }
    }

    /// Carry a database failure into the share error taxonomy.
    pub fn into_url_id_error(self) -> (r: UrlIDError)
        ensures
            r matches UrlIDError::DatabaseError(m) && m@ == self.spec_message(),
    {
        let m = self.message();
        UrlIDError::DatabaseError(m)
    }
}

/// The in-memory model of the backing store: the shares and users tables,
/// each with its auto-increment counter. Ids are assigned by the store,
/// grow monotonically and are never reused.
pub struct Database {
    pub shares: Vec<UrlID>,
    pub next_share_id: i64,
    pub users: Vec<User>,
    pub next_user_id: i32,
}

/// The search criterion of one share record: by id, by destination url,
/// or by token.
pub enum Search {
    Id(i64),
    Url(String),
    Token(String),
}

/// The mathematical content of a search criterion.
pub enum SearchView {
    Id(i64),
    Url(Seq<char>),
    Token(Seq<char>),
}

impl View for Search {
    type V = SearchView;

    open spec fn view(&self) -> SearchView {
        match self {
            Search::Id(i) => SearchView::Id(*i),
            Search::Url(u) => SearchView::Url(u@),
            Search::Token(t) => SearchView::Token(t@),
        }
    }
}

/// The decimal digit characters, in order.
pub open spec fn spec_digit_char(d: nat) -> char {
    if d == 0 {
        '0'
    } else if d == 1 {
        '1'
    } else if d == 2 {
        '2'
    } else if d == 3 {
        '3'
    } else if d == 4 {
        '4'
    } else if d == 5 {
        '5'
    } else if d == 6 {
        '6'
    } else if d == 7 {
        '7'
    } else if d == 8 {
        '8'
    } else {
        '9'
    }
}

/// The decimal digit string of a non-negative number, most significant
/// digit first.
pub open spec fn spec_decimal(n: nat) -> Seq<char>
    decreases n,
{
    if n < 10 {
        seq![spec_digit_char(n)]
    } else {
        spec_decimal(n / 10).push(spec_digit_char(n % 10))
    }
}

/// The decimal rendering of a signed number: a leading minus sign for a
/// negative one.
pub open spec fn spec_i64_decimal(i: int) -> Seq<char> {
    if i < 0 {
        seq!['-'] + spec_decimal((-i) as nat)
    } else {
        spec_decimal(i as nat)
    }
}

fn digit_char(d: u64) -> (c: char)
    requires
        d < 10,
    ensures
        c == spec_digit_char(d as nat),
{
    match d {
        0 => '0',
        1 => '1',
        2 => '2',
        3 => '3',
        4 => '4',
        5 => '5',
        6 => '6',
        7 => '7',
        8 => '8',
        _ => '9',
    }
}

fn u64_decimal(n: u64) -> (r: String)
    ensures
        r@ == spec_decimal(n as nat),
    decreases n,
{
    if n < 10 {
        let mut s = String::new();
        push_char(&mut s, digit_char(n));
        proof {
            assert(s@ =~= spec_decimal(n as nat));
        }
        s
    } else {
        let mut s = u64_decimal(n / 10);
        push_char(&mut s, digit_char(n % 10));
        proof {
            assert((n / 10) as nat == (n as nat) / 10);
            assert((n % 10) as nat == (n as nat) % 10);
        }
        s
    }
}

fn i64_decimal(i: i64) -> (r: String)
    ensures
        r@ == spec_i64_decimal(i as int),
{
    if i >= 0 {
        u64_decimal(i as u64)
    } else {
        let magnitude: u64 = ((-(i + 1)) as u64) + 1;
        proof {
            assert(magnitude as int == -(i as int));
        }
        let mut s = String::new();
        push_char(&mut s, '-');
        let digits = u64_decimal(magnitude);
        s.append(digits.as_str());
        proof {
            assert(s@ =~= seq!['-'] + spec_decimal(magnitude as nat));
        }
        s
    }
}

/// The predicate text a criterion stands for at an sql store.
pub open spec fn spec_search_term(s: SearchView) -> Seq<char> {
    match s {
        SearchView::Id(i) => "id = "@ + spec_i64_decimal(i as int),
        SearchView::Url(u) => "url = '"@ + u + "'"@,
        SearchView::Token(t) => "token = '"@ + t + "'"@,
    }
}

/// Whether a record satisfies a search criterion.
pub open spec fn spec_search_matches(s: SearchView, r: ShareView) -> bool {
    match s {
        SearchView::Id(i) => r.id == Some(i),
        SearchView::Url(u) => r.url == u,
        SearchView::Token(t) => r.token == Some(t),
    }
}

/// The index of the first record satisfying the criterion, or -1 when no
/// record does.
pub open spec fn spec_first_match_index(shares: Seq<ShareView>, s: SearchView) -> int
    decreases shares.len(),
{
    if shares.len() == 0 {
        -1
    } else if spec_search_matches(s, shares[0]) {
        0
    } else {
        let rest = spec_first_match_index(shares.drop_first(), s);
        if rest < 0 {
            -1
        } else {
            rest + 1
        }
    }
}

/// The first record satisfying the criterion, if any: the at-most-one
/// match that every search resolves to.
pub open spec fn spec_find_first(shares: Seq<ShareView>, s: SearchView) -> Option<ShareView> {
    let i = spec_first_match_index(shares, s);
    if i < 0 {
        None
    } else {
        Some(shares[i])
    }
}

pub proof fn lemma_first_match_index_props(shares: Seq<ShareView>, s: SearchView)
    ensures
        spec_first_match_index(shares, s) == -1 ==> forall|k: int|
            0 <= k < shares.len() ==> !spec_search_matches(s, #[trigger] shares[k]),
        spec_first_match_index(shares, s) >= 0 ==> {
            &&& spec_first_match_index(shares, s) < shares.len()
            &&& spec_search_matches(s, shares[spec_first_match_index(shares, s)])
            &&& forall|k: int|
                0 <= k < spec_first_match_index(shares, s)
                    ==> !spec_search_matches(s, #[trigger] shares[k])
        },
    decreases shares.len(),
{
    if shares.len() > 0 && !spec_search_matches(s, shares[0]) {
        lemma_first_match_index_props(shares.drop_first(), s);
        assert(forall|k: int|
            1 <= k < shares.len() ==> shares.drop_first()[k - 1] == #[trigger] shares[k]);
    }
}

/// A position that matches while everything before it does not is exactly
/// the first match.
pub proof fn lemma_first_match_index_is(shares: Seq<ShareView>, s: SearchView, c: int)
    requires
        0 <= c < shares.len(),
        spec_search_matches(s, shares[c]),
        forall|k: int| 0 <= k < c ==> !spec_search_matches(s, #[trigger] shares[k]),
    ensures
        spec_first_match_index(shares, s) == c,
{
    lemma_first_match_index_props(shares, s);
    let i = spec_first_match_index(shares, s);
    if 0 <= i < c {
        // the supposed first match would itself match earlier than c
        assert(!spec_search_matches(s, shares[i]));
    }
    if i > c {
        // everything before the first match misses, yet c matches
        assert(!spec_search_matches(s, shares[c]));
    }
}

impl Database {
    /// The shares table as a sequence of record views.
    pub open spec fn shares_view(self) -> Seq<ShareView> {
        self.shares.deep_view()
    }

    /// The users table as a sequence of user views.
    pub open spec fn users_view(self) -> Seq<UserView> {
        self.users.deep_view()
    }

    /// Well-formedness of the store: every share row carries an assigned
    /// id below the auto-increment counter, no two rows share an id, and
    /// the same holds of user rows.
    pub open spec fn wf(self) -> bool {
        &&& 1 <= self.next_share_id
        &&& forall|k: int|
            0 <= k < self.shares_view().len() ==> {
                &&& (#[trigger] self.shares_view()[k]).id is Some
                &&& 1 <= self.shares_view()[k].id.unwrap() < self.next_share_id
            }
        &&& forall|k1: int, k2: int|
            0 <= k1 < k2 < self.shares_view().len()
                ==> (#[trigger] self.shares_view()[k1]).id
                    != (#[trigger] self.shares_view()[k2]).id
        &&& 1 <= self.next_user_id
        &&& forall|k: int|
            0 <= k < self.users_view().len()
                ==> 1 <= (#[trigger] self.users_view()[k]).id < self.next_user_id
        &&& forall|k1: int, k2: int|
            0 <= k1 < k2 < self.users_view().len()
                ==> (#[trigger] self.users_view()[k1]).id
                    != (#[trigger] self.users_view()[k2]).id
    }

    /// A fresh, empty store: what setting up the backing tables yields.
    pub fn new() -> (r: Database)
        ensures
            r.wf(),
            r.shares_view() =~= Seq::<ShareView>::empty(),
            r.users_view() =~= Seq::<UserView>::empty(),
            r.next_share_id == 1,
            r.next_user_id == 1,
    {
        Database { shares: Vec::new(), next_share_id: 1, users: Vec::new(), next_user_id: 1 }
    }
}

impl Search {
    /// Based on which variant of the enum you are using, generates the
    /// search term required to interface with an sql store. String values
    /// are wrapped in single quotes.
    pub fn get_search_term(self) -> (r: String)
        ensures
            r@ == spec_search_term(self@),
    {
        match self {
            Search::Id(i) => {
                let mut term = String::from_str("id = ");
                let digits = i64_decimal(i);
                term.append(digits.as_str());
                term
            },
            Search::Url(u) => {
                let mut term = String::from_str("url = '");
                term.append(u.as_str());
                term.append("'");
                term
            },
            Search::Token(t) => {
                let mut term = String::from_str("token = '");
                term.append(t.as_str());
                term.append("'");
                term
            },
        }
    }

    /// Whether this criterion selects the given record.
    pub fn matches(&self, rec: &UrlID) -> (r: bool)
        ensures
            r == spec_search_matches(self@, rec@),
    {
        match self {
            Search::Id(i) => match &rec.id {
                Some(rid) => *rid == *i,
                None => false,
            },
            Search::Url(u) => rec.url == *u,
            Search::Token(t) => match &rec.token {
                Some(rt) => *rt == *t,
                None => false,
            },
        }
    }

    /// Run a search, returning the first matching share in the store, or
    /// None when nothing matches.
    pub fn find_share(self, conn: &Database) -> (r: Result<Option<UrlID>, DatabaseError>)
        ensures
            r is Ok,
            r matches Ok(opt) ==> {
                &&& opt is Some <==> spec_first_match_index(conn.shares_view(), self@) >= 0
                &&& opt matches Some(rec) ==> Some(rec@) == spec_find_first(
                    conn.shares_view(),
                    self@,
                )
            },
    {
        let n = conn.shares.len();
        let mut counter: usize = 0;
        while counter < n
            invariant
                n == conn.shares@.len(),
                counter <= n,
                forall|k: int|
                    0 <= k < counter
                        ==> !spec_search_matches(self@, #[trigger] conn.shares_view()[k]),
            decreases n - counter,
        {
            proof {
                assert(conn.shares_view()[counter as int] == conn.shares@[counter as int]@);
            }
            if self.matches(&conn.shares[counter]) {
                let rec = conn.shares[counter].clone();
                proof {
                    lemma_first_match_index_is(conn.shares_view(), self@, counter as int);
                }
                return Ok(Some(rec));
            }
            counter += 1;
        }
        proof {
            lemma_first_match_index_props(conn.shares_view(), self@);
        }
        Ok(None)
    }
}

/// All records matching the criterion, in store order.
pub fn search_share_database(conn: &Database, search: Search) -> (r: Result<
    Vec<UrlID>,
    DatabaseError,
>)
    ensures
        r is Ok,
        r matches Ok(v) ==> v.deep_view() == conn.shares_view().filter(
            search_keep(search@),
        ),
{
    let n = conn.shares.len();
    let mut out: Vec<UrlID> = Vec::new();
    let mut counter: usize = 0;
    while counter < n
        invariant
            n == conn.shares@.len(),
            counter <= n,
            out.deep_view() == conn.shares_view().take(counter as int).filter(
                search_keep(search@),
            ),
        decreases n - counter,
    {
        proof {
            reveal(Seq::filter);
            assert(conn.shares_view().take(counter as int + 1).drop_last() =~= conn
                .shares_view()
                .take(counter as int));
            assert(conn.shares_view().take(counter as int + 1).last()
                == conn.shares_view()[counter as int]);
            assert(conn.shares_view()[counter as int] == conn.shares@[counter as int]@);
        }
        if search.matches(&conn.shares[counter]) {
            let rec = conn.shares[counter].clone();
            out.push(rec);
            proof {
                assert(out.deep_view() =~= conn.shares_view().take(counter as int + 1).filter(
                    search_keep(search@),
                ));
            }
        } else {
            proof {
                assert(out.deep_view() =~= conn.shares_view().take(counter as int + 1).filter(
                    search_keep(search@),
                ));
            }
        }
        counter += 1;
    }
    proof {
        assert(conn.shares_view().take(n as int) =~= conn.shares_view());
    }
    Ok(out)
}

/// The predicate a criterion induces on record views.
pub open spec fn search_keep(s: SearchView) -> spec_fn(ShareView) -> bool {
    |r: ShareView| spec_search_matches(s, r)
}

/// Attempts to add a new share to the database. If successful, returns
/// the added share, importantly with an assigned id. Fails only when the
/// id space is exhausted.
pub fn add_share_to_database(conn: &mut Database, data: UncommittedUrlID) -> (r: Result<
    UrlID,
    DatabaseError,
>)
    requires
        old(conn).wf(),
        data.exp is Some,
        data.crt is Some,
    ensures
        final(conn).wf(),
        r is Ok <==> old(conn).next_share_id < i64::MAX,
        r matches Ok(rec) ==> {
            &&& rec@ == (ShareView {
                id: Some(old(conn).next_share_id),
                exp: data.exp.unwrap(),
                crt: data.crt.unwrap(),
                url: data.url@,
                expired: false,
                token: None,
            })
            &&& final(conn).shares_view() == old(conn).shares_view().push(rec@)
            &&& final(conn).next_share_id == old(conn).next_share_id + 1
            &&& final(conn).users == old(conn).users
            &&& final(conn).next_user_id == old(conn).next_user_id
        },
        r matches Err(e) ==> e is InsertError && *final(conn) == *old(conn),
{
    if conn.next_share_id == i64::MAX {
        return Err(
            DatabaseError::InsertError(String::from_str("share id space is exhausted")),
        );
    }
    let id = conn.next_share_id;
    let exp = data.get_exp();
    let crt = data.get_crt();
    let record = UrlID { id: Some(id), exp, crt, url: data.url, expired: false, token: None };
    let returned = record.clone();
    conn.shares.push(record);
    conn.next_share_id = id + 1;
    proof {
        assert(conn.users_view() == old(conn).users_view());
        assert(conn.shares_view() =~= old(conn).shares_view().push(returned@));
        let new_view = conn.shares_view();
        let old_view = old(conn).shares_view();
        assert forall|k: int| 0 <= k < new_view.len() implies {
            &&& (#[trigger] new_view[k]).id is Some
            &&& 1 <= new_view[k].id.unwrap() < conn.next_share_id
        } by {
            if k < old_view.len() {
                assert(new_view[k] == old_view[k]);
            } else {
                assert(new_view[k] == returned@);
            }
        }
        assert forall|k1: int, k2: int| 0 <= k1 < k2 < new_view.len() implies (
        #[trigger] new_view[k1]).id != (#[trigger] new_view[k2]).id by {
            if k2 < old_view.len() {
                assert(new_view[k1] == old_view[k1]);
                assert(new_view[k2] == old_view[k2]);
            } else {
                assert(new_view[k1] == old_view[k1]);
                assert(new_view[k2] == returned@);
                assert(old_view[k1].id.unwrap() < old(conn).next_share_id);
            }
        }
    }
    Ok(returned)
}

/// The record an update writes: every mutable field from the new record,
/// the id of the row it lands on.
pub open spec fn spec_updated_record(target: ShareView, new_rec: ShareView) -> ShareView {
    ShareView { id: target.id, ..new_rec }
}

/// Update an element in the database, replacing it with a new element.
///
/// The criterion is first resolved to a single existing record; exactly
/// that one row is overwritten (its id is kept), and `DoesNotExist` is
/// returned when nothing matches.
pub fn update_share_database(conn: &mut Database, search: Search, new_share: UrlID) -> (r: Result<
    (),
    DatabaseError,
>)
    requires
        old(conn).wf(),
    ensures
        final(conn).wf(),
        r is Ok <==> spec_first_match_index(old(conn).shares_view(), search@) >= 0,
        r matches Err(e) ==> e is DoesNotExist && *final(conn) == *old(conn),
        r is Ok ==> {
            let i = spec_first_match_index(old(conn).shares_view(), search@);
            &&& final(conn).shares_view() == old(conn).shares_view().update(
                i,
                spec_updated_record(old(conn).shares_view()[i], new_share@),
            )
            &&& final(conn).next_share_id == old(conn).next_share_id
            &&& final(conn).users == old(conn).users
            &&& final(conn).next_user_id == old(conn).next_user_id
        },
{
    let n = conn.shares.len();
    let mut counter: usize = 0;
    while counter < n
        invariant
            n == conn.shares@.len(),
            counter <= n,
            conn == old(conn),
            old(conn).wf(),
            forall|k: int|
                0 <= k < counter
                    ==> !spec_search_matches(search@, #[trigger] conn.shares_view()[k]),
        decreases n - counter,
    {
        proof {
            assert(conn.shares_view()[counter as int] == conn.shares@[counter as int]@);
        }
        if search.matches(&conn.shares[counter]) {
            proof {
                lemma_first_match_index_is(conn.shares_view(), search@, counter as int);
            }
            let target_id = conn.shares[counter].id;
            let mut replacement = new_share;
            replacement.id = target_id;
            conn.shares[counter] = replacement;
            proof {
                let i = counter as int;
                assert(conn.users_view() == old(conn).users_view());
                assert(conn.shares_view() =~= old(conn).shares_view().update(
                    i,
                    spec_updated_record(old(conn).shares_view()[i], new_share@),
                ));
                assert(forall|k: int|
                    0 <= k < conn.shares_view().len()
                        ==> (#[trigger] conn.shares_view()[k]).id
                            == old(conn).shares_view()[k].id);
            }
            return Ok(());
        }
        counter += 1;
    }
    proof {
        lemma_first_match_index_props(conn.shares_view(), search@);
    }
    Err(DatabaseError::DoesNotExist)
}

/// Attempts to remove a share from the database, based on the ID of the
/// share. Removing an id that is not present leaves the store unchanged.
pub fn delete_share_from_database(conn: &mut Database, id: i64) -> (r: Result<
    (),
    DatabaseError,
>)
    requires
        old(conn).wf(),
    ensures
        final(conn).wf(),
        r is Ok,
        final(conn).next_share_id == old(conn).next_share_id,
        final(conn).users == old(conn).users,
        final(conn).next_user_id == old(conn).next_user_id,
        ({
            let i = spec_first_match_index(old(conn).shares_view(), SearchView::Id(id));
            if i < 0 {
                final(conn).shares == old(conn).shares
            } else {
                final(conn).shares_view() == old(conn).shares_view().remove(i)
            }
        }),
        forall|k: int|
            0 <= k < final(conn).shares_view().len()
                ==> (#[trigger] final(conn).shares_view()[k]).id != Some(id),
{
    let n = conn.shares.len();
    let mut counter: usize = 0;
    while counter < n
        invariant
            n == conn.shares@.len(),
            counter <= n,
            conn == old(conn),
            old(conn).wf(),
            forall|k: int|
                0 <= k < counter
                    ==> !spec_search_matches(
                        SearchView::Id(id),
                        #[trigger] conn.shares_view()[k],
                    ),
        decreases n - counter,
    {
        proof {
            assert(conn.shares_view()[counter as int] == conn.shares@[counter as int]@);
        }
        let is_target = match &conn.shares[counter].id {
            Some(rid) => *rid == id,
            None => false,
        };
        if is_target {
            proof {
                lemma_first_match_index_is(
                    conn.shares_view(),
                    SearchView::Id(id),
                    counter as int,
                );
            }
            conn.shares.remove(counter);
            proof {
                let i = counter as int;
                assert(conn.users_view() == old(conn).users_view());
                assert(conn.shares_view() =~= old(conn).shares_view().remove(i));
                let new_view = conn.shares_view();
                let old_view = old(conn).shares_view();
                assert forall|k: int| 0 <= k < new_view.len() implies {
                    &&& (#[trigger] new_view[k]).id != Some(id)
                    &&& new_view[k].id is Some
                    &&& 1 <= new_view[k].id.unwrap() < conn.next_share_id
                } by {
                    if k < i {
                        assert(new_view[k] == old_view[k]);
                    } else {
                        assert(new_view[k] == old_view[k + 1]);
                        assert(old_view[i].id == Some(id));
                    }
                }
                assert forall|k1: int, k2: int| 0 <= k1 < k2 < new_view.len() implies (
                #[trigger] new_view[k1]).id != (#[trigger] new_view[k2]).id by {
                    let j1: int = if k1 < i { k1 } else { k1 + 1 };
                    let j2: int = if k2 < i { k2 } else { k2 + 1 };
                    assert(new_view[k1] == old_view[j1]);
                    assert(new_view[k2] == old_view[j2]);
                }
            }
            return Ok(());
        }
        counter += 1;
    }
    proof {
        lemma_first_match_index_props(conn.shares_view(), SearchView::Id(id));
    }
    Ok(())
}

/// In a well-formed store a search by id has at most one possible answer:
/// whichever row carries the id is the row the search resolves to, so
/// operations scoped through such a search touch exactly one row.
pub proof fn lemma_find_by_id_is_unique(db: Database, id: i64, k: int)
    requires
        db.wf(),
        0 <= k < db.shares_view().len(),
        db.shares_view()[k].id == Some(id),
    ensures
        spec_find_first(db.shares_view(), SearchView::Id(id)) == Some(db.shares_view()[k]),
{
    assert forall|j: int| 0 <= j < k implies !spec_search_matches(
        SearchView::Id(id),
        #[trigger] db.shares_view()[j],
    ) by {
        assert(db.shares_view()[j].id != db.shares_view()[k].id);
    }
    lemma_first_match_index_is(db.shares_view(), SearchView::Id(id), k);
}

/// Creating a record and immediately searching for its id finds exactly
/// that record: inserting appends a row whose fresh id no earlier row can
/// carry, so the search resolves to it.
pub proof fn lemma_create_then_find(pre: Database, post: Database, rec: ShareView)
    requires
        pre.wf(),
        rec.id == Some(pre.next_share_id),
        post.shares_view() == pre.shares_view().push(rec),
    ensures
        spec_find_first(post.shares_view(), SearchView::Id(pre.next_share_id)) == Some(rec),
{
    let views = post.shares_view();
    let n = pre.shares_view().len() as int;
    assert(views[n] == rec);
    assert forall|k: int| 0 <= k < n implies !spec_search_matches(
        SearchView::Id(pre.next_share_id),
        #[trigger] views[k],
    ) by {
        assert(views[k] == pre.shares_view()[k]);
    }
    lemma_first_match_index_is(views, SearchView::Id(pre.next_share_id), n);
}

/// After a token is generated and persisted for a record, searching for
/// that record's id finds the tokenized record, and the token's
/// non-padding prefix decodes back to the id.
pub proof fn lemma_tokenized_then_find(pre: Database, post: Database, u: ShareView)
    requires
        pre.wf(),
        u.id is Some,
        spec_first_match_index(pre.shares_view(), SearchView::Id(u.id.unwrap())) >= 0,
        post.shares_view() == pre.shares_view().update(
            spec_first_match_index(pre.shares_view(), SearchView::Id(u.id.unwrap())),
            u,
        ),
        u.token matches Some(t) && spec_token_prefix(t, crate::url_id::DELIM_CHAR)
            == crate::url_id::spec_encode(
            u.id.unwrap() as nat,
            crate::url_id::spec_alphabet(),
        ),
    ensures
        spec_find_first(post.shares_view(), SearchView::Id(u.id.unwrap())) == Some(u),
        u.token matches Some(t) && crate::url_id::spec_decode(
            spec_token_prefix(t, crate::url_id::DELIM_CHAR),
            crate::url_id::spec_alphabet(),
        ) == u.id.unwrap(),
{
    let id = u.id.unwrap();
    let views = post.shares_view();
    let i = spec_first_match_index(pre.shares_view(), SearchView::Id(id));
    lemma_first_match_index_props(pre.shares_view(), SearchView::Id(id));
    assert(views[i] == u);
    assert forall|k: int| 0 <= k < i implies !spec_search_matches(
        SearchView::Id(id),
        #[trigger] views[k],
    ) by {
        assert(views[k] == pre.shares_view()[k]);
    }
    lemma_first_match_index_is(views, SearchView::Id(id), i);
    assert(pre.shares_view()[i].id == Some(id));
    crate::url_id::lemma_generated_token_decodes(u.token.unwrap(), id as int);
}

/// Deleting an id and then searching for it finds nothing: once no row
/// carries the id, the search resolves to no record.
pub proof fn lemma_delete_then_find(post: Database, id: i64)
    requires
        forall|k: int|
            0 <= k < post.shares_view().len()
                ==> (#[trigger] post.shares_view()[k]).id != Some(id),
    ensures
        spec_find_first(post.shares_view(), SearchView::Id(id)) is None,
{
    lemma_first_match_index_props(post.shares_view(), SearchView::Id(id));
    let i = spec_first_match_index(post.shares_view(), SearchView::Id(id));
    if i >= 0 {
        assert(spec_search_matches(SearchView::Id(id), post.shares_view()[i]));
    }
}

/// The index of the first user with the given username, or -1 when there
/// is none.
pub open spec fn spec_first_user_index(users: Seq<UserView>, name: Seq<char>) -> int
    decreases users.len(),
{
    if users.len() == 0 {
        -1
    } else if users[0].username == name {
        0
    } else {
        let rest = spec_first_user_index(users.drop_first(), name);
        if rest < 0 {
            -1
        } else {
            rest + 1
        }
    }
}

pub proof fn lemma_first_user_index_props(users: Seq<UserView>, name: Seq<char>)
    ensures
        spec_first_user_index(users, name) == -1 ==> forall|k: int|
            0 <= k < users.len() ==> (#[trigger] users[k]).username != name,
        spec_first_user_index(users, name) >= 0 ==> {
            &&& spec_first_user_index(users, name) < users.len()
            &&& users[spec_first_user_index(users, name)].username == name
            &&& forall|k: int|
                0 <= k < spec_first_user_index(users, name)
                    ==> (#[trigger] users[k]).username != name
        },
    decreases users.len(),
{
    if users.len() > 0 && users[0].username != name {
        lemma_first_user_index_props(users.drop_first(), name);
        assert(forall|k: int|
            1 <= k < users.len() ==> users.drop_first()[k - 1] == #[trigger] users[k]);
    }
}

pub proof fn lemma_first_user_index_is(users: Seq<UserView>, name: Seq<char>, c: int)
    requires
        0 <= c < users.len(),
        users[c].username == name,
        forall|k: int| 0 <= k < c ==> (#[trigger] users[k]).username != name,
    ensures
        spec_first_user_index(users, name) == c,
{
    lemma_first_user_index_props(users, name);
}

/// Attempts to add a new user to the database. The form's password is
/// expected to be hashed already; the row is stored as handed in, with a
/// store-assigned id.
pub fn add_user_to_database(conn: &mut Database, data: NewUser, is_admin: bool) -> (r: Result<
    User,
    DatabaseError,
>)
    requires
        old(conn).wf(),
    ensures
        final(conn).wf(),
        r is Ok <==> old(conn).next_user_id < i32::MAX,
        r matches Ok(user) ==> {
            &&& user@ == (UserView {
                id: old(conn).next_user_id,
                username: data.username@,
                password: data.password@,
                is_admin,
            })
            &&& final(conn).users_view() == old(conn).users_view().push(user@)
            &&& final(conn).next_user_id == old(conn).next_user_id + 1
            &&& final(conn).shares == old(conn).shares
            &&& final(conn).next_share_id == old(conn).next_share_id
        },
        r matches Err(e) ==> e is InsertError && *final(conn) == *old(conn),
{
    if conn.next_user_id == i32::MAX {
        return Err(
            DatabaseError::InsertError(String::from_str("user id space is exhausted")),
        );
    }
    let id = conn.next_user_id;
    let row = User { id, username: data.username, password: data.password, is_admin };
    let returned = row.clone();
    conn.users.push(row);
    conn.next_user_id = id + 1;
    proof {
        assert(conn.shares_view() == old(conn).shares_view());
        assert(conn.users_view() =~= old(conn).users_view().push(returned@));
        let new_view = conn.users_view();
        let old_view = old(conn).users_view();
        assert forall|k: int| 0 <= k < new_view.len() implies 1 <= (
        #[trigger] new_view[k]).id < conn.next_user_id by {
            if k < old_view.len() {
                assert(new_view[k] == old_view[k]);
            } else {
                assert(new_view[k] == returned@);
            }
        }
        assert forall|k1: int, k2: int| 0 <= k1 < k2 < new_view.len() implies (
        #[trigger] new_view[k1]).id != (#[trigger] new_view[k2]).id by {
            assert(new_view[k1] == old_view[k1]);
            if k2 < old_view.len() {
                assert(new_view[k2] == old_view[k2]);
            } else {
                assert(new_view[k2] == returned@);
            }
        }
    }
    Ok(returned)
}

/// Attempts to remove a user from the database, based on the ID of the
/// user. Removing an id that is not present leaves the store unchanged.
pub fn delete_user_from_database(conn: &mut Database, id: i32) -> (r: Result<
    (),
    DatabaseError,
>)
    requires
        old(conn).wf(),
    ensures
        final(conn).wf(),
        r is Ok,
        final(conn).next_user_id == old(conn).next_user_id,
        final(conn).shares == old(conn).shares,
        final(conn).next_share_id == old(conn).next_share_id,
        forall|k: int|
            0 <= k < final(conn).users_view().len()
                ==> (#[trigger] final(conn).users_view()[k]).id != id,
{
    let n = conn.users.len();
    let mut counter: usize = 0;
    while counter < n
        invariant
            n == conn.users@.len(),
            counter <= n,
            conn == old(conn),
            old(conn).wf(),
            forall|k: int| 0 <= k < counter ==> (#[trigger] conn.users_view()[k]).id != id,
        decreases n - counter,
    {
        proof {
            assert(conn.users_view()[counter as int] == conn.users@[counter as int]@);
        }
        if conn.users[counter].id == id {
            conn.users.remove(counter);
            proof {
                let i = counter as int;
                assert(conn.shares_view() == old(conn).shares_view());
                assert(conn.users_view() =~= old(conn).users_view().remove(i));
                let new_view = conn.users_view();
                let old_view = old(conn).users_view();
                assert forall|k: int| 0 <= k < new_view.len() implies {
                    &&& (#[trigger] new_view[k]).id != id
                    &&& 1 <= new_view[k].id < conn.next_user_id
                } by {
                    if k < i {
                        assert(new_view[k] == old_view[k]);
                    } else {
                        assert(new_view[k] == old_view[k + 1]);
                        assert(old_view[i].id == id);
                    }
                }
                assert forall|k1: int, k2: int| 0 <= k1 < k2 < new_view.len() implies (
                #[trigger] new_view[k1]).id != (#[trigger] new_view[k2]).id by {
                    let j1: int = if k1 < i { k1 } else { k1 + 1 };
                    let j2: int = if k2 < i { k2 } else { k2 + 1 };
                    assert(new_view[k1] == old_view[j1]);
                    assert(new_view[k2] == old_view[j2]);
                }
            }
            return Ok(());
        }
        counter += 1;
    }
    Ok(())
}

/// Look a user up by username, returning the first row with that name.
pub fn get_user_by_username(conn: &Database, username: &str) -> (r: Result<
    Option<User>,
    DatabaseError,
>)
    ensures
        r is Ok,
        r matches Ok(opt) ==> {
            &&& opt is Some <==> spec_first_user_index(conn.users_view(), username@) >= 0
            &&& opt matches Some(user) ==> user@ == conn.users_view()[spec_first_user_index(
                conn.users_view(),
                username@,
            )]
        },
{
    let n = conn.users.len();
    let mut counter: usize = 0;
    while counter < n
        invariant
            n == conn.users@.len(),
            counter <= n,
            forall|k: int|
                0 <= k < counter ==> (#[trigger] conn.users_view()[k]).username != username@,
        decreases n - counter,
    {
        proof {
            assert(conn.users_view()[counter as int] == conn.users@[counter as int]@);
        }
        if crate::common::str_eq(conn.users[counter].get_username(), username) {
            let user = conn.users[counter].clone();
            proof {
                lemma_first_user_index_is(conn.users_view(), username@, counter as int);
            }
            return Ok(Some(user));
        }
        counter += 1;
    }
    proof {
        lemma_first_user_index_props(conn.users_view(), username@);
    }
    Ok(None)
}

} // verus!
