//! The request pipeline around the store: what each route decides once
//! its inputs are plain values — resolving a redirect token, creating a
//! share with its token, deleting behind the admin capability, and the
//! dashboard listing.
use vstd::prelude::*;

use crate::auth::Principal;
use crate::common::push_char;
use crate::database::{
    add_share_to_database, delete_share_from_database, lemma_first_match_index_is,
    lemma_first_match_index_props, spec_find_first, spec_first_match_index, Database,
    DatabaseError, Search, SearchView,
};
use crate::url_id::{
    alphabet, base_61_to_10, lemma_alphabet_len, lemma_decode_nonneg, spec_alphabet,
    spec_decode, spec_encode, spec_shortened_link, spec_token_prefix, spec_token_valid,
    ShareView, UncommittedUrlID, UrlID, DELIM_CHAR, TOKEN_MIN_LENGTH_CHARS,
};

verus! {

/// Failures surfaced at the request boundary.
#[derive(Debug, Clone, PartialEq, Eq)]
pub enum PageError {
    /// The request lacks the capability the operation asks for.
    Unauthorized,
    /// The token or id resolves to no living record; redirects report
    /// this generically, never an internal detail.
    NotFound,
    /// The backing store rejected the operation.
    Database(DatabaseError),
}

impl PageError {
    /// The http status the error maps to at the request boundary.
    pub fn status_code(&self) -> (r: u16)
        ensures
            r == self.spec_status_code(),
    {
        match self {
            PageError::Unauthorized => 401,
            PageError::NotFound => 404,
            PageError::Database(e) => e.status_code(),
        }
    }

    pub open spec fn spec_status_code(&self) -> u16 {
        match self {
            PageError::Unauthorized => 401u16,
            PageError::NotFound => 404u16,
            PageError::Database(e) => e.spec_status_code(),
        }
    }
}

/// The characters of a token left of the first delimiter.
fn token_prefix_string(token: &str) -> (r: String)
    ensures
        r@ == spec_token_prefix(token@, DELIM_CHAR),
{
    let n = token.unicode_len();
    let mut prefix = String::new();
    let mut i: usize = 0;
    while i < n
        invariant
            n == token@.len(),
            i <= n,
            prefix@ == token@.take(i as int),
            forall|k: int| 0 <= k < i ==> token@[k] != DELIM_CHAR,
        decreases n - i,
    {
        let c = token.get_char(i);
        if c == DELIM_CHAR {
            proof {
                token@.index_of_first_ensures(DELIM_CHAR);
                assert(token@.contains(DELIM_CHAR));
                let idx = token@.index_of_first(DELIM_CHAR).unwrap();
                if idx < i {
                    // contradicts the loop's knowledge of the scanned part
                    assert(token@[idx] != DELIM_CHAR);
                }
                if idx > i {
                    // contradicts that idx is the first occurrence
                    assert(token@[i as int] == DELIM_CHAR);
                }
                assert(idx == i);
            }
            return prefix;
        }
        proof {
            assert(token@.take(i as int + 1) =~= token@.take(i as int).push(token@[i as int]));
        }
        push_char(&mut prefix, c);
        i += 1;
    }
    proof {
        token@.index_of_first_ensures(DELIM_CHAR);
        if token@.contains(DELIM_CHAR) {
            let idx = token@.index_of_first(DELIM_CHAR).unwrap();
            assert(token@[idx] == DELIM_CHAR);
        }
        assert(token@.take(n as int) =~= token@);
    }
    prefix
}

/// The id a token stands for: the decode of its non-padding prefix, when
/// every prefix character is an alphabet digit and the value fits the id
/// width.
pub open spec fn spec_token_id(token: Seq<char>) -> Option<i64> {
    let prefix = spec_token_prefix(token, DELIM_CHAR);
    if spec_token_valid(prefix, spec_alphabet()) && spec_decode(prefix, spec_alphabet())
        <= i64::MAX {
        Some(spec_decode(prefix, spec_alphabet()) as i64)
    } else {
        None
    }
}

/// Whether a record may still be served: not explicitly deactivated, and
/// its expiry time has not passed.
pub open spec fn spec_serveable(rec: ShareView, now: i64) -> bool {
    &&& !rec.expired
    &&& now < rec.exp
}

/// What a redirect request resolves to: the destination url of the first
/// record whose id the token decodes to, provided that record is still
/// serveable; otherwise nothing, whatever the reason.
pub open spec fn spec_redirect(shares: Seq<ShareView>, token: Seq<char>, now: i64) -> Option<
    Seq<char>,
> {
    match spec_token_id(token) {
        Some(id) => match spec_find_first(shares, SearchView::Id(id)) {
            Some(rec) => if spec_serveable(rec, now) {
                Some(rec.url)
            } else {
                None
            },
            None => None,
        },
        None => None,
    }
}

/// Resolve a redirect token to its destination url. An unknown,
/// malformed, deactivated or expired token yields None — a generic "not
/// found", never an error detail.
pub fn resolve_redirect(conn: &Database, token: &str, now: i64) -> (r: Option<String>)
    ensures
        r is Some <==> spec_redirect(conn.shares_view(), token@, now) is Some,
        r matches Some(url) ==> Some(url@) == spec_redirect(conn.shares_view(), token@, now),
{
    let prefix = token_prefix_string(token);
    let ghost prefix_view = prefix@;
    let alpha = alphabet();
    proof {
        lemma_alphabet_len();
    }
    let id = match base_61_to_10(prefix, alpha.as_slice()) {
        Ok(id) => id,
        Err(_) => {
            return None;
        },
    };
    proof {
        lemma_decode_nonneg(prefix_view, spec_alphabet());
    }
    let found = match Search::Id(id).find_share(conn) {
        Ok(found) => found,
        Err(_) => None,
    };
    let rec = match found {
        Some(rec) => rec,
        None => {
            return None;
        },
    };
    if *rec.is_expired() || *rec.get_exp() <= now {
        return None;
    }
    Some(rec.url)
}

/// Delete the share a token stands for. Only an admin capability reaches
/// the store: anyone else gets `Unauthorized` and the store is untouched.
/// A token that resolves to no record yields `NotFound`.
pub fn delete_page(conn: &mut Database, auth: &Principal, token: &str) -> (r: Result<
    (),
    PageError,
>)
    requires
        old(conn).wf(),
    ensures
        final(conn).wf(),
        !(auth is Admin) ==> (r matches Err(e) && e is Unauthorized && *final(conn)
            == *old(conn)),
        auth is Admin ==> match spec_token_id(token@) {
            None => (r matches Err(e) && e is NotFound && *final(conn) == *old(conn)),
            Some(id) => {
                let i = spec_first_match_index(old(conn).shares_view(), SearchView::Id(id));
                &&& i < 0 ==> (r matches Err(e) && e is NotFound && *final(conn) == *old(
                    conn,
                ))
                &&& i >= 0 ==> {
                    &&& r is Ok
                    &&& final(conn).shares_view() == old(conn).shares_view().remove(i)
                    &&& forall|k: int|
                        0 <= k < final(conn).shares_view().len()
                            ==> (#[trigger] final(conn).shares_view()[k]).id != Some(id)
                    &&& final(conn).next_share_id == old(conn).next_share_id
                    &&& final(conn).users == old(conn).users
                    &&& final(conn).next_user_id == old(conn).next_user_id
                }
            },
        },
{
    match auth {
        Principal::Admin(_) => (),
        _ => {
            return Err(PageError::Unauthorized);
        },
    }
    let prefix = token_prefix_string(token);
    let ghost prefix_view = prefix@;
    let alpha = alphabet();
    proof {
        lemma_alphabet_len();
    }
    let id = match base_61_to_10(prefix, alpha.as_slice()) {
        Ok(id) => id,
        Err(_) => {
            return Err(PageError::NotFound);
        },
    };
    proof {
        lemma_decode_nonneg(prefix_view, spec_alphabet());
    }
    let found = match Search::Id(id).find_share(conn) {
        Ok(found) => found,
        Err(_) => None,
    };
    if found.is_none() {
        return Err(PageError::NotFound);
    }
    match delete_share_from_database(conn, id) {
        Ok(()) => Ok(()),
        Err(e) => Err(PageError::Database(e)),
    }
}

/// Create a new shortened url: insert the payload, generate and persist
/// its token, and hand back the full short link. Requests without any
/// principal are rejected before the store is touched.
pub fn create_shortened_url(conn: &mut Database, auth: &Principal, data: UncommittedUrlID)
    -> (r: Result<String, PageError>)
    requires
        old(conn).wf(),
        data.exp is Some,
        data.crt is Some,
    ensures
        final(conn).wf(),
        auth is Anonymous ==> (r matches Err(e) && e is Unauthorized && *final(conn)
            == *old(conn)),
        !(auth is Anonymous) ==> {
            &&& (r is Ok <==> old(conn).next_share_id < i64::MAX)
            &&& r matches Err(e) ==> (e is Database && *final(conn) == *old(conn))
            &&& r matches Ok(link) ==> exists|t: Seq<char>|
                {
                    &&& final(conn).shares_view() == old(conn).shares_view().push(
                        ShareView {
                            id: Some(old(conn).next_share_id),
                            exp: data.exp.unwrap(),
                            crt: data.crt.unwrap(),
                            url: data.url@,
                            expired: false,
                            token: Some(t),
                        },
                    )
                    &&& #[trigger] spec_token_prefix(t, DELIM_CHAR) == spec_encode(
                        old(conn).next_share_id as nat,
                        spec_alphabet(),
                    )
                    &&& t.len() >= TOKEN_MIN_LENGTH_CHARS
                    &&& link@ == spec_shortened_link(t)
                    &&& final(conn).next_share_id == old(conn).next_share_id + 1
                    &&& final(conn).users == old(conn).users
                    &&& final(conn).next_user_id == old(conn).next_user_id
                }
        },
{
    match auth {
        Principal::Anonymous => {
            return Err(PageError::Unauthorized);
        },
        _ => (),
    }
    let ghost pre = *conn;
    let inserted = match add_share_to_database(conn, data) {
        Ok(rec) => rec,
        Err(e) => {
            return Err(PageError::Database(e));
        },
    };
    let ghost mid = *conn;
    let ghost new_id = pre.next_share_id;
    proof {
        assert(mid.shares_view()[pre.shares_view().len() as int] == inserted@);
        assert(forall|k: int|
            0 <= k < pre.shares_view().len()
                ==> mid.shares_view()[k] == #[trigger] pre.shares_view()[k]);
        lemma_first_match_index_is(
            mid.shares_view(),
            SearchView::Id(new_id),
            pre.shares_view().len() as int,
        );
    }
    let tokenized = match inserted.generate_token(conn) {
        Ok(u) => u,
        Err(_) => {
            // provably unreachable: the row was just inserted, so the
            // token's write-back must find it
            proof {
                assert(false);
            }
            return Err(PageError::NotFound);
        },
    };
    let link = match tokenized.get_shortened_link() {
        Ok(link) => link,
        Err(_) => {
            // provably unreachable: the record now carries a token
            proof {
                assert(false);
            }
            return Err(PageError::NotFound);
        },
    };
    proof {
        let t = tokenized@.token.unwrap();
        assert(conn.shares_view() =~= pre.shares_view().push(tokenized@));
        assert(tokenized@ == (ShareView {
            id: Some(new_id),
            exp: data.exp.unwrap(),
            crt: data.crt.unwrap(),
            url: data.url@,
            expired: false,
            token: Some(t),
        }));
    }
    Ok(link)
}

/// The slice of the share listing shown on one dashboard page, available
/// only behind the admin capability.
pub fn dashboard_shares(conn: &Database, auth: &Principal, page: usize, per_page: usize)
    -> (r: Result<Vec<UrlID>, PageError>)
    ensures
        !(auth is Admin) ==> (r matches Err(e) && e is Unauthorized),
        auth is Admin ==> (r matches Ok(v) && {
            let total = conn.shares_view().len() as int;
            let start = if page * per_page > total {
                total
            } else {
                page * per_page
            };
            let end = if start + per_page > total {
                total
            } else {
                start + per_page
            };
            v.deep_view() == conn.shares_view().subrange(start, end)
        }),
{
    match auth {
        Principal::Admin(_) => (),
        _ => {
            return Err(PageError::Unauthorized);
        },
    }
    let total = conn.shares.len();
    let start = match page.checked_mul(per_page) {
        Some(p) => if p > total {
            total
        } else {
            p
        },
        None => total,
    };
    let end = match start.checked_add(per_page) {
        Some(e) => if e > total {
            total
        } else {
            e
        },
        None => total,
    };
    let mut out: Vec<UrlID> = Vec::new();
    let mut i: usize = start;
    while i < end
        invariant
            start <= i <= end,
            end <= conn.shares@.len(),
            out.deep_view() == conn.shares_view().subrange(start as int, i as int),
        decreases end - i,
    {
        let rec = conn.shares[i].clone();
        let ghost rec_view = rec@;
        let ghost prev_vec = out@;
        let ghost prev_deep = out.deep_view();
        out.push(rec);
        proof {
            assert(rec_view == conn.shares_view()[i as int]);
            let new_deep = out.deep_view();
            let target = conn.shares_view().subrange(start as int, i as int + 1);
            assert(prev_deep.len() == i - start);
            assert(out@.len() == prev_vec.len() + 1);
            assert(new_deep.len() == target.len());
            assert forall|k: int| 0 <= k < new_deep.len() implies new_deep[k] == target[k] by {
                if k < prev_deep.len() {
                    assert(out@[k] == prev_vec[k]);
                    assert(prev_deep[k] == prev_vec[k]@);
                    assert(prev_deep[k] == conn.shares_view().subrange(
                        start as int,
                        i as int,
                    )[k]);
                } else {
                    assert(new_deep[k] == out@[k]@);
                    assert(out@[k]@ == rec_view);
                }
            }
            assert(new_deep =~= target);
        }
        i += 1;
    }
    Ok(out)
}

/// The body served for a path that matches no route.
pub fn not_found(path: &str) -> (r: String)
    ensures
        r@ == "Sorry, '"@ + path@ + "' is not a valid path."@,
{
    let mut body = String::from_str("Sorry, '");
    body.append(path);
    body.append("' is not a valid path.");
    body
}

} // verus!
