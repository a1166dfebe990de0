//! The session context, the query executor, and the batch aggregator that
//! drives a cursor across all of its pages.
use vstd::prelude::*;

use crate::aql::{body_text, AqlQuery, AqlQueryView};
use crate::cursor::{cursor_spec, decode_cursor, Cursor, CursorView, Decodable};
use crate::error::{ClientError, ErrorView};
use crate::transport::{Method, Transport};
use crate::wire::{resolve_url, url_joined};
use vstd::string::StringExecFns;

verus! {

/// The page a response body decodes to, where it decodes to one.
pub open spec fn page_of<T: Decodable>(s: Seq<char>) -> CursorView<T::V> {
    match cursor_spec::<T>(s) {
        Ok(c) => c,
        Err(_) => arbitrary(),
    }
}

/// The failure a response body decodes to, where it decodes to one.
pub open spec fn err_of<T: Decodable>(s: Seq<char>) -> ErrorView {
    match cursor_spec::<T>(s) {
        Ok(_) => arbitrary(),
        Err(e) => e,
    }
}

/// How `advance` surfaces a stale continuation id: a server failure with a
/// 404 status becomes `InvalidCursor`; everything else is kept.
pub open spec fn stale_mapped(v: ErrorView) -> ErrorView {
    match v {
        ErrorView::Server { status, error_num, message } => if status == 404 {
            ErrorView::InvalidCursor { error_num, message }
        } else {
            v
        },
        _ => v,
    }
}

/// A complete chain of pages for one query: every body decodes to a page,
/// every page but the last announces a successor, and the last one does not.
pub open spec fn is_page_chain<T: Decodable>(delta: Seq<Seq<char>>) -> bool {
    &&& delta.len() >= 1
    &&& forall|i: int| 0 <= i < delta.len() ==> (#[trigger] cursor_spec::<T>(delta[i])) is Ok
    &&& forall|i: int| 0 <= i < delta.len() - 1 ==> (#[trigger] page_of::<T>(delta[i])).more
    &&& !page_of::<T>(delta.last()).more
}

/// The items of a sequence of pages, in page order and within-page order.
pub open spec fn chain_items<T: Decodable>(delta: Seq<Seq<char>>) -> Seq<T::V>
    decreases delta.len(),
{
    if delta.len() == 0 {
        Seq::empty()
    } else {
        chain_items::<T>(delta.drop_last()) + page_of::<T>(delta.last()).items
    }
}

/// The continuation of a page whose `more` flag is `more0`: no page at all
/// when `more0` is false, else a non-empty run of pages of which exactly
/// the last announces no successor.
pub open spec fn continuation_ok<T: Decodable>(more0: bool, delta: Seq<Seq<char>>) -> bool {
    if more0 {
        is_page_chain::<T>(delta)
    } else {
        delta.len() == 0
    }
}

/// The continuation request that redeems the given id.
pub open spec fn put_request(cursor_url: Seq<char>, id: Option<Seq<char>>) -> (
    Method,
    Seq<char>,
    Seq<char>,
) {
    (Method::Put, cursor_url + "/"@ + id.unwrap(), Seq::<char>::empty())
}

/// What remains when a run fails: every reply delivered before the last
/// one was a page announcing a successor. The failing reply, if the
/// failure was not the transport's, is the last.
pub open spec fn failed_chain<T: Decodable>(delta: Seq<Seq<char>>) -> bool {
    forall|i: int|
        0 <= i < delta.len() - 1 ==> ((#[trigger] cursor_spec::<T>(delta[i])) is Ok
            && page_of::<T>(delta[i]).more)
}

/// What one more failing continuation call leaves behind: from the facts
/// the drain loop maintains, the delivered replies form a failed chain and
/// every issued request redeems its predecessor page's id.
proof fn lemma_failed_run<T: Decodable>(
    cursor_url: Seq<char>,
    fv_more: bool,
    fv_id: Option<Seq<char>>,
    delta_pre: Seq<Seq<char>>,
    rdelta_pre: Seq<(Method, Seq<char>, Seq<char>)>,
    delta: Seq<Seq<char>>,
    rdelta: Seq<(Method, Seq<char>, Seq<char>)>,
    req: (Method, Seq<char>, Seq<char>),
    prev_id: Option<Seq<char>>,
    transport_failed: bool,
)
    requires
        forall|i: int|
            0 <= i < delta_pre.len() ==> (#[trigger] cursor_spec::<T>(delta_pre[i])) is Ok,
        forall|i: int|
            0 <= i < delta_pre.len() - 1 ==> (#[trigger] page_of::<T>(delta_pre[i])).more,
        delta_pre.len() == 0 ==> fv_more,
        delta_pre.len() >= 1 ==> fv_more && page_of::<T>(delta_pre.last()).more,
        rdelta_pre.len() == delta_pre.len(),
        forall|i: int|
            0 <= i < rdelta_pre.len() ==> #[trigger] rdelta_pre[i] == put_request(
                cursor_url,
                if i == 0 {
                    fv_id
                } else {
                    page_of::<T>(delta_pre[i - 1]).id
                },
            ),
        prev_id == (if delta_pre.len() == 0 {
            fv_id
        } else {
            page_of::<T>(delta_pre.last()).id
        }),
        req == put_request(cursor_url, prev_id),
        rdelta == rdelta_pre.push(req),
        transport_failed ==> delta == delta_pre,
        !transport_failed ==> delta == delta_pre.push(delta.last()),
    ensures
        fv_more,
        failed_chain::<T>(delta),
        forall|i: int|
            0 <= i < rdelta.len() ==> #[trigger] rdelta[i] == put_request(
                cursor_url,
                if i == 0 {
                    fv_id
                } else {
                    page_of::<T>(delta[i - 1]).id
                },
            ),
        transport_failed ==> rdelta.len() == delta.len() + 1 && (forall|i: int|
            0 <= i < delta.len() ==> (#[trigger] cursor_spec::<T>(delta[i])) is Ok && page_of::<
                T,
            >(delta[i]).more),
        !transport_failed ==> rdelta.len() == delta.len() && delta.len() >= 1,
{
    assert forall|i: int| 0 <= i < delta.len() - 1 implies ((#[trigger] cursor_spec::<T>(
        delta[i],
    )) is Ok && page_of::<T>(delta[i]).more) by {
        assert(delta[i] == delta_pre[i]);
        if i == delta_pre.len() - 1 {
            assert(delta_pre[i] == delta_pre.last());
        }
    }
    assert forall|i: int| 0 <= i < rdelta.len() implies #[trigger] rdelta[i] == put_request(
        cursor_url,
        if i == 0 {
            fv_id
        } else {
            page_of::<T>(delta[i - 1]).id
        },
    ) by {
        if i < rdelta_pre.len() {
            assert(rdelta[i] == rdelta_pre[i]);
            if i > 0 {
                assert(delta[i - 1] == delta_pre[i - 1]);
            }
        } else {
            assert(rdelta[i] == req);
            if i > 0 {
                assert(delta[i - 1] == delta_pre[i - 1]);
                assert(delta_pre[i - 1] == delta_pre.last());
            }
        }
    }
    if transport_failed {
        assert forall|i: int| 0 <= i < delta.len() implies ((#[trigger] cursor_spec::<T>(
            delta[i],
        )) is Ok && page_of::<T>(delta[i]).more) by {
            assert(delta[i] == delta_pre[i]);
            if i == delta_pre.len() - 1 {
                assert(delta_pre[i] == delta_pre.last());
            }
        }
    }
}

/// A run of one single page holds exactly that page's items.
pub proof fn lemma_chain_items_singleton<T: Decodable>(b0: Seq<char>)
    ensures
        chain_items::<T>(seq![b0]) == page_of::<T>(b0).items,
{
    let d = seq![b0];
    let e = d.drop_last();
    assert(e =~= Seq::<Seq<char>>::empty());
    assert(chain_items::<T>(e) == Seq::<T::V>::empty());
    assert(d.last() == b0);
    assert(chain_items::<T>(d) == chain_items::<T>(e) + page_of::<T>(b0).items);
    assert(Seq::<T::V>::empty() + page_of::<T>(b0).items =~= page_of::<T>(b0).items);
}

/// Concatenating one page in front of a run of pages concatenates their
/// items.
pub proof fn lemma_chain_items_cons<T: Decodable>(b0: Seq<char>, d: Seq<Seq<char>>)
    ensures
        chain_items::<T>(seq![b0] + d) == page_of::<T>(b0).items + chain_items::<T>(d),
    decreases d.len(),
{
    if d.len() == 0 {
        assert(seq![b0] + d =~= seq![b0]);
        lemma_chain_items_singleton::<T>(b0);
        assert(chain_items::<T>(d) == Seq::<T::V>::empty());
        assert(page_of::<T>(b0).items + chain_items::<T>(d) =~= page_of::<T>(b0).items);
    } else {
        lemma_chain_items_cons::<T>(b0, d.drop_last());
        assert((seq![b0] + d).drop_last() =~= seq![b0] + d.drop_last());
        assert((seq![b0] + d).last() == d.last());
        assert(page_of::<T>(b0).items + (chain_items::<T>(d.drop_last()) + page_of::<T>(
            d.last(),
        ).items) =~= (page_of::<T>(b0).items + chain_items::<T>(d.drop_last())) + page_of::<T>(
            d.last(),
        ).items);
    }
}

/// If the first page of a chain already announces no successor, the chain
/// is that single page: exactly one network call happened.
pub proof fn lemma_single_page_chain<T: Decodable>(delta: Seq<Seq<char>>)
    requires
        is_page_chain::<T>(delta),
        !page_of::<T>(delta[0]).more,
    ensures
        delta.len() == 1,
{
    if delta.len() > 1 {
        assert(page_of::<T>(delta[0]).more);
        assert(false);
    }
}

proof fn lemma_prefix_trans<A>(a: Seq<A>, b: Seq<A>, c: Seq<A>)
    requires
        a.is_prefix_of(b),
        b.is_prefix_of(c),
    ensures
        a.is_prefix_of(c),
{
    assert(a =~= c.take(a.len() as int));
}

proof fn lemma_prefix_succ<A>(a: Seq<A>, b: Seq<A>)
    requires
        a.is_prefix_of(b),
        b.len() == a.len() + 1,
    ensures
        b == a.push(b.last()),
{
    assert(b =~= a.push(b.last()));
}

proof fn lemma_prefix_push<A>(a: Seq<A>, x: A)
    ensures
        a.is_prefix_of(a.push(x)),
{
    assert(a =~= a.push(x).take(a.len() as int));
}

/// The position of the first entry equal to `name`, if any: how a
/// collection is looked up among the names the server listed.
pub fn index_of_name(names: &Vec<String>, name: &String) -> (r: Option<usize>)
    ensures
        match r {
            Some(i) => i < names@.len() && names.deep_view()[i as int] == name@ && (forall|j: int|
                0 <= j < i ==> names.deep_view()[j] != name@),
            None => forall|j: int| 0 <= j < names@.len() ==> names.deep_view()[j] != name@,
        },
{
    let mut i: usize = 0;
    while i < names.len()
        invariant
            i <= names.len(),
            forall|j: int| 0 <= j < i ==> names.deep_view()[j] != name@,
        decreases names.len() - i,
    {
        let hit = names[i].eq(name);
        proof {
            assert(names.deep_view()[i as int] == names@[i as int]@);
        }
        if hit {
            return Some(i);
        }
        i = i + 1;
    }
    None
}

/// The path segment addressing a logical database.
pub open spec fn db_path(name: Seq<char>) -> Seq<char> {
    "/_db/"@ + name + "/"@
}

/// A session context: a logical database name bound to a base address, and
/// the derived cursor-creation address. The transport handle is lent to
/// each call rather than held.
#[derive(Debug, Clone)]
pub struct Database {
    pub name: String,
    pub base_url: String,
    pub cursor_url: String,
}

impl Database {
    /// Bind a database name to a server base address. Returns `None` when
    /// the address-joining collaborator cannot resolve the addresses.
    pub fn new(base: &str, name: &str) -> (r: Option<Database>)
        ensures
            match r {
                Some(db) => {
                    &&& db.name@ == name@
                    &&& url_joined(base@, db_path(name@)) == Some(db.base_url@)
                    &&& url_joined(db.base_url@, "_api/cursor"@) == Some(db.cursor_url@)
                },
                None => url_joined(base@, db_path(name@)) is None || (url_joined(
                    base@,
                    db_path(name@),
                ) matches Some(u) && url_joined(u, "_api/cursor"@) is None),
            },
    {
        let mut path = String::from_str("/_db/");
        path.append(name);
        path.append("/");
        let base_url = match resolve_url(base, path.as_str()) {
            Some(u) => u,
            None => {
                return None;
            },
        };
        let cursor_url = match resolve_url(base_url.as_str(), "_api/cursor") {
            Some(u) => u,
            None => {
                return None;
            },
        };
        Some(Database { name: name.to_owned(), base_url, cursor_url })
    }

    /// The base address of this database.
    pub fn get_url(&self) -> (r: &String)
        ensures
            r@ == self.base_url@,
    {
        &self.base_url
    }

    /// The absolute address of an API path under this database; `None` when
    /// the address-joining collaborator cannot resolve it.
    pub fn api_url(&self, path: &str) -> (r: Option<String>)
        ensures
            match r {
                Some(u) => url_joined(self.base_url@, path@) == Some(u@),
                None => url_joined(self.base_url@, path@) is None,
            },
    {
        resolve_url(self.base_url.as_str(), path)
    }

    /// Submit a query and decode the first page. One request is issued; on
    /// success the delivered body decodes to exactly the returned cursor.
    pub fn aql_query_batch<T: Decodable, C: Transport>(
        &self,
        session: &mut C,
        aql: &AqlQuery,
    ) -> (r: Result<Cursor<T>, ClientError>)
        ensures
            old(session).replies().is_prefix_of(final(session).replies()),
            final(session).pending() <= old(session).pending(),
            final(session).sent() == old(session).sent().push(
                (Method::Post, self.cursor_url@, body_text(aql@)),
            ),
            match r {
                Ok(c) => {
                    &&& final(session).replies().len() == old(session).replies().len() + 1
                    &&& final(session).pending() < old(session).pending()
                    &&& cursor_spec::<T>(final(session).replies().last()) == Result::<
                        CursorView<T::V>,
                        ErrorView,
                    >::Ok(c@)
                    &&& (c.more ==> c.id is Some)
                },
                Err(e) => match e {
                    ClientError::Transport(_) => final(session).replies() == old(session).replies(),
                    _ => final(session).replies().len() == old(session).replies().len() + 1
                        && cursor_spec::<T>(final(session).replies().last()) == Result::<
                        CursorView<T::V>,
                        ErrorView,
                    >::Err(e@),
                },
            },
    {
        let body = aql.to_body();
        let sent = session.send(Method::Post, self.cursor_url.as_str(), body.as_str());
        proof {
            if sent is Ok {
                assert(old(session).replies() =~= session.replies().take(
                    old(session).replies().len() as int,
                ));
            }
        }
        match sent {
            Err(f) => Err(ClientError::Transport(f)),
            Ok(text) => decode_cursor::<T>(text.as_str()),
        }
    }

    /// Redeem a continuation id and decode the next page. One request is
    /// issued; a server failure with a 404 status surfaces as
    /// `InvalidCursor`, every other outcome as in `aql_query_batch`.
    pub fn aql_next_batch<T: Decodable, C: Transport>(
        &self,
        session: &mut C,
        cursor_id: &str,
    ) -> (r: Result<Cursor<T>, ClientError>)
        ensures
            old(session).replies().is_prefix_of(final(session).replies()),
            final(session).pending() <= old(session).pending(),
            final(session).sent() == old(session).sent().push(
                (Method::Put, self.cursor_url@ + "/"@ + cursor_id@, Seq::<char>::empty()),
            ),
            match r {
                Ok(c) => {
                    &&& final(session).replies().len() == old(session).replies().len() + 1
                    &&& final(session).pending() < old(session).pending()
                    &&& cursor_spec::<T>(final(session).replies().last()) == Result::<
                        CursorView<T::V>,
                        ErrorView,
                    >::Ok(c@)
                    &&& (c.more ==> c.id is Some)
                },
                Err(e) => match e {
                    ClientError::Transport(_) => final(session).replies() == old(session).replies(),
                    _ => final(session).replies().len() == old(session).replies().len() + 1
                        && cursor_spec::<T>(final(session).replies().last()) is Err && e@
                        == stale_mapped(err_of::<T>(final(session).replies().last())),
                },
            },
    {
        let mut u = self.cursor_url.clone();
        u.append("/");
        u.append(cursor_id);
        proof {
            reveal_strlit("");
            assert(""@ =~= Seq::<char>::empty());
        }
        let sent = session.send(Method::Put, u.as_str(), "");
        proof {
            if sent is Ok {
                assert(old(session).replies() =~= session.replies().take(
                    old(session).replies().len() as int,
                ));
            }
        }
        match sent {
            Err(f) => Err(ClientError::Transport(f)),
            Ok(text) => match decode_cursor::<T>(text.as_str()) {
                Ok(c) => Ok(c),
                Err(ClientError::ServerError { status, error_num, message }) => {
                    if status == 404 {
                        Err(ClientError::InvalidCursor { error_num, message })
                    } else {
                        Err(ClientError::ServerError { status, error_num, message })
                    }
                },
                Err(e) => Err(e),
            },
        }
    }

    /// Drain a cursor: keep redeeming continuation ids until a page
    /// announces no successor, and return all items in page order. On any
    /// failure the whole run fails; no partial rows are returned.
    #[verifier::rlimit(100)]
    #[verifier::loop_isolation(false)]
    pub fn aql_fetch_all<T: Decodable, C: Transport>(
        &self,
        session: &mut C,
        first: Cursor<T>,
    ) -> (r: Result<Vec<T>, ClientError>)
        requires
            first.more ==> first.id is Some,
        ensures
            old(session).replies().is_prefix_of(final(session).replies()),
            old(session).sent().is_prefix_of(final(session).sent()),
            match r {
                Ok(rows) => ({
                    let delta = final(session).replies().skip(old(session).replies().len() as int);
                    let rdelta = final(session).sent().skip(old(session).sent().len() as int);
                    &&& continuation_ok::<T>(first.more, delta)
                    &&& rows@.map(|i: int, t: T| t@) == first@.items + chain_items::<T>(delta)
                    &&& rdelta.len() == delta.len()
                    &&& forall|i: int|
                        0 <= i < rdelta.len() ==> #[trigger] rdelta[i] == put_request(
                            self.cursor_url@,
                            if i == 0 {
                                first@.id
                            } else {
                                page_of::<T>(delta[i - 1]).id
                            },
                        )
                }),
                Err(e) => ({
                    let delta = final(session).replies().skip(old(session).replies().len() as int);
                    let rdelta = final(session).sent().skip(old(session).sent().len() as int);
                    &&& first.more
                    &&& failed_chain::<T>(delta)
                    &&& (forall|i: int|
                        0 <= i < rdelta.len() ==> #[trigger] rdelta[i] == put_request(
                            self.cursor_url@,
                            if i == 0 {
                                first@.id
                            } else {
                                page_of::<T>(delta[i - 1]).id
                            },
                        ))
                    &&& match e {
                        ClientError::Transport(_) => rdelta.len() == delta.len() + 1 && (forall|
                            i: int,
                        |
                            0 <= i < delta.len() ==> (#[trigger] cursor_spec::<T>(delta[i])) is Ok
                                && page_of::<T>(delta[i]).more),
                        _ => rdelta.len() == delta.len() && delta.len() >= 1 && cursor_spec::<T>(
                            delta.last(),
                        ) is Err && e@ == stale_mapped(err_of::<T>(delta.last())),
                    }
                }),
            },
    {
        let ghost fv = first@;
        let ghost n0 = session.replies().len() as int;
        let ghost replies0 = session.replies();
        let ghost m0 = session.sent().len() as int;
        let ghost sent0 = session.sent();
        let mut rows = first.result;
        let mut more = first.more;
        let mut id_opt = first.id;
        proof {
            assert(session.replies().skip(n0) =~= Seq::<Seq<char>>::empty());
            assert(session.sent().skip(m0) =~= Seq::<(Method, Seq<char>, Seq<char>)>::empty());
            assert(rows@.map(|i: int, t: T| t@) =~= fv.items + chain_items::<T>(
                session.replies().skip(n0),
            ));
        }
        while more
            invariant
                replies0 == old(session).replies(),
                replies0.len() == n0,
                replies0.is_prefix_of(session.replies()),
                sent0 == old(session).sent(),
                sent0.len() == m0,
                sent0.is_prefix_of(session.sent()),
                more ==> id_opt is Some,
                ({
                    let delta = session.replies().skip(n0);
                    let rdelta = session.sent().skip(m0);
                    &&& (forall|i: int|
                        0 <= i < delta.len() ==> (#[trigger] cursor_spec::<T>(delta[i])) is Ok)
                    &&& (forall|i: int|
                        0 <= i < delta.len() - 1 ==> (#[trigger] page_of::<T>(delta[i])).more)
                    &&& (delta.len() == 0 ==> more == fv.more)
                    &&& (delta.len() >= 1 ==> fv.more && page_of::<T>(delta.last()).more == more)
                    &&& rows@.map(|i: int, t: T| t@) == fv.items + chain_items::<T>(delta)
                    &&& rdelta.len() == delta.len()
                    &&& (forall|i: int|
                        0 <= i < rdelta.len() ==> #[trigger] rdelta[i] == put_request(
                            self.cursor_url@,
                            if i == 0 {
                                fv.id
                            } else {
                                page_of::<T>(delta[i - 1]).id
                            },
                        ))
                    &&& id_opt.deep_view() == (if delta.len() == 0 {
                        fv.id
                    } else {
                        page_of::<T>(delta.last()).id
                    })
                }),
            decreases session.pending(),
        {
            let ghost pre = session.replies();
            let ghost delta_pre = pre.skip(n0);
            let ghost pre_sent = session.sent();
            let ghost rdelta_pre = pre_sent.skip(m0);
            let ghost prev_id = id_opt.deep_view();
            let id = id_opt.unwrap();
            match self.aql_next_batch::<T, C>(session, id.as_str()) {
                Ok(c) => {
                    proof {
                        lemma_prefix_succ(pre, session.replies());
                        let b = session.replies().last();
                        assert(session.replies().skip(n0) =~= delta_pre.push(b));
                        lemma_prefix_trans(replies0, pre, session.replies());
                        let req = (Method::Put, self.cursor_url@ + "/"@ + id@, Seq::<
                            char,
                        >::empty());
                        assert(session.sent() == pre_sent.push(req));
                        assert(session.sent().skip(m0) =~= rdelta_pre.push(req));
                        assert(prev_id == Some(id@));
                        lemma_prefix_push(pre_sent, req);
                        lemma_prefix_trans(sent0, pre_sent, session.sent());
                    }
                    let ghost cv = c@;
                    let ghost rows_pre = rows@;
                    let mut page_items = c.result;
                    let ghost items_pre = page_items@;
                    more = c.more;
                    id_opt = c.id;
                    rows.append(&mut page_items);
                    proof {
                        let delta = session.replies().skip(n0);
                        let b = session.replies().last();
                        assert(delta == delta_pre.push(b));
                        assert(delta.drop_last() =~= delta_pre);
                        assert(delta.last() == b);
                        assert(page_of::<T>(b) == cv);
                        assert(chain_items::<T>(delta) == chain_items::<T>(delta_pre)
                            + cv.items);
                        assert(items_pre.map(|i: int, t: T| t@) == cv.items);
                        assert(rows@ == rows_pre + items_pre);
                        assert(rows@.map(|i: int, t: T| t@) =~= rows_pre.map(|i: int, t: T| t@)
                            + items_pre.map(|i: int, t: T| t@));
                        assert(fv.items + (chain_items::<T>(delta_pre) + cv.items) =~= (fv.items
                            + chain_items::<T>(delta_pre)) + cv.items);
                        assert(rows@.map(|i: int, t: T| t@) == fv.items + chain_items::<T>(
                            delta,
                        ));
                        let req = (Method::Put, self.cursor_url@ + "/"@ + id@, Seq::<
                            char,
                        >::empty());
                        let rdelta = session.sent().skip(m0);
                        assert(rdelta == rdelta_pre.push(req));
                        assert(req == put_request(self.cursor_url@, prev_id));
                        assert forall|i: int| 0 <= i < rdelta.len() implies #[trigger] rdelta[i]
                            == put_request(
                            self.cursor_url@,
                            if i == 0 {
                                fv.id
                            } else {
                                page_of::<T>(delta[i - 1]).id
                            },
                        ) by {
                            if i < rdelta_pre.len() {
                                assert(rdelta[i] == rdelta_pre[i]);
                                if i > 0 {
                                    assert(delta[i - 1] == delta_pre[i - 1]);
                                }
                            } else {
                                assert(rdelta[i] == req);
                                if i > 0 {
                                    assert(delta[i - 1] == delta_pre[i - 1]);
                                    assert(delta_pre[i - 1] == delta_pre.last());
                                }
                            }
                        }
                    }
                },
                Err(e) => {
                    proof {
                        lemma_prefix_trans(replies0, pre, session.replies());
                        let req = (Method::Put, self.cursor_url@ + "/"@ + id@, Seq::<
                            char,
                        >::empty());
                        assert(session.sent() == pre_sent.push(req));
                        lemma_prefix_push(pre_sent, req);
                        lemma_prefix_trans(sent0, pre_sent, session.sent());
                        let delta = session.replies().skip(n0);
                        let rdelta = session.sent().skip(m0);
                        assert(rdelta =~= rdelta_pre.push(req));
                        assert(prev_id == Some(id@));
                        assert(req == put_request(self.cursor_url@, prev_id));
                        if e is Transport {
                            assert(delta =~= delta_pre);
                        } else {
                            lemma_prefix_succ(pre, session.replies());
                            assert(delta =~= delta_pre.push(session.replies().last()));
                            assert(delta.last() == session.replies().last());
                        }
                        lemma_failed_run::<T>(
                            self.cursor_url@,
                            fv.more,
                            fv.id,
                            delta_pre,
                            rdelta_pre,
                            delta,
                            rdelta,
                            req,
                            prev_id,
                            e is Transport,
                        );
                    }
                    return Err(e);
                },
            }
        }
        proof {
            let delta = session.replies().skip(n0);
            if fv.more {
                assert(delta.len() >= 1);
            } else {
                assert(delta.len() == 0) by {
                    if delta.len() >= 1 {
                        assert(fv.more);
                    }
                }
            }
        }
        Ok(rows)
    }

    /// Execute a query and fetch every row of its result: submit once, then
    /// keep redeeming continuation ids while pages announce successors.
    ///
    /// On success the replies delivered during the call form a complete
    /// page chain — one per network call, the first fetched
    /// unconditionally, each later one gated on its predecessor's `more`
    /// flag — and the rows are exactly the chain's items, in page order and
    /// within-page order. The submitting request is issued unconditionally,
    /// whatever the outcome. On any failure the error is returned and no
    /// rows are: a failure at page k discards the k-1 pages already fetched,
    /// no request follows the failure, every reply before it was a page
    /// announcing a successor, and the error's kind tells a failed send
    /// (one more request than replies) from a reply that would not decode
    /// (as many requests as replies, the last reply the failing one).
    ///
    /// The whole result is materialized: unsuitable for result sets too
    /// large for memory; use `aql_query_batch` and `aql_next_batch` for
    /// manual pagination.
    #[verifier::rlimit(100)]
    pub fn aql_query<T: Decodable, C: Transport>(
        &self,
        session: &mut C,
        aql: &AqlQuery,
    ) -> (r: Result<Vec<T>, ClientError>)
        ensures
            old(session).replies().is_prefix_of(final(session).replies()),
            old(session).sent().is_prefix_of(final(session).sent()),
            ({
                let rdelta = final(session).sent().skip(old(session).sent().len() as int);
                rdelta.len() >= 1 && rdelta[0] == (Method::Post, self.cursor_url@, body_text(
                    aql@,
                ))
            }),
            match r {
                Ok(rows) => ({
                    let delta = final(session).replies().skip(old(session).replies().len() as int);
                    let rdelta = final(session).sent().skip(old(session).sent().len() as int);
                    &&& is_page_chain::<T>(delta)
                    &&& rows@.map(|i: int, t: T| t@) == chain_items::<T>(delta)
                    &&& rdelta.len() == delta.len()
                    &&& forall|i: int|
                        1 <= i < rdelta.len() ==> #[trigger] rdelta[i] == put_request(
                            self.cursor_url@,
                            page_of::<T>(delta[i - 1]).id,
                        )
                }),
                Err(e) => ({
                    let delta = final(session).replies().skip(old(session).replies().len() as int);
                    let rdelta = final(session).sent().skip(old(session).sent().len() as int);
                    &&& failed_chain::<T>(delta)
                    &&& (forall|i: int|
                        1 <= i < rdelta.len() ==> #[trigger] rdelta[i] == put_request(
                            self.cursor_url@,
                            page_of::<T>(delta[i - 1]).id,
                        ))
                    &&& match e {
                        ClientError::Transport(_) => rdelta.len() == delta.len() + 1 && (forall|
                            i: int,
                        |
                            0 <= i < delta.len() ==> (#[trigger] cursor_spec::<T>(delta[i])) is Ok
                                && page_of::<T>(delta[i]).more),
                        _ => rdelta.len() == delta.len() && delta.len() >= 1 && cursor_spec::<T>(
                            delta.last(),
                        ) is Err && e@ == (if delta.len() == 1 {
                            err_of::<T>(delta.last())
                        } else {
                            stale_mapped(err_of::<T>(delta.last()))
                        }),
                    }
                }),
            },
    {
        let ghost n0 = session.replies().len() as int;
        let ghost replies0 = session.replies();
        let ghost m0 = session.sent().len() as int;
        let ghost sent_at_entry = session.sent();
        let first = match self.aql_query_batch::<T, C>(session, aql) {
            Ok(c) => c,
            Err(e) => {
                proof {
                    let delta = session.replies().skip(n0);
                    let pq = (Method::Post, self.cursor_url@, body_text(aql@));
                    let rdelta = session.sent().skip(m0);
                    assert(session.sent() == sent_at_entry.push(pq));
                    lemma_prefix_push(sent_at_entry, pq);
                    assert(rdelta =~= seq![pq]);
                    assert(rdelta[0] == pq);
                    match e {
                        ClientError::Transport(_) => {
                            assert(delta =~= Seq::<Seq<char>>::empty());
                        },
                        _ => {
                            lemma_prefix_succ(replies0, session.replies());
                            assert(delta =~= seq![session.replies().last()]);
                            assert(delta.last() == session.replies().last());
                            assert(delta.len() == 1);
                        },
                    }
                }
                return Err(e);
            },
        };
        let ghost mid = session.replies();
        let ghost b0 = session.replies().last();
        let ghost mid_sent = session.sent();
        let ghost post_req = (Method::Post, self.cursor_url@, body_text(aql@));
        let ghost fv = first@;
        proof {
            lemma_prefix_succ(replies0, mid);
            assert(mid_sent == sent_at_entry.push(post_req));
            lemma_prefix_push(sent_at_entry, post_req);
            assert(mid_sent.skip(m0) =~= seq![post_req]);
        }
        if first.more {
            let fetched = self.aql_fetch_all::<T, C>(session, first);
            proof {
                lemma_prefix_trans(replies0, mid, session.replies());
                lemma_prefix_trans(sent_at_entry, mid_sent, session.sent());
            }
            match fetched {
                Ok(rows) => {
                    proof {
                        let delta2 = session.replies().skip(mid.len() as int);
                        let delta = session.replies().skip(n0);
                        assert(delta =~= seq![b0] + delta2);
                        lemma_chain_items_cons::<T>(b0, delta2);
                        assert(page_of::<T>(b0) == fv);
                        assert(delta2.len() >= 1);
                        assert forall|i: int| 0 <= i < delta.len() implies (
                        #[trigger] cursor_spec::<T>(delta[i])) is Ok by {
                            if i == 0 {
                                assert(delta[0] == b0);
                            } else {
                                assert(delta[i] == delta2[i - 1]);
                            }
                        }
                        assert forall|i: int| 0 <= i < delta.len() - 1 implies (
                        #[trigger] page_of::<T>(delta[i])).more by {
                            if i == 0 {
                                assert(delta[0] == b0);
                            } else {
                                assert(delta[i] == delta2[i - 1]);
                            }
                        }
                        assert(delta.last() == delta2.last());
                        assert(!page_of::<T>(delta.last()).more);
                        assert(rows@.map(|i: int, t: T| t@) == chain_items::<T>(delta));
                        let rdelta2 = session.sent().skip(mid_sent.len() as int);
                        let rdelta = session.sent().skip(m0);
                        assert(rdelta =~= seq![post_req] + rdelta2);
                        assert(rdelta[0] == post_req);
                        assert forall|i: int| 1 <= i < rdelta.len() implies #[trigger] rdelta[i]
                            == put_request(self.cursor_url@, page_of::<T>(delta[i - 1]).id) by {
                            assert(rdelta[i] == rdelta2[i - 1]);
                            if i == 1 {
                                assert(delta[0] == b0);
                                assert(page_of::<T>(delta[0]).id == fv.id);
                            } else {
                                assert(delta2[i - 2] == delta[i - 1]);
                            }
                        }
                    }
                    Ok(rows)
                },
                Err(e) => {
                    proof {
                        let delta2 = session.replies().skip(mid.len() as int);
                        let delta = session.replies().skip(n0);
                        assert(delta =~= seq![b0] + delta2);
                        assert(page_of::<T>(b0) == fv);
                        assert forall|i: int| 0 <= i < delta.len() - 1 implies ((
                        #[trigger] cursor_spec::<T>(delta[i])) is Ok && page_of::<T>(
                            delta[i],
                        ).more) by {
                            if i == 0 {
                                assert(delta[0] == b0);
                            } else {
                                assert(delta[i] == delta2[i - 1]);
                            }
                        }
                        let rdelta2 = session.sent().skip(mid_sent.len() as int);
                        let rdelta = session.sent().skip(m0);
                        assert(rdelta =~= seq![post_req] + rdelta2);
                        assert(rdelta[0] == post_req);
                        assert forall|i: int| 1 <= i < rdelta.len() implies #[trigger] rdelta[i]
                            == put_request(self.cursor_url@, page_of::<T>(delta[i - 1]).id) by {
                            assert(rdelta[i] == rdelta2[i - 1]);
                            if i == 1 {
                                assert(delta[0] == b0);
                                assert(page_of::<T>(delta[0]).id == fv.id);
                            } else {
                                assert(delta2[i - 2] == delta[i - 1]);
                            }
                        }
                        match e {
                            ClientError::Transport(_) => {
                                assert(rdelta.len() == delta.len() + 1);
                                assert forall|i: int| 0 <= i < delta.len() implies ((
                                #[trigger] cursor_spec::<T>(delta[i])) is Ok && page_of::<T>(
                                    delta[i],
                                ).more) by {
                                    if i == 0 {
                                        assert(delta[0] == b0);
                                    } else {
                                        assert(delta[i] == delta2[i - 1]);
                                    }
                                }
                            },
                            _ => {
                                assert(rdelta.len() == delta.len());
                                assert(delta2.len() >= 1);
                                assert(delta.last() == delta2.last());
                                assert(delta.len() >= 2);
                            },
                        }
                    }
                    Err(e)
                },
            }
        } else {
            proof {
                let delta = session.replies().skip(n0);
                assert(delta =~= seq![b0]);
                lemma_chain_items_singleton::<T>(b0);
                assert(page_of::<T>(b0) == fv);
                assert(chain_items::<T>(delta) == fv.items);
                assert(first.result@.map(|i: int, t: T| t@) == fv.items);
                let rdelta = session.sent().skip(m0);
                assert(rdelta =~= seq![post_req]);
                assert(rdelta[0] == post_req);
            }
            Ok(first.result)
        }
    }

    /// As `aql_query`, for a bare query string.
    pub fn aql_str<T: Decodable, C: Transport>(&self, session: &mut C, query: &str) -> (r: Result<
        Vec<T>,
        ClientError,
    >)
        ensures
            old(session).replies().is_prefix_of(final(session).replies()),
            old(session).sent().is_prefix_of(final(session).sent()),
            ({
                let rdelta = final(session).sent().skip(old(session).sent().len() as int);
                rdelta.len() >= 1 && rdelta[0] == (Method::Post, self.cursor_url@, body_text(
                    (AqlQueryView {
                        query: query@,
                        bind_vars: Seq::empty(),
                        batch_size: None,
                        cache: None,
                    }),
                ))
            }),
            match r {
                Ok(rows) => ({
                    let delta = final(session).replies().skip(old(session).replies().len() as int);
                    let rdelta = final(session).sent().skip(old(session).sent().len() as int);
                    &&& is_page_chain::<T>(delta)
                    &&& rows@.map(|i: int, t: T| t@) == chain_items::<T>(delta)
                    &&& rdelta.len() == delta.len()
                    &&& forall|i: int|
                        1 <= i < rdelta.len() ==> #[trigger] rdelta[i] == put_request(
                            self.cursor_url@,
                            page_of::<T>(delta[i - 1]).id,
                        )
                }),
                Err(e) => ({
                    let delta = final(session).replies().skip(old(session).replies().len() as int);
                    let rdelta = final(session).sent().skip(old(session).sent().len() as int);
                    &&& failed_chain::<T>(delta)
                    &&& (forall|i: int|
                        1 <= i < rdelta.len() ==> #[trigger] rdelta[i] == put_request(
                            self.cursor_url@,
                            page_of::<T>(delta[i - 1]).id,
                        ))
                    &&& match e {
                        ClientError::Transport(_) => rdelta.len() == delta.len() + 1 && (forall|
                            i: int,
                        |
                            0 <= i < delta.len() ==> (#[trigger] cursor_spec::<T>(delta[i])) is Ok
                                && page_of::<T>(delta[i]).more),
                        _ => rdelta.len() == delta.len() && delta.len() >= 1 && cursor_spec::<T>(
                            delta.last(),
                        ) is Err && e@ == (if delta.len() == 1 {
                            err_of::<T>(delta.last())
                        } else {
                            stale_mapped(err_of::<T>(delta.last()))
                        }),
                    }
                }),
            },
    {
        let aql = AqlQuery::new(query);
        proof {
            assert(aql@ =~= (AqlQueryView {
                query: query@,
                bind_vars: Seq::empty(),
                batch_size: None,
                cache: None,
            }));
        }
        self.aql_query::<T, C>(session, &aql)
    }

    /// As `aql_query`, for a query string with bound variables, appended in
    /// the given order.
    pub fn aql_bind_vars<T: Decodable, C: Transport>(
        &self,
        session: &mut C,
        query: &str,
        bind_vars: Vec<(String, String)>,
    ) -> (r: Result<Vec<T>, ClientError>)
        ensures
            old(session).replies().is_prefix_of(final(session).replies()),
            old(session).sent().is_prefix_of(final(session).sent()),
            ({
                let rdelta = final(session).sent().skip(old(session).sent().len() as int);
                rdelta.len() >= 1 && rdelta[0] == (Method::Post, self.cursor_url@, body_text(
                    (AqlQueryView {
                        query: query@,
                        bind_vars: bind_vars.deep_view(),
                        batch_size: None,
                        cache: None,
                    }),
                ))
            }),
            match r {
                Ok(rows) => ({
                    let delta = final(session).replies().skip(old(session).replies().len() as int);
                    let rdelta = final(session).sent().skip(old(session).sent().len() as int);
                    &&& is_page_chain::<T>(delta)
                    &&& rows@.map(|i: int, t: T| t@) == chain_items::<T>(delta)
                    &&& rdelta.len() == delta.len()
                    &&& forall|i: int|
                        1 <= i < rdelta.len() ==> #[trigger] rdelta[i] == put_request(
                            self.cursor_url@,
                            page_of::<T>(delta[i - 1]).id,
                        )
                }),
                Err(e) => ({
                    let delta = final(session).replies().skip(old(session).replies().len() as int);
                    let rdelta = final(session).sent().skip(old(session).sent().len() as int);
                    &&& failed_chain::<T>(delta)
                    &&& (forall|i: int|
                        1 <= i < rdelta.len() ==> #[trigger] rdelta[i] == put_request(
                            self.cursor_url@,
                            page_of::<T>(delta[i - 1]).id,
                        ))
                    &&& match e {
                        ClientError::Transport(_) => rdelta.len() == delta.len() + 1 && (forall|
                            i: int,
                        |
                            0 <= i < delta.len() ==> (#[trigger] cursor_spec::<T>(delta[i])) is Ok
                                && page_of::<T>(delta[i]).more),
                        _ => rdelta.len() == delta.len() && delta.len() >= 1 && cursor_spec::<T>(
                            delta.last(),
                        ) is Err && e@ == (if delta.len() == 1 {
                            err_of::<T>(delta.last())
                        } else {
                            stale_mapped(err_of::<T>(delta.last()))
                        }),
                    }
                }),
            },
    {
        let mut aql = AqlQuery::new(query);
        let mut i: usize = 0;
        proof {
            assert(aql@.bind_vars =~= bind_vars.deep_view().take(0));
        }
        while i < bind_vars.len()
            invariant
                i <= bind_vars.len(),
                aql@.query == query@,
                aql@.bind_vars == bind_vars.deep_view().take(i as int),
                aql@.batch_size is None,
                aql@.cache is None,
            decreases bind_vars.len() - i,
        {
            let pair = &bind_vars[i];
            aql = aql.bind_var(pair.0.as_str(), pair.1.as_str());
            proof {
                assert(aql@.bind_vars =~= bind_vars.deep_view().take(i + 1));
            }
            i = i + 1;
        }
        proof {
            assert(bind_vars.deep_view().take(bind_vars@.len() as int) =~= bind_vars.deep_view());
            assert(aql@ =~= (AqlQueryView {
                query: query@,
                bind_vars: bind_vars.deep_view(),
                batch_size: None,
                cache: None,
            }));
        }
        self.aql_query::<T, C>(session, &aql)
    }
}

} // verus!
