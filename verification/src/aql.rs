//! The query value: text, bound variables and execution options, and the
//! request body it is submitted as.
use vstd::prelude::*;

use crate::wire::{decimal_of, fmt_u64, json_quote, json_quoted};
use vstd::string::StringExecFns;

verus! {

broadcast use vstd::seq_lib::group_seq_properties;

/// An immutable query: the query text, a mapping from bind-variable name to
/// a value given as raw JSON text (names must be unique; their order is
/// kept), and the optional execution options.
#[derive(Debug, Clone)]
pub struct AqlQuery {
    pub query: String,
    pub bind_vars: Vec<(String, String)>,
    pub batch_size: Option<u64>,
    pub cache: Option<bool>,
}

/// Mathematical image of an `AqlQuery`.
#[verifier::ext_equal]
pub struct AqlQueryView {
    pub query: Seq<char>,
    pub bind_vars: Seq<(Seq<char>, Seq<char>)>,
    pub batch_size: Option<u64>,
    pub cache: Option<bool>,
}

impl View for AqlQuery {
    type V = AqlQueryView;

    open spec fn view(&self) -> AqlQueryView {
        AqlQueryView {
            query: self.query@,
            bind_vars: self.bind_vars.deep_view(),
            batch_size: self.batch_size,
            cache: self.cache,
        }
    }
}

/// One `"name":value` member of the `bindVars` object.
pub open spec fn bind_entry_text(b: (Seq<char>, Seq<char>)) -> Seq<char> {
    json_quoted(b.0) + ":"@ + b.1
}

/// The comma-separated members of the `bindVars` object, in order.
pub open spec fn bind_list_text(bs: Seq<(Seq<char>, Seq<char>)>) -> Seq<char>
    decreases bs.len(),
{
    if bs.len() == 0 {
        Seq::empty()
    } else if bs.len() == 1 {
        bind_entry_text(bs[0])
    } else {
        bind_list_text(bs.drop_last()) + ","@ + bind_entry_text(bs.last())
    }
}

/// The optional members of the request body.
pub open spec fn options_text(q: AqlQueryView) -> Seq<char> {
    (match q.batch_size {
        Some(n) => ",\"batchSize\":"@ + decimal_of(n),
        None => Seq::<char>::empty(),
    }) + (match q.cache {
        Some(b) => ",\"cache\":"@ + (if b { "true"@ } else { "false"@ }),
        None => Seq::<char>::empty(),
    })
}

/// The request body a query is submitted as.
pub open spec fn body_text(q: AqlQueryView) -> Seq<char> {
    "{\"query\":"@ + json_quoted(q.query) + ",\"bindVars\":{"@ + bind_list_text(q.bind_vars) + "}"@
        + options_text(q) + "}"@
}

impl AqlQuery {
    /// A query with the given text, no bound variables and no options.
    pub fn new(query: &str) -> (r: AqlQuery)
        ensures
            r@.query == query@,
            r@.bind_vars == Seq::<(Seq<char>, Seq<char>)>::empty(),
            r@.batch_size is None,
            r@.cache is None,
    {
        let r = AqlQuery { query: query.to_owned(), bind_vars: Vec::new(), batch_size: None, cache: None };
        proof {
            assert(r@.bind_vars =~= Seq::<(Seq<char>, Seq<char>)>::empty());
        }
        r
    }

    /// The same query with one more bound variable, appended after the
    /// existing ones. `value` is the variable's value as raw JSON text.
    pub fn bind_var(self, name: &str, value: &str) -> (r: AqlQuery)
        ensures
            r@.query == self@.query,
            r@.bind_vars == self@.bind_vars.push((name@, value@)),
            r@.batch_size == self@.batch_size,
            r@.cache == self@.cache,
    {
        let mut bind_vars = self.bind_vars;
        let ghost bs0 = bind_vars.deep_view();
        bind_vars.push((name.to_owned(), value.to_owned()));
        proof {
            assert(bind_vars.deep_view() =~= bs0.push((name@, value@)));
        }
        AqlQuery { query: self.query, bind_vars, batch_size: self.batch_size, cache: self.cache }
    }

    /// The same query with the page size the server is asked for.
    pub fn batch_size(self, n: u64) -> (r: AqlQuery)
        ensures
            r@.query == self@.query,
            r@.bind_vars == self@.bind_vars,
            r@.batch_size == Some(n),
            r@.cache == self@.cache,
    {
        AqlQuery { batch_size: Some(n), ..self }
    }

    /// The same query with the server-side cache flag set.
    pub fn cache(self, b: bool) -> (r: AqlQuery)
        ensures
            r@.query == self@.query,
            r@.bind_vars == self@.bind_vars,
            r@.batch_size == self@.batch_size,
            r@.cache == Some(b),
    {
        AqlQuery { cache: Some(b), ..self }
    }

    /// Render the query as the request body it is submitted as.
    pub fn to_body(&self) -> (r: String)
        ensures
            r@ == body_text(self@),
    {
        let mut s = String::from_str("{\"query\":");
        s.append(json_quote(self.query.as_str()).as_str());
        s.append(",\"bindVars\":{");
        let ghost head = "{\"query\":"@ + json_quoted(self@.query) + ",\"bindVars\":{"@;
        assert(s@ == head);
        let mut i: usize = 0;
        while i < self.bind_vars.len()
            invariant
                i <= self.bind_vars.len(),
                s@ == head + bind_list_text(self@.bind_vars.take(i as int)),
            decreases self.bind_vars.len() - i,
        {
            let ghost pre = self@.bind_vars.take(i as int);
            if i > 0 {
                s.append(",");
            }
            let pair = &self.bind_vars[i];
            s.append(json_quote(pair.0.as_str()).as_str());
            s.append(":");
            s.append(pair.1.as_str());
            proof {
                let post = self@.bind_vars.take(i + 1 as int);
                assert(post.drop_last() =~= pre);
                assert(post.last() == self@.bind_vars[i as int]);
                if i == 0 {
                    assert(bind_list_text(post) == bind_entry_text(self@.bind_vars[0]));
                }
            }
            i = i + 1;
        }
        proof {
            assert(self@.bind_vars.take(self.bind_vars@.len() as int) =~= self@.bind_vars);
        }
        s.append("}");
        match self.batch_size {
            Some(n) => {
                s.append(",\"batchSize\":");
                s.append(fmt_u64(n).as_str());
            },
            None => {},
        }
        match self.cache {
            Some(b) => {
                s.append(",\"cache\":");
                if b {
                    s.append("true");
                } else {
                    s.append("false");
                }
            },
            None => {},
        }
        s.append("}");
        s
    }
}

} // verus!
