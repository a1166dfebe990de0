//! The transport collaborator's interface, and a scripted stand-in for it.
use vstd::prelude::*;

use crate::error::TransportFault;
use vstd::string::StringExecFns;

verus! {

broadcast use vstd::seq_lib::group_seq_properties;

/// An HTTP request method.
#[derive(Debug, Clone, Copy, PartialEq, Eq, Structural)]
pub enum Method {
    Get,
    Post,
    Put,
    Delete,
}

/// One request as a transport saw it.
#[derive(Debug, Clone)]
pub struct RequestRecord {
    pub method: Method,
    pub url: String,
    pub body: String,
}

/// The capability to send one request and receive one raw response body.
///
/// Implementors stand for an authenticated session against a server; the
/// query protocol never inspects anything below the body text. The model is
/// the sequence of bodies delivered so far (`replies`) and a bound on how
/// many more can still come (`pending`): a cursor chain is finite, so a
/// session answering one query can promise only finitely many responses
/// ahead.
pub trait Transport {
    /// The response bodies delivered so far, in order.
    spec fn replies(&self) -> Seq<Seq<char>>;

    /// The requests issued so far, in order: method, address, body.
    spec fn sent(&self) -> Seq<(Method, Seq<char>, Seq<char>)>;

    /// How many responses can still be delivered.
    spec fn pending(&self) -> nat;

    /// Send one request: it is appended to `sent` in any case; on success
    /// the delivered body is appended to `replies`, on failure nothing is
    /// delivered.
    fn send(&mut self, method: Method, url: &str, body: &str) -> (r: Result<String, TransportFault>)
        ensures
            final(self).sent() == old(self).sent().push((method, url@, body@)),
            match r {
                Ok(text) => final(self).replies() == old(self).replies().push(text@)
                    && final(self).pending() < old(self).pending(),
                Err(_) => final(self).replies() == old(self).replies()
                    && final(self).pending() == old(self).pending(),
            },
    ;
}

/// A transport that plays a fixed script of response bodies: the `i`-th
/// request is answered with the `i`-th entry, and requests past the end of
/// the script fail. It records every request it was handed.
pub struct ScriptedTransport {
    /// The response bodies to hand out, in order.
    pub script: Vec<String>,
    /// How many have been handed out already.
    pub served: usize,
    /// Every request received so far, in order.
    pub requests: Vec<RequestRecord>,
}

impl ScriptedTransport {
    /// A transport that will answer with the given bodies, in order.
    pub fn new(script: Vec<String>) -> (r: ScriptedTransport)
        ensures
            r.replies() == Seq::<Seq<char>>::empty(),
            r.sent() == Seq::<(Method, Seq<char>, Seq<char>)>::empty(),
            r.pending() == script@.len(),
            r.script.deep_view() == script.deep_view(),
            r.requests@.len() == 0,
    {
        let r = ScriptedTransport { script, served: 0, requests: Vec::new() };
        proof {
            assert(r.replies() =~= Seq::<Seq<char>>::empty());
            assert(r.sent() =~= Seq::<(Method, Seq<char>, Seq<char>)>::empty());
        }
        r
    }

    /// How many requests were answered.
    pub fn calls_made(&self) -> (r: usize)
        ensures
            r == self.served,
    {
        self.served
    }
}

impl Transport for ScriptedTransport {
    open spec fn replies(&self) -> Seq<Seq<char>> {
        self.script.deep_view().take(self.served as int)
    }

    open spec fn sent(&self) -> Seq<(Method, Seq<char>, Seq<char>)> {
        self.requests@.map(|i: int, r: RequestRecord| (r.method, r.url@, r.body@))
    }

    open spec fn pending(&self) -> nat {
        if self.served <= self.script.len() {
            (self.script@.len() - self.served) as nat
        } else {
            0
        }
    }

    fn send(&mut self, method: Method, url: &str, body: &str) -> (r: Result<String, TransportFault>)
        ensures
            final(self).script.deep_view() == old(self).script.deep_view(),
            match r {
                Ok(text) => old(self).served < old(self).script.len() && final(self).served == old(
                    self,
                ).served + 1 && text@ == old(self).script.deep_view()[old(self).served as int],
                Err(_) => old(self).served >= old(self).script.len() && final(self).served == old(
                    self,
                ).served,
            },
    {
        self.requests.push(RequestRecord { method, url: url.to_owned(), body: body.to_owned() });
        proof {
            assert(self.requests@.map(|i: int, r: RequestRecord| (r.method, r.url@, r.body@)) =~= old(
                self,
            ).requests@.map(|i: int, r: RequestRecord| (r.method, r.url@, r.body@)).push(
                (method, url@, body@),
            ));
        }
        if self.served < self.script.len() {
            let text = self.script[self.served].clone();
            self.served = self.served + 1;
            proof {
                assert(self.script.deep_view().take(self.served as int) =~= self
                    .script
                    .deep_view()
                    .take(old(self).served as int)
                    .push(text@));
            }
            Ok(text)
        } else {
            Err(TransportFault { message: String::from_str("the script is exhausted") })
        }
    }
}

} // verus!
