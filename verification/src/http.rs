//! The one thing the store asks of the network: the body behind a URL.

use vstd::prelude::*;
use vstd::string::*;
use crate::text::texts;

verus! {

/// Why a request gave no body.
#[derive(Debug)]
pub struct HttpError {
    pub message: String,
}

/// Something that can fetch the body behind a URL. Nothing is promised of
/// what comes back: the store verifies every body it is handed.
pub trait HttpRequest {
    fn http_get(&mut self, url: &str) -> Result<Vec<u8>, HttpError>;
}

/// A client that keeps a log of what it was asked for. Every request adds
/// its URL to the log before it is passed on, whether it succeeds or not.
#[derive(Debug)]
pub struct Client<H> {
    inner: H,
    log: Vec<String>,
}

impl<H: HttpRequest> Client<H> {
    /// The URLs requested so far, oldest first.
    pub closed spec fn requested(&self) -> Seq<Seq<char>> {
        texts(self.log@)
    }

    /// A client over `inner` that was asked for nothing yet.
    pub fn new(inner: H) -> (client: Self)
        ensures
            client.requested() == Seq::<Seq<char>>::empty(),
    {
        let client = Client { inner, log: Vec::new() };
        proof {
            assert(client.requested() =~= Seq::<Seq<char>>::empty());
        }
        client
    }

    /// The URLs requested so far, oldest first.
    pub fn requests(&self) -> (log: &Vec<String>)
        ensures
            texts(log@) == self.requested(),
    {
        &self.log
    }

    /// What the requests are passed on to.
    pub closed spec fn backend(&self) -> H {
        self.inner
    }

    /// What the requests are passed on to.
    pub fn inner(&self) -> (inner: &H)
        ensures
            *inner == self.backend(),
    {
        &self.inner
    }

    /// Requests the body behind `url`.
    pub fn http_get(&mut self, url: &str) -> (body: Result<Vec<u8>, HttpError>)
        ensures
            final(self).requested() == old(self).requested().push(url@),
    {
        let ghost before = texts(self.log@);
        self.log.push(url.to_owned());
        proof {
            assert(texts(self.log@) =~= before.push(url@));
        }
        self.inner.http_get(url)
    }
}

} // verus!
