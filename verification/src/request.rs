//! What the connectors ask of a provider, and what comes back.
use vstd::prelude::*;
use vstd::string::*;

verus! {

/// One parameter of a query string, before it is encoded.
#[derive(Debug)]
pub struct QueryParam {
    pub name: String,
    pub value: String,
}

/// A GET request: the address, and the parameters that are added to it in order.
#[derive(Debug)]
pub struct Request {
    pub url: String,
    pub query: Vec<QueryParam>,
}

/// What a [`Request`] holds.
#[verifier::ext_equal]
pub struct RequestView {
    pub url: Seq<char>,
    pub query: Seq<(Seq<char>, Seq<char>)>,
}

impl View for QueryParam {
    type V = (Seq<char>, Seq<char>);

    open spec fn view(&self) -> (Seq<char>, Seq<char>) {
        (self.name@, self.value@)
    }
}

impl View for Request {
    type V = RequestView;

    open spec fn view(&self) -> RequestView {
        RequestView { url: self.url@, query: self.query@.map_values(|p: QueryParam| p@) }
    }
}

impl RequestView {
    /// The request with one more parameter.
    pub open spec fn with(self, name: Seq<char>, value: Seq<char>) -> RequestView {
        RequestView { url: self.url, query: self.query.push((name, value)) }
    }
}

/// A request without parameters.
pub open spec fn plain(url: Seq<char>) -> RequestView {
    RequestView { url, query: Seq::empty() }
}

impl Request {
    /// A request for `url` without parameters.
    pub fn get(url: String) -> (request: Request)
        ensures
            request@ == plain(url@),
    {
        let request = Request { url, query: Vec::new() };
        assert(request@.query =~= Seq::empty());
        request
    }

    /// Adds a parameter.
    pub fn with(self, name: &str, value: &str) -> (request: Request)
        ensures
            request@ == self@.with(name@, value@),
    {
        let mut query = self.query;
        let ghost before = query@.map_values(|p: QueryParam| p@);
        query.push(QueryParam { name: name.to_owned(), value: value.to_owned() });
        let request = Request { url: self.url, query };
        assert(request@.query =~= before.push((name@, value@)));
        request
    }
}

/// How a request ended.
#[derive(Debug)]
pub enum Reply<T> {
    /// The provider was not reached or refused the request. Holds the cause.
    Failed(String),
    /// The provider's answer could not be read. Holds the cause.
    Unreadable(String),
    /// The provider answered.
    Body(T),
}

} // verus!
