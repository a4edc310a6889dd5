//! The route table: which guest export answers which method and path.
use vstd::prelude::*;

verus! {

/// HTTP method of a route. Each stands for one bit of a method mask.
#[derive(Clone, Copy, Debug, PartialEq, Eq, Structural)]
pub enum Method {
    Delete,
    Get,
    Head,
    Options,
    Patch,
    Post,
    Put,
    Trace,
}

pub open spec fn method_bits(m: Method) -> u16 {
    match m {
        Method::Delete => 2,
        Method::Get => 4,
        Method::Head => 8,
        Method::Options => 16,
        Method::Patch => 32,
        Method::Post => 64,
        Method::Put => 128,
        Method::Trace => 256,
    }
}

impl Method {
    /// The method's bit in a method mask.
    pub fn bits(&self) -> (r: u16)
        ensures
            r == method_bits(*self),
    {
        match self {
            Method::Delete => 2,
            Method::Get => 4,
            Method::Head => 8,
            Method::Options => 16,
            Method::Patch => 32,
            Method::Post => 64,
            Method::Put => 128,
            Method::Trace => 256,
        }
    }
}

/// Declared body type of a route; only `Multipart` changes how a request is
/// handled.
#[derive(Clone, Copy, Debug, PartialEq, Eq, Structural)]
pub enum ContentType {
    Plain,
    Json,
    FormUrlencoded,
    Multipart,
}

pub struct Route {
    pub func_name: String,
    pub path: String,
    pub method: Method,
    pub content_type: Option<ContentType>,
    pub async_func_name: Option<String>,
}

pub struct Config {
    pub route: Vec<Route>,
}

pub open spec fn route_matches(r: Route, path: Seq<char>, method: Method) -> bool {
    r.path@ == path && r.method == method
}

impl Route {
    pub fn is_multipart(&self) -> (r: bool)
        ensures
            r == (self.content_type == Some(ContentType::Multipart)),
    {
        match self.content_type {
            Some(ContentType::Multipart) => true,
            _ => false,
        }
    }
}

impl Config {
    /// The first route whose path and method are those of the request; no
    /// later route is looked at. Paths match only when they are equal: a
    /// route path is taken literally, with no `:param` or `*rest` segments.
    pub fn find_route(&self, path: &String, method: Method) -> (r: Option<usize>)
        ensures
            r matches Some(i) ==> i < self.route@.len() && route_matches(
                self.route@[i as int],
                path@,
                method,
            ) && forall|j: int|
                0 <= j < i ==> !route_matches(#[trigger] self.route@[j], path@, method),
            r is None ==> forall|j: int|
                0 <= j < self.route@.len() ==> !route_matches(#[trigger] self.route@[j], path@, method),
    {
        let mut i: usize = 0;
        while i < self.route.len()
            invariant
                i <= self.route@.len(),
                forall|j: int| 0 <= j < i ==> !route_matches(#[trigger] self.route@[j], path@, method),
            decreases self.route@.len() - i,
        {
            let r = &self.route[i];
            if r.method == method && r.path == *path {
                return Some(i);
            }
            i = i + 1;
        }
        None
    }
}

} // verus!
