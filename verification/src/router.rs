//! Routing: which handler a request's method, path and `Accept` values
//! select. Routes are data; the last route that matches wins.

use vstd::prelude::*;

use crate::strutil::{spec_has_prefix, starts_with, str_eq};

verus! {

/// What a matched route dispatches to.
#[derive(PartialEq, Eq, Structural, Clone, Copy)]
pub enum RouteTarget {
    /// Serve an entity.
    EntityGet,
    /// Ingest into a box.
    EntityPost,
    /// The webfinger endpoint.
    Webfinger,
    /// The static context document.
    ContextDocument,
    /// The node-information endpoints.
    NodeInfo,
}

/// A route: a method, a path (exact or a prefix), optional content types,
/// and the handler it selects.
pub struct Route {
    pub path: String,
    pub method: String,
    pub is_prefix: bool,
    pub content_type: Vec<String>,
    pub target: RouteTarget,
}

impl Route {
    /// A route for a GET of one exact path.
    pub fn get(path: &str, target: RouteTarget) -> (r: Route)
        ensures
            r.path@ == path@,
            r.method@ == "GET"@,
            !r.is_prefix,
            r.content_type@.len() == 0,
            r.target == target,
    {
        proof {
            reveal_strlit("GET");
        }
        Route {
            path: path.to_owned(),
            method: String::from_str("GET"),
            is_prefix: false,
            content_type: Vec::new(),
            target,
        }
    }

    /// A route for a POST of one exact path.
    pub fn post(path: &str, target: RouteTarget) -> (r: Route)
        ensures
            r.path@ == path@,
            r.method@ == "POST"@,
            !r.is_prefix,
            r.content_type@.len() == 0,
            r.target == target,
    {
        proof {
            reveal_strlit("POST");
        }
        Route {
            path: path.to_owned(),
            method: String::from_str("POST"),
            is_prefix: false,
            content_type: Vec::new(),
            target,
        }
    }

    /// A route for a GET of every path under a prefix.
    pub fn get_prefix(path: &str, target: RouteTarget) -> (r: Route)
        ensures
            r.path@ == path@,
            r.method@ == "GET"@,
            r.is_prefix,
            r.content_type@.len() == 0,
            r.target == target,
    {
        proof {
            reveal_strlit("GET");
        }
        Route {
            path: path.to_owned(),
            method: String::from_str("GET"),
            is_prefix: true,
            content_type: Vec::new(),
            target,
        }
    }

    /// A route for a POST of every path under a prefix.
    pub fn post_prefix(path: &str, target: RouteTarget) -> (r: Route)
        ensures
            r.path@ == path@,
            r.method@ == "POST"@,
            r.is_prefix,
            r.content_type@.len() == 0,
            r.target == target,
    {
        proof {
            reveal_strlit("POST");
        }
        Route {
            path: path.to_owned(),
            method: String::from_str("POST"),
            is_prefix: true,
            content_type: Vec::new(),
            target,
        }
    }

    /// Whether one of the offered content types is acceptable.
    pub open spec fn spec_accepts(&self, accept: Seq<Seq<char>>) -> bool {
        self.content_type@.len() == 0 || exists|i: int, j: int|
            0 <= i < self.content_type@.len() && 0 <= j < accept.len() && (
            #[trigger] self.content_type@[i])@ == #[trigger] accept[j]
    }

    /// The route matches when the method agrees, a content type is
    /// acceptable, and the path equals or extends the route's path.
    pub open spec fn spec_can_handle(
        &self,
        method: Seq<char>,
        path: Seq<char>,
        accept: Seq<Seq<char>>,
    ) -> bool {
        &&& self.method@ == method
        &&& self.spec_accepts(accept)
        &&& if self.is_prefix {
            spec_has_prefix(path, self.path@)
        } else {
            path == self.path@
        }
    }

    /// Decide whether this route handles the request.
    pub fn can_handle(&self, method: &str, path: &str, accept: &Vec<String>) -> (r: bool)
        ensures
            r == self.spec_can_handle(method@, path@, accept@.map_values(|s: String| s@)),
    {
        let ghost acceptv = accept@.map_values(|s: String| s@);
        if !str_eq(self.method.as_str(), method) {
            return false;
        }
        if self.content_type.len() > 0 {
            let mut matched = false;
            let cn = self.content_type.len();
            let mut i: usize = 0;
            while i < cn && !matched
                invariant
                    cn == self.content_type@.len(),
                    acceptv == accept@.map_values(|s: String| s@),
                    i <= cn,
                    matched ==> self.spec_accepts(acceptv),
                    !matched ==> forall|a: int, b: int|
                        0 <= a < i && 0 <= b < acceptv.len() ==> (
                        #[trigger] self.content_type@[a])@ != #[trigger] acceptv[b],
                decreases cn - i,
            {
                let an = accept.len();
                let mut j: usize = 0;
                while j < an && !matched
                    invariant
                        an == accept@.len(),
                        acceptv == accept@.map_values(|s: String| s@),
                        i < cn,
                        cn == self.content_type@.len(),
                        j <= an,
                        matched ==> self.spec_accepts(acceptv),
                        !matched ==> forall|b: int|
                            0 <= b < j ==> (#[trigger] self.content_type@[i as int])@
                                != acceptv[b],
                    decreases an - j,
                {
                    if str_eq(self.content_type[i].as_str(), accept[j].as_str()) {
                        proof {
                            assert((self.content_type@[i as int])@ == acceptv[j as int]);
                        }
                        matched = true;
                    }
                    j = j + 1;
                }
                i = i + 1;
            }
            if !matched {
                proof {
                    if self.spec_accepts(acceptv) {
                        let (a, b) = choose|a: int, b: int|
                            0 <= a < self.content_type@.len() && 0 <= b < acceptv.len() && (
                            #[trigger] self.content_type@[a])@ == #[trigger] acceptv[b];
                    }
                }
                return false;
            }
        }
        if self.is_prefix {
            starts_with(path, self.path.as_str())
        } else {
            str_eq(path, self.path.as_str())
        }
    }
}

} // verus!
