//! The route registry and the decisions the server makes for each request:
//! which handler runs, and what is sent back.
use vstd::prelude::*;
use crate::method::{HttpMethod, method_token};
use crate::path::HttpPath;
use crate::response::{
    Response, content_length_header, decimal, default_headers, etag_header, etag_of, head_text,
    has_header_line, html_type, json_type, content_type_name, lemma_head_has_header, status_line,
    lemma_status_lines,
};
use vstd::utf8::encode_utf8;
use crate::text::append;
use crate::fields::{fields_map, sorted_names};

verus! {

/// A table of pairs as a map from key to value.
pub open spec fn assoc_map<K, V>(s: Seq<(K, V)>) -> Map<K, V> {
    Map::new(
        |k: K| exists|i: int| 0 <= i < s.len() && s[i].0 == k,
        |k: K| s[choose|i: int| 0 <= i < s.len() && s[i].0 == k].1,
    )
}

/// Each key occurs once.
pub open spec fn unique_keys<K, V>(s: Seq<(K, V)>) -> bool {
    forall|i: int, j: int| 0 <= i < s.len() && 0 <= j < s.len() && i != j ==> #[trigger] s[i].0 != #[trigger] s[j].0
}

/// Replacing the value of a present key updates the map.
pub proof fn lemma_assoc_update<K, V>(s: Seq<(K, V)>, i: int, k: K, v: V)
    requires
        unique_keys(s),
        0 <= i < s.len(),
        s[i].0 == k,
    ensures
        unique_keys(s.update(i, (k, v))),
        assoc_map(s.update(i, (k, v))) == assoc_map(s).insert(k, v),
{
    let t = s.update(i, (k, v));
    assert forall|a: int, b: int| 0 <= a < t.len() && 0 <= b < t.len() && a != b implies #[trigger] t[a].0 != #[trigger] t[b].0 by {
        assert(s[a].0 != s[b].0);
    }
    let m = assoc_map(s).insert(k, v);
    assert forall|q: K| #[trigger] assoc_map(t).dom().contains(q) == m.dom().contains(q) by {
        if m.dom().contains(q) && q != k {
            let j = choose|j: int| 0 <= j < s.len() && s[j].0 == q;
            assert(t[j].0 == q);
        }
        if q == k {
            assert(t[i].0 == q);
        }
        if assoc_map(t).dom().contains(q) {
            let j = choose|j: int| 0 <= j < t.len() && t[j].0 == q;
            if j != i {
                assert(s[j].0 == q);
            }
        }
    }
    assert forall|q: K| assoc_map(t).dom().contains(q) implies #[trigger] assoc_map(t)[q] == m[q] by {
        let j = choose|j: int| 0 <= j < t.len() && t[j].0 == q;
        if q == k {
            assert(t[i].0 == q);
        } else {
            let j0 = choose|j0: int| 0 <= j0 < s.len() && s[j0].0 == q;
            assert(s[j].0 == q);
        }
    }
    assert(assoc_map(t) =~= m);
}

/// Appending an absent key adds it to the map.
pub proof fn lemma_assoc_push<K, V>(s: Seq<(K, V)>, k: K, v: V)
    requires
        unique_keys(s),
        !assoc_map(s).dom().contains(k),
    ensures
        unique_keys(s.push((k, v))),
        assoc_map(s.push((k, v))) == assoc_map(s).insert(k, v),
{
    let t = s.push((k, v));
    assert forall|a: int, b: int| 0 <= a < t.len() && 0 <= b < t.len() && a != b implies #[trigger] t[a].0 != #[trigger] t[b].0 by {
        if a < s.len() && b < s.len() {
            assert(s[a].0 != s[b].0);
        } else if a < s.len() {
            assert(s[a].0 != k);
        } else {
            assert(s[b].0 != k);
        }
    }
    let m = assoc_map(s).insert(k, v);
    assert forall|q: K| #[trigger] assoc_map(t).dom().contains(q) == m.dom().contains(q) by {
        if m.dom().contains(q) && q != k {
            let j = choose|j: int| 0 <= j < s.len() && s[j].0 == q;
            assert(t[j].0 == q);
        }
        if q == k {
            assert(t[s.len() as int].0 == q);
        }
        if assoc_map(t).dom().contains(q) {
            let j = choose|j: int| 0 <= j < t.len() && t[j].0 == q;
            if j < s.len() {
                assert(s[j].0 == q);
            }
        }
    }
    assert forall|q: K| assoc_map(t).dom().contains(q) implies #[trigger] assoc_map(t)[q] == m[q] by {
        let j = choose|j: int| 0 <= j < t.len() && t[j].0 == q;
        if q == k {
            assert(t[s.len() as int].0 == q);
            if j < s.len() {
                assert(s[j].0 == k);
            }
        } else {
            assert(s[j].0 == q);
        }
    }
    assert(assoc_map(t) =~= m);
}

/// `s` joined with `, `.
pub open spec fn join_comma(s: Seq<Seq<char>>) -> Seq<char>
    decreases s.len(),
{
    if s.len() == 0 {
        Seq::empty()
    } else if s.len() == 1 {
        s[0]
    } else {
        join_comma(s.drop_last()) + ", "@ + s.last()
    }
}

/// The methods an `OPTIONS` request reports for a path whose methods were
/// registered in the order `ms`: those, then `OPTIONS` if absent, then `HEAD`
/// if `GET` is there and `HEAD` is not.
pub open spec fn allowed_methods(ms: Seq<HttpMethod>) -> Seq<HttpMethod> {
    let with_options = if ms.contains(HttpMethod::Options) {
        ms
    } else {
        ms.push(HttpMethod::Options)
    };
    if with_options.contains(HttpMethod::Get) && !with_options.contains(HttpMethod::Head) {
        with_options.push(HttpMethod::Head)
    } else {
        with_options
    }
}

/// The value of the `Allow` header for those methods.
pub open spec fn allow_value(ms: Seq<HttpMethod>) -> Seq<char> {
    join_comma(allowed_methods(ms).map_values(|m: HttpMethod| method_token(m)))
}

/// What the server does with a request whose path and method are known.
pub enum Plan<'a, H> {
    /// No handler is registered under the path: a 404 is sent.
    NotFound,
    /// A `HEAD` request for a path without `GET`: a 405 is sent.
    MethodNotAllowed,
    /// A response is built: the handler runs on it, if there is one.
    Respond {
        handler: Option<&'a H>,
        /// Only the head is sent (`HEAD` and `OPTIONS`).
        head_only: bool,
        /// For `OPTIONS`: the value of the `Allow` header; the status is
        /// then 204 before the handler runs.
        allow: Option<String>,
    },
}

/// The registry of handlers by path and method, and the address to serve on.
pub struct WebServer<H> {
    address: String,
    routes: Vec<(HttpPath, Vec<(HttpMethod, H)>)>,
}

impl<H> WebServer<H> {
    /// The entry for each path, in the order paths were first registered.
    pub closed spec fn entries(&self) -> Seq<(Seq<char>, Seq<(HttpMethod, H)>)> {
        Seq::new(self.routes@.len(), |i: int| (self.routes@[i].0@, self.routes@[i].1@))
    }

    /// The address the server is to listen on.
    pub closed spec fn address_view(&self) -> Seq<char> {
        self.address@
    }

    /// Each path once, each method once under a path.
    pub open spec fn wf(&self) -> bool {
        &&& unique_keys(self.entries())
        &&& forall|i: int| 0 <= i < self.entries().len() ==> unique_keys(#[trigger] self.entries()[i].1)
    }

    /// The registry as a map from path to method to handler.
    pub open spec fn routes(&self) -> Map<Seq<char>, Map<HttpMethod, H>> {
        assoc_map(self.entries()).map_values(|ms: Seq<(HttpMethod, H)>| assoc_map(ms))
    }

    /// An empty registry for a server on `address`.
    pub fn new(address: String) -> (r: Self)
        ensures
            r.wf(),
            r.routes() == Map::<Seq<char>, Map<HttpMethod, H>>::empty(),
            r.address_view() == address@,
    {
        let r = WebServer { address, routes: Vec::new() };
        assert(r.routes() =~= Map::<Seq<char>, Map<HttpMethod, H>>::empty());
        r
    }

    /// The address the server is to listen on.
    pub fn address(&self) -> (r: &str)
        ensures
            r@ == self.address_view(),
    {
        self.address.as_str()
    }

    /// The position of the entry for `path`, if any.
    fn find_path(&self, path: &HttpPath) -> (r: Option<usize>)
        ensures
            r matches Some(i) ==> i < self.entries().len() && self.entries()[i as int].0 == path@,
            r is None ==> !assoc_map(self.entries()).dom().contains(path@),
    {
        let mut i: usize = 0;
        while i < self.routes.len()
            invariant
                0 <= i <= self.routes@.len(),
                forall|j: int| 0 <= j < i ==> #[trigger] self.entries()[j].0 != path@,
            decreases self.routes.len() - i,
        {
            if self.routes[i].0.same(path) {
                return Some(i);
            }
            i += 1;
        }
        None
    }

    /// Registers `handler` for `method` on `path`, replacing an earlier one.
    pub fn add_route(&mut self, method: HttpMethod, path: HttpPath, handler: H)
        requires
            old(self).wf(),
        ensures
            final(self).wf(),
            final(self).address_view() == old(self).address_view(),
            final(self).routes() == old(self).routes().insert(
                path@,
                if old(self).routes().contains_key(path@) {
                    old(self).routes()[path@]
                } else {
                    Map::empty()
                }.insert(method, handler),
            ),
    {
        let ghost e0 = self.entries();
        match self.find_path(&path) {
            Some(i) => {
                let (p, mut ms) = self.routes.remove(i);
                let ghost ms0 = ms@;
                assert(ms0 == e0[i as int].1);
                let mut j: usize = 0;
                while j < ms.len()
                    invariant
                        0 <= j <= ms@.len(),
                        ms@ == ms0,
                        forall|k: int| 0 <= k < j ==> #[trigger] ms@[k].0 != method,
                    ensures
                        0 <= j <= ms@.len(),
                        forall|k: int| 0 <= k < j ==> #[trigger] ms@[k].0 != method,
                        j < ms@.len() ==> ms@[j as int].0 == method,
                    decreases ms.len() - j,
                {
                    if ms[j].0 == method {
                        break;
                    }
                    j += 1;
                }
                if j < ms.len() {
                    ms.set(j, (method, handler));
                    proof {
                        lemma_assoc_update(ms0, j as int, method, handler);
                    }
                } else {
                    ms.push((method, handler));
                    proof {
                        lemma_assoc_push(ms0, method, handler);
                    }
                }
                let ghost ms1 = ms@;
                self.routes.insert(i, (p, ms));
                proof {
                    let e1 = self.entries();
                    assert(e1 =~= e0.update(i as int, (path@, ms1)));
                    lemma_assoc_update(e0, i as int, path@, ms1);
                    assert(assoc_map(e0)[path@] == ms0);
                    assert(self.routes() =~= old(self).routes().insert(
                        path@,
                        old(self).routes()[path@].insert(method, handler),
                    ));
                }
            },
            None => {
                let mut ms: Vec<(HttpMethod, H)> = Vec::new();
                ms.push((method, handler));
                let ghost ms1 = ms@;
                let ghost p = path@;
                self.routes.push((path, ms));
                proof {
                    let e1 = self.entries();
                    assert(e1 =~= e0.push((p, ms1)));
                    lemma_assoc_push(e0, p, ms1);
                    let empty = Seq::<(HttpMethod, H)>::empty();
                    assert(assoc_map(empty) =~= Map::<HttpMethod, H>::empty());
                    lemma_assoc_push(empty, method, handler);
                    assert(ms1 == empty.push((method, handler)));
                    assert(self.routes() =~= old(self).routes().insert(
                        p,
                        Map::<HttpMethod, H>::empty().insert(method, handler),
                    ));
                }
            },
        }
    }

    /// Registers `handler` for GET requests on `path`.
    pub fn get(&mut self, path: HttpPath, handler: H)
        requires
            old(self).wf(),
        ensures
            final(self).wf(),
            final(self).address_view() == old(self).address_view(),
            final(self).routes() == old(self).routes().insert(
                path@,
                if old(self).routes().contains_key(path@) {
                    old(self).routes()[path@]
                } else {
                    Map::empty()
                }.insert(HttpMethod::Get, handler),
            ),
    {
        self.add_route(HttpMethod::Get, path, handler);
    }

    /// Registers `handler` for POST requests on `path`.
    pub fn post(&mut self, path: HttpPath, handler: H)
        requires
            old(self).wf(),
        ensures
            final(self).wf(),
            final(self).address_view() == old(self).address_view(),
            final(self).routes() == old(self).routes().insert(
                path@,
                if old(self).routes().contains_key(path@) {
                    old(self).routes()[path@]
                } else {
                    Map::empty()
                }.insert(HttpMethod::Post, handler),
            ),
    {
        self.add_route(HttpMethod::Post, path, handler);
    }

    /// The methods registered under `p`, in the order they were first registered.
    pub open spec fn method_order(&self, p: Seq<char>) -> Seq<HttpMethod> {
        assoc_map(self.entries())[p].map_values(|e: (HttpMethod, H)| e.0)
    }

    /// The handlers registered under `path`.
    pub fn lookup_path(&self, path: &HttpPath) -> (r: Option<&Vec<(HttpMethod, H)>>)
        requires
            self.wf(),
        ensures
            r is Some == self.routes().contains_key(path@),
            r matches Some(ms) ==> assoc_map(ms@) == self.routes()[path@] && unique_keys(ms@)
                && ms@.map_values(|e: (HttpMethod, H)| e.0) == self.method_order(path@),
    {
        match self.find_path(path) {
            Some(i) => {
                proof {
                    let e = self.entries();
                    let j = choose|j: int| 0 <= j < e.len() && e[j].0 == path@;
                    assert(e[i as int].1 == self.routes@[i as int].1@);
                    if j != i {
                        assert(e[i as int].0 != e[j].0);
                    }
                }
                Some(&self.routes[i].1)
            },
            None => None,
        }
    }

    /// The handler registered for `method` on `path`.
    pub fn lookup(&self, path: &HttpPath, method: HttpMethod) -> (r: Option<&H>)
        requires
            self.wf(),
        ensures
            r is Some == (self.routes().contains_key(path@) && self.routes()[path@].contains_key(method)),
            r matches Some(h) ==> *h == self.routes()[path@][method],
    {
        match self.lookup_path(path) {
            Some(ms) => find_method(ms, method),
            None => None,
        }
    }

    /// Decides what is done with a request for `method` on `path`. A method
    /// other than HEAD and OPTIONS on a known path gets a response whether or
    /// not a handler is registered for it: without one, the default 204.
    /// A HEAD request on a path with GET builds the response as GET would:
    /// the handler registered under HEAD runs if there is one, else the GET
    /// handler; only the head is sent.
    pub fn plan(&self, method: HttpMethod, path: &HttpPath) -> (r: Plan<'_, H>)
        requires
            self.wf(),
        ensures
            plan_matches(self.routes(), self.method_order(path@), method, path@, r),
    {
        let ms = match self.lookup_path(path) {
            None => {
                return Plan::NotFound;
            },
            Some(ms) => ms,
        };
        let handler = find_method(ms, method);
        match method {
            HttpMethod::Head => {
                let get = find_method(ms, HttpMethod::Get);
                if get.is_some() {
                    let handler = if handler.is_some() { handler } else { get };
                    Plan::Respond { handler, head_only: true, allow: None }
                } else {
                    Plan::MethodNotAllowed
                }
            },
            HttpMethod::Options => {
                let allow = allow_header(ms);
                Plan::Respond { handler, head_only: true, allow: Some(allow) }
            },
            _ => Plan::Respond { handler, head_only: false, allow: None },
        }
    }
}

/// Whether `r` is the plan owed for `method` on `path`, given the registry
/// `routes` and the order `order` in which the path's methods were registered.
pub open spec fn plan_matches<H>(
    routes: Map<Seq<char>, Map<HttpMethod, H>>,
    order: Seq<HttpMethod>,
    method: HttpMethod,
    path: Seq<char>,
    r: Plan<'_, H>,
) -> bool {
    if !routes.contains_key(path) {
        r is NotFound
    } else if method == HttpMethod::Head && !routes[path].contains_key(HttpMethod::Get) {
        r is MethodNotAllowed
    } else {
        r matches Plan::Respond { handler, head_only, allow } && {
            &&& handler is Some == (routes[path].contains_key(method) || method == HttpMethod::Head)
            &&& handler matches Some(h) ==> *h == if method == HttpMethod::Head
                && !routes[path].contains_key(HttpMethod::Head) {
                routes[path][HttpMethod::Get]
            } else {
                routes[path][method]
            }
            &&& head_only == (method == HttpMethod::Head || method == HttpMethod::Options)
            &&& allow is Some == (method == HttpMethod::Options)
            &&& allow matches Some(a) ==> a@ == allow_value(order)
        }
    }
}

/// The handler stored under `m`.
fn find_method<H>(ms: &Vec<(HttpMethod, H)>, m: HttpMethod) -> (r: Option<&H>)
    requires
        unique_keys(ms@),
    ensures
        r is Some == assoc_map(ms@).contains_key(m),
        r matches Some(h) ==> *h == assoc_map(ms@)[m],
{
    let mut i: usize = 0;
    while i < ms.len()
        invariant
            0 <= i <= ms@.len(),
            unique_keys(ms@),
            forall|k: int| 0 <= k < i ==> #[trigger] ms@[k].0 != m,
        decreases ms.len() - i,
    {
        if ms[i].0 == m {
            proof {
                let j = choose|j: int| 0 <= j < ms@.len() && ms@[j].0 == m;
                if j != i {
                    assert(ms@[j].0 != ms@[i as int].0);
                }
            }
            return Some(&ms[i].1);
        }
        i += 1;
    }
    None
}

/// Whether `m` is in `l`.
fn has_method(l: &Vec<HttpMethod>, m: HttpMethod) -> (r: bool)
    ensures
        r == l@.contains(m),
{
    let mut i: usize = 0;
    while i < l.len()
        invariant
            0 <= i <= l@.len(),
            forall|k: int| 0 <= k < i ==> l@[k] != m,
        decreases l.len() - i,
    {
        if l[i] == m {
            assert(l@[i as int] == m);
            return true;
        }
        i += 1;
    }
    false
}

/// The `Allow` header for a path whose handlers are `ms`.
fn allow_header<H>(ms: &Vec<(HttpMethod, H)>) -> (r: String)
    ensures
        r@ == allow_value(ms@.map_values(|e: (HttpMethod, H)| e.0)),
{
    let ghost order = ms@.map_values(|e: (HttpMethod, H)| e.0);
    let mut list: Vec<HttpMethod> = Vec::new();
    let mut i: usize = 0;
    while i < ms.len()
        invariant
            0 <= i <= ms@.len(),
            order == ms@.map_values(|e: (HttpMethod, H)| e.0),
            list@ == order.subrange(0, i as int),
        decreases ms.len() - i,
    {
        list.push(ms[i].0);
        assert(order.subrange(0, i + 1) == order.subrange(0, i as int).push(order[i as int]));
        i += 1;
    }
    assert(order.subrange(0, order.len() as int) == order);
    if !has_method(&list, HttpMethod::Options) {
        list.push(HttpMethod::Options);
    }
    if has_method(&list, HttpMethod::Get) && !has_method(&list, HttpMethod::Head) {
        list.push(HttpMethod::Head);
    }
    let ghost toks = list@.map_values(|m: HttpMethod| method_token(m));
    assert(list@ == allowed_methods(order));
    let mut out = String::new();
    let mut k: usize = 0;
    proof {
        reveal_strlit(", ");
        assert(toks.subrange(0, 0) =~= Seq::<Seq<char>>::empty());
    }
    while k < list.len()
        invariant
            0 <= k <= list@.len(),
            toks == list@.map_values(|m: HttpMethod| method_token(m)),
            out@ == join_comma(toks.subrange(0, k as int)),
        decreases list.len() - k,
    {
        if k > 0 {
            append(&mut out, ", ");
        }
        append(&mut out, list[k].as_str());
        proof {
            let s1 = toks.subrange(0, k + 1);
            assert(s1.drop_last() == toks.subrange(0, k as int));
            assert(s1.last() == method_token(list@[k as int]));
            if k == 0 {
                assert(out@ =~= s1[0]);
            } else {
                assert(out@ =~= join_comma(s1.drop_last()) + ", "@ + s1.last());
            }
        }
        k += 1;
    }
    assert(toks.subrange(0, toks.len() as int) == toks);
    out
}

/// The response a connection gets for a path without handlers.
pub fn not_found_text() -> (r: String)
    ensures
        r@ == "HTTP/1.1 404 NOT FOUND\r\n\r\n"@,
{
    "HTTP/1.1 404 NOT FOUND\r\n\r\n".to_owned()
}

/// The response a connection gets for a HEAD request on a path without GET.
pub fn method_not_allowed_text() -> (r: String)
    ensures
        r@ == "HTTP/1.1 405 METHOD NOT ALLOWED\r\n\r\n"@,
{
    "HTTP/1.1 405 METHOD NOT ALLOWED\r\n\r\n".to_owned()
}

/// The response a connection gets when its request cannot be decoded; the
/// body, if any, describes why.
pub fn bad_request_text(body: Option<String>) -> (r: String)
    ensures
        r@ == "HTTP/1.1 400 BAD REQUEST\r\n\r\n"@ + match body {
            Some(b) => b@,
            None => Seq::empty(),
        },
{
    let mut r = "HTTP/1.1 400 BAD REQUEST\r\n\r\n".to_owned();
    match body {
        Some(b) => {
            append(&mut r, b.as_str());
        },
        None => {
            assert(r@ =~= r@ + Seq::<char>::empty());
        },
    }
    r
}

/// The response a plan starts from, before its handler runs: a fresh
/// response with the default headers; for `OPTIONS` (an `Allow` value given)
/// status 204 is chosen and `Allow` set.
pub fn start_response(allow: Option<String>) -> (r: Response)
    ensures
        r.wf(),
        r.code() == 204,
        r.body_text().len() == 0,
        r.status_chosen() == (allow is Some),
        r.header_map() == match allow {
            Some(a) => default_headers(r.header_map()["Date"@]).insert("Allow"@, a@),
            None => default_headers(r.header_map()["Date"@]),
        },
{
    let mut r = Response::new();
    let ghost d = r.header_map()["Date"@];
    match allow {
        Some(a) => {
            r.status(204);
            proof {
                reveal_strlit("Allow");
                reveal_strlit("Date");
            }
            r.set_header("Allow".to_owned(), a);
            assert("Allow"@[0] != "Date"@[0]);
            assert(r.header_map()["Date"@] == d);
        },
        None => {},
    }
    r
}

/// The bytes sent for a response: the head alone for `HEAD` and `OPTIONS`,
/// else the head and the body. `Content-Length` and `ETag` are added to the
/// headers first.
pub fn finish(res: &mut Response, head_only: bool) -> (r: String)
    requires
        old(res).wf(),
    ensures
        final(res).wf(),
        final(res).header_map() == old(res).header_map().insert(
            content_length_header(),
            decimal(encode_utf8(old(res).body_text()).len()),
        ).insert(etag_header(), etag_of(encode_utf8(old(res).body_text()))),
        final(res).code() == old(res).code(),
        final(res).status_chosen() == old(res).status_chosen(),
        final(res).body_text() == old(res).body_text(),
        head_only ==> r@ == head_text(final(res).code(), final(res).header_view()),
        !head_only ==> r@ == head_text(final(res).code(), final(res).header_view()) + final(res).body_text(),
        finished(*old(res), *final(res), head_only, r@),
{
    if head_only {
        res.build_head()
    } else {
        res.build_response()
    }
}

/// `after` and the bytes `w` are what [`finish`] makes of `before`.
pub open spec fn finished(before: Response, after: Response, head_only: bool, w: Seq<char>) -> bool {
    &&& after.wf()
    &&& after.header_map() == before.header_map().insert(
        content_length_header(),
        decimal(encode_utf8(before.body_text()).len()),
    ).insert(etag_header(), etag_of(encode_utf8(before.body_text())))
    &&& after.code() == before.code()
    &&& after.body_text() == before.body_text()
    &&& w == head_text(after.code(), after.header_view()) + if head_only {
        Seq::<char>::empty()
    } else {
        after.body_text()
    }
}

/// The bytes sent for a response carry every header it had when finished
/// (but `Content-Length` and `ETag`, which are recomputed), and a
/// `Content-Length` line with the body's length in bytes; they start with the
/// status line of its code, and end with the body unless only the head is sent.
pub proof fn lemma_sent_bytes(before: Response, after: Response, head_only: bool, w: Seq<char>, k: Seq<char>)
    requires
        before.wf(),
        finished(before, after, head_only, w),
        before.header_map().contains_key(k),
        k != content_length_header(),
        k != etag_header(),
    ensures
        has_header_line(w, k, before.header_map()[k]),
        has_header_line(w, content_length_header(), decimal(encode_utf8(before.body_text()).len())),
        w.subrange(0, status_line(before.code()).len() as int) == status_line(before.code()),
        !head_only ==> w.subrange(w.len() - before.body_text().len(), w.len() as int) == before.body_text(),
{
    let rest = if head_only { Seq::<char>::empty() } else { after.body_text() };
    let s = after.header_view();
    assert(w == head_text(after.code(), s) + rest);
    assert(head_text(after.code(), s) == head_text(after.code(), s) + Seq::<char>::empty());
    assert(fields_map(s) == after.header_map());
    assert(after.header_map()[k] == before.header_map()[k]);
    lemma_head_has_header(after.code(), s, k, rest);
    reveal_strlit("Content-Length");
    reveal_strlit("ETag");
    assert(content_length_header()[0] != etag_header()[0]);
    assert(after.header_map()[content_length_header()] == decimal(encode_utf8(before.body_text()).len()));
    lemma_head_has_header(after.code(), s, content_length_header(), rest);
    assert(w.subrange(0, status_line(before.code()).len() as int) =~= status_line(before.code()));
    if !head_only {
        assert(w.subrange(w.len() - before.body_text().len(), w.len() as int) =~= before.body_text());
    }
}

/// A GET handler that sends `t` as HTML on a fresh response leads to bytes
/// with status line 200, the `Content-Type: text/html; charset=utf-8` line,
/// and `t` as the body; the same with `application/json` for `json`.
pub proof fn lemma_sent_text(
    r0: Response,
    r1: Response,
    r2: Response,
    w: Seq<char>,
    t: Seq<char>,
    as_json: bool,
)
    requires
        r0.wf(),
        r0.code() == 204,
        !r0.status_chosen(),
        r1.wf(),
        r1.code() == 200,
        r1.header_map() == r0.header_map().insert(
            content_type_name(),
            if as_json { json_type() } else { html_type() },
        ),
        r1.body_text() == t,
        finished(r1, r2, false, w),
    ensures
        w.subrange(0, status_line(200).len() as int) == status_line(200),
        has_header_line(w, content_type_name(), if as_json { json_type() } else { html_type() }),
        w.subrange(w.len() - t.len(), w.len() as int) == t,
{
    reveal_strlit("Content-Type");
    reveal_strlit("Content-Length");
    reveal_strlit("ETag");
    assert(content_type_name()[8] != content_length_header()[8]);
    assert(content_type_name()[1] != etag_header()[1]);
    lemma_sent_bytes(r1, r2, false, w, content_type_name());
}

/// A request for a path without handlers is answered with 404, whatever its method.
pub proof fn lemma_unknown_path_not_found<H>(
    routes: Map<Seq<char>, Map<HttpMethod, H>>,
    order: Seq<HttpMethod>,
    method: HttpMethod,
    path: Seq<char>,
    r: Plan<'_, H>,
)
    requires
        plan_matches(routes, order, method, path, r),
        !routes.contains_key(path),
    ensures
        r is NotFound,
{
}

/// A HEAD request on a known path is answered with 405 where the path has
/// no GET handler; else the response is built as for GET (by the HEAD
/// handler if there is one, else the GET handler) and only its head is sent.
pub proof fn lemma_head_dispatch<H>(
    routes: Map<Seq<char>, Map<HttpMethod, H>>,
    order: Seq<HttpMethod>,
    path: Seq<char>,
    r: Plan<'_, H>,
)
    requires
        plan_matches(routes, order, HttpMethod::Head, path, r),
        routes.contains_key(path),
    ensures
        !routes[path].contains_key(HttpMethod::Get) ==> r is MethodNotAllowed,
        routes[path].contains_key(HttpMethod::Get) && !routes[path].contains_key(HttpMethod::Head)
            ==> (r matches Plan::Respond { handler: Some(h), head_only: true, allow: None } && *h
            == routes[path][HttpMethod::Get]),
        routes[path].contains_key(HttpMethod::Get) && routes[path].contains_key(HttpMethod::Head)
            ==> (r matches Plan::Respond { handler: Some(h), head_only: true, allow: None } && *h
            == routes[path][HttpMethod::Head]),
{
}

/// A GET request on a path with a GET handler runs that handler, and the
/// whole response (head and body) is sent.
pub proof fn lemma_get_runs_handler<H>(
    routes: Map<Seq<char>, Map<HttpMethod, H>>,
    order: Seq<HttpMethod>,
    path: Seq<char>,
    r: Plan<'_, H>,
)
    requires
        plan_matches(routes, order, HttpMethod::Get, path, r),
        routes.contains_key(path),
        routes[path].contains_key(HttpMethod::Get),
    ensures
        r matches Plan::Respond { handler: Some(h), head_only: false, allow: None } && *h
            == routes[path][HttpMethod::Get],
{
}

/// An OPTIONS request on a path registered for GET alone reports exactly
/// GET, HEAD and OPTIONS in `Allow`, each once, and runs no handler.
pub proof fn lemma_options_get_only<H>(s: WebServer<H>, path: Seq<char>, r: Plan<'_, H>)
    requires
        s.wf(),
        s.routes().contains_key(path),
        s.routes()[path].dom() == set![HttpMethod::Get],
        plan_matches(s.routes(), s.method_order(path), HttpMethod::Options, path, r),
    ensures
        r matches Plan::Respond { handler: None, head_only: true, allow: Some(a) } && a@
            == "GET, OPTIONS, HEAD"@,
        allowed_methods(s.method_order(path)) == seq![
            HttpMethod::Get,
            HttpMethod::Options,
            HttpMethod::Head,
        ],
        allowed_methods(s.method_order(path)).to_set() == set![
            HttpMethod::Get,
            HttpMethod::Head,
            HttpMethod::Options,
        ],
{
    let e = s.entries();
    let i = choose|i: int| 0 <= i < e.len() && e[i].0 == path;
    let ms = e[i].1;
    assert(assoc_map(e)[path] == ms);
    assert(unique_keys(ms));
    assert(assoc_map(ms).dom().contains(HttpMethod::Get));
    let k = choose|k: int| 0 <= k < ms.len() && ms[k].0 == HttpMethod::Get;
    assert forall|j: int| 0 <= j < ms.len() implies ms[j].0 == HttpMethod::Get by {
        assert(assoc_map(ms).dom().contains(ms[j].0));
    }
    if ms.len() > 1 {
        assert(ms[0].0 == ms[1].0);
    }
    let order = s.method_order(path);
    assert(order =~= seq![HttpMethod::Get]);
    let with_options = seq![HttpMethod::Get, HttpMethod::Options];
    assert(!order.contains(HttpMethod::Options)) by {
        assert(order[0] != HttpMethod::Options);
    }
    assert(order.push(HttpMethod::Options) =~= with_options);
    assert(with_options.contains(HttpMethod::Get)) by {
        assert(with_options[0] == HttpMethod::Get);
    }
    assert(!with_options.contains(HttpMethod::Head)) by {
        assert(with_options[0] != HttpMethod::Head && with_options[1] != HttpMethod::Head);
    }
    let all = seq![HttpMethod::Get, HttpMethod::Options, HttpMethod::Head];
    assert(allowed_methods(order) =~= all);
    let toks = all.map_values(|m: HttpMethod| method_token(m));
    reveal_strlit("GET, OPTIONS, HEAD");
    reveal_strlit(", ");
    let t1 = toks.drop_last().drop_last();
    let t2 = toks.drop_last();
    assert(t1 =~= seq![method_token(HttpMethod::Get)]);
    assert(join_comma(t1) == method_token(HttpMethod::Get));
    assert(t2.drop_last() == t1);
    assert(join_comma(t2) == join_comma(t1) + ", "@ + method_token(HttpMethod::Options));
    assert(join_comma(toks) == join_comma(t2) + ", "@ + method_token(HttpMethod::Head));
    assert(join_comma(toks) =~= "GET, OPTIONS, HEAD"@);
    assert(all.to_set() =~= set![HttpMethod::Get, HttpMethod::Head, HttpMethod::Options]) by {
        assert(all[0] == HttpMethod::Get && all[1] == HttpMethod::Options && all[2] == HttpMethod::Head);
    }
}

/// The whole exchange for GET on a path with a GET handler that sends `t` as
/// HTML (`r0` the fresh response, `r1` after the handler, `r2` and `w` what
/// [`finish`] makes): that handler is the one run, and the bytes are a 200
/// head whose header names strictly increase, with the line
/// `Content-Type: text/html; charset=utf-8`, followed by exactly `t`.
pub proof fn lemma_get_exchange<H>(
    s: WebServer<H>,
    path: Seq<char>,
    r: Plan<'_, H>,
    r0: Response,
    r1: Response,
    r2: Response,
    w: Seq<char>,
    t: Seq<char>,
)
    requires
        s.wf(),
        s.routes().contains_key(path),
        s.routes()[path].contains_key(HttpMethod::Get),
        plan_matches(s.routes(), s.method_order(path), HttpMethod::Get, path, r),
        r0.wf(),
        r0.code() == 204,
        !r0.status_chosen(),
        r1.wf(),
        r1.code() == 200,
        r1.header_map() == r0.header_map().insert(content_type_name(), html_type()),
        r1.body_text() == t,
        finished(r1, r2, false, w),
    ensures
        r matches Plan::Respond { handler: Some(h), head_only: false, allow: None } && *h
            == s.routes()[path][HttpMethod::Get],
        w.subrange(0, status_line(200).len() as int) == "HTTP/1.1 200 OK\r\n"@,
        has_header_line(w, "Content-Type"@, "text/html; charset=utf-8"@),
        w == head_text(200, r2.header_view()) + t,
        sorted_names(r2.header_view()),
{
    lemma_status_lines();
    lemma_sent_text(r0, r1, r2, w, t, false);
}

/// The whole exchange for HEAD on a path with a GET handler and no HEAD
/// handler, the GET handler sending `t` as HTML: the GET handler is the one
/// run, and the bytes are the 200 head alone, `t` never sent.
pub proof fn lemma_head_exchange<H>(
    s: WebServer<H>,
    path: Seq<char>,
    r: Plan<'_, H>,
    r0: Response,
    r1: Response,
    r2: Response,
    w: Seq<char>,
    t: Seq<char>,
)
    requires
        s.wf(),
        s.routes().contains_key(path),
        s.routes()[path].contains_key(HttpMethod::Get),
        !s.routes()[path].contains_key(HttpMethod::Head),
        plan_matches(s.routes(), s.method_order(path), HttpMethod::Head, path, r),
        r0.wf(),
        r0.code() == 204,
        !r0.status_chosen(),
        r1.wf(),
        r1.code() == 200,
        r1.header_map() == r0.header_map().insert(content_type_name(), html_type()),
        r1.body_text() == t,
        finished(r1, r2, true, w),
    ensures
        r matches Plan::Respond { handler: Some(h), head_only: true, allow: None } && *h
            == s.routes()[path][HttpMethod::Get],
        w.subrange(0, status_line(200).len() as int) == "HTTP/1.1 200 OK\r\n"@,
        w == head_text(200, r2.header_view()),
        has_header_line(w, "Content-Type"@, "text/html; charset=utf-8"@),
{
    lemma_status_lines();
    reveal_strlit("Content-Type");
    reveal_strlit("Content-Length");
    reveal_strlit("ETag");
    assert(content_type_name()[8] != content_length_header()[8]);
    assert(content_type_name()[1] != etag_header()[1]);
    lemma_sent_bytes(r1, r2, true, w, content_type_name());
    assert(w =~= head_text(200, r2.header_view()));
}

/// The whole exchange for OPTIONS on a path registered for GET alone, with
/// no OPTIONS handler: no handler runs, and the bytes are a 204 head alone
/// whose `Allow` line (the only one: names are unique) lists GET, OPTIONS and
/// HEAD, each once.
pub proof fn lemma_options_exchange<H>(
    s: WebServer<H>,
    path: Seq<char>,
    r: Plan<'_, H>,
    r0: Response,
    r1: Response,
    w: Seq<char>,
)
    requires
        s.wf(),
        s.routes().contains_key(path),
        s.routes()[path].dom() == set![HttpMethod::Get],
        plan_matches(s.routes(), s.method_order(path), HttpMethod::Options, path, r),
        r0.wf(),
        r0.code() == 204,
        r matches Plan::Respond { allow: Some(a), .. } ==> r0.header_map() == default_headers(
            r0.header_map()["Date"@],
        ).insert("Allow"@, a@),
        finished(r0, r1, true, w),
    ensures
        r matches Plan::Respond { handler: None, head_only: true, allow: Some(_) },
        w.subrange(0, status_line(204).len() as int) == "HTTP/1.1 204 No Content\r\n"@,
        w == head_text(204, r1.header_view()),
        has_header_line(w, "Allow"@, "GET, OPTIONS, HEAD"@),
        sorted_names(r1.header_view()),
        r1.header_map()["Allow"@] == "GET, OPTIONS, HEAD"@,
{
    lemma_options_get_only(s, path, r);
    lemma_status_lines();
    reveal_strlit("Allow");
    reveal_strlit("Content-Length");
    reveal_strlit("ETag");
    assert("Allow"@[0] != content_length_header()[0]);
    assert("Allow"@[0] != etag_header()[0]);
    lemma_sent_bytes(r0, r1, true, w, "Allow"@);
    assert(w =~= head_text(204, r1.header_view()));
}

} // verus!
