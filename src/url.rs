use vstd::prelude::*;
use vstd::string::StringExecFns;

use crate::text::{chars_of, find, find_char, lemma_find_at, lemma_find_facts, slice_chars, string_of};

verus! {

/// The scheme prefix that a URL must start with.
pub open spec fn http_prefix() -> Seq<char> {
    seq!['h', 't', 't', 'p', ':', '/', '/']
}

pub open spec fn is_http_url(raw: Seq<char>) -> bool {
    raw.len() >= 7 && raw.subrange(0, 7) == http_prefix()
}

/// What follows `http://`.
pub open spec fn url_rest(raw: Seq<char>) -> Seq<char> {
    raw.subrange(7, raw.len() as int)
}

/// The part of the rest before its first `/`.
pub open spec fn url_authority(raw: Seq<char>) -> Seq<char> {
    let rest = url_rest(raw);
    let i = find(rest, '/');
    if i < 0 {
        rest
    } else {
        rest.subrange(0, i)
    }
}

pub open spec fn url_host(raw: Seq<char>) -> Seq<char> {
    let a = url_authority(raw);
    let i = find(a, ':');
    if i < 0 {
        a
    } else {
        a.subrange(0, i)
    }
}

pub open spec fn default_port() -> Seq<char> {
    seq!['8', '0']
}

pub open spec fn url_port(raw: Seq<char>) -> Seq<char> {
    let a = url_authority(raw);
    let i = find(a, ':');
    if i < 0 {
        default_port()
    } else {
        a.subrange(i + 1, a.len() as int)
    }
}

/// The part after the first `/` of the rest, if there is one.
pub open spec fn url_tail(raw: Seq<char>) -> Seq<char> {
    let rest = url_rest(raw);
    rest.subrange(find(rest, '/') + 1, rest.len() as int)
}

pub open spec fn url_path(raw: Seq<char>) -> Seq<char> {
    if find(url_rest(raw), '/') < 0 {
        Seq::empty()
    } else {
        let t = url_tail(raw);
        let q = find(t, '?');
        if q < 0 {
            t
        } else {
            t.subrange(0, q)
        }
    }
}

pub open spec fn url_query(raw: Seq<char>) -> Seq<char> {
    if find(url_rest(raw), '/') < 0 {
        Seq::empty()
    } else {
        let t = url_tail(raw);
        let q = find(t, '?');
        if q < 0 {
            Seq::empty()
        } else {
            t.subrange(q + 1, t.len() as int)
        }
    }
}

/// The text of a URL made of the four parts.
pub open spec fn url_text(host: Seq<char>, port: Seq<char>, path: Seq<char>, query: Seq<char>) -> Seq<char> {
    http_prefix() + host + seq![':'] + port + seq!['/'] + path + seq!['?'] + query
}

/// Rebuilding a URL from the host, port, path and query that parsing gave, and parsing that text
/// again, gives back the same host, port, path and query.
pub proof fn lemma_url_round_trip(raw: Seq<char>)
    requires
        is_http_url(raw),
    ensures
        ({
            let t = url_text(url_host(raw), url_port(raw), url_path(raw), url_query(raw));
            is_http_url(t) && url_host(t) == url_host(raw) && url_port(t) == url_port(raw)
                && url_path(t) == url_path(raw) && url_query(t) == url_query(raw)
        }),
{
    let h = url_host(raw);
    let p = url_port(raw);
    let pa = url_path(raw);
    let q = url_query(raw);
    let t = url_text(h, p, pa, q);
    let rest = url_rest(raw);
    let a = url_authority(raw);
    lemma_find_facts(rest, '/');
    lemma_find_facts(a, ':');
    lemma_find_facts(url_tail(raw), '?');
    assert(forall|j: int| 0 <= j < h.len() ==> h[j] != '/' && h[j] != ':');
    assert(forall|j: int| 0 <= j < p.len() ==> p[j] != '/');
    assert(forall|j: int| 0 <= j < pa.len() ==> pa[j] != '?');
    assert(t.subrange(0, 7) =~= http_prefix());
    let rest_t = url_rest(t);
    assert(rest_t =~= h + seq![':'] + p + seq!['/'] + pa + seq!['?'] + q);
    let slash = (h.len() + 1 + p.len()) as int;
    assert(rest_t[slash] == '/');
    assert forall|j: int| 0 <= j < slash implies rest_t[j] != '/' by {
        if j < h.len() {
            assert(rest_t[j] == h[j]);
        } else if j > h.len() {
            assert(rest_t[j] == p[j - h.len() - 1]);
        }
    }
    lemma_find_at(rest_t, '/', slash);
    let a_t = url_authority(t);
    assert(a_t =~= h + seq![':'] + p);
    assert forall|j: int| 0 <= j < h.len() implies a_t[j] != ':' by {
        assert(a_t[j] == h[j]);
    }
    lemma_find_at(a_t, ':', h.len() as int);
    assert(url_host(t) =~= h);
    assert(url_port(t) =~= p);
    let tail_t = url_tail(t);
    assert(tail_t =~= pa + seq!['?'] + q);
    assert forall|j: int| 0 <= j < pa.len() implies tail_t[j] != '?' by {
        assert(tail_t[j] == pa[j]);
    }
    lemma_find_at(tail_t, '?', pa.len() as int);
    assert(url_path(t) =~= pa);
    assert(url_query(t) =~= q);
}

pub open spec fn scheme_error() -> Seq<char> {
    "Only HTTP scheme is supported."@
}

pub struct UrlView {
    pub raw: Seq<char>,
    pub host: Seq<char>,
    pub port: Seq<char>,
    pub path: Seq<char>,
    pub query: Seq<char>,
}

/// The view of a URL after a successful parse of `raw`.
pub open spec fn parsed_url(raw: Seq<char>) -> UrlView {
    UrlView {
        raw,
        host: url_host(raw),
        port: url_port(raw),
        path: url_path(raw),
        query: url_query(raw),
    }
}

#[derive(Debug)]
pub struct Url {
    url: String,
    host: String,
    port: String,
    path: String,
    searchpart: String,
}

impl View for Url {
    type V = UrlView;

    closed spec fn view(&self) -> UrlView {
        UrlView {
            raw: self.url@,
            host: self.host@,
            port: self.port@,
            path: self.path@,
            query: self.searchpart@,
        }
    }
}

impl PartialEq for Url {
    fn eq(&self, o: &Url) -> (r: bool) {
        self.url == o.url && self.host == o.host && self.port == o.port && self.path == o.path
            && self.searchpart == o.searchpart
    }
}

impl vstd::std_specs::cmp::PartialEqSpecImpl for Url {
    open spec fn obeys_eq_spec() -> bool {
        true
    }

    open spec fn eq_spec(&self, o: &Url) -> bool {
        self@ == o@
    }
}

impl Url {
    pub fn new(url: String) -> (r: Url)
        ensures
            r@ == (UrlView {
                raw: url@,
                host: Seq::empty(),
                port: Seq::empty(),
                path: Seq::empty(),
                query: Seq::empty(),
            }),
    {
        Url {
            url,
            host: String::new(),
            port: String::new(),
            path: String::new(),
            searchpart: String::new(),
        }
    }

    /// Splits the raw text into host, port, path and query. Only `http://` is accepted;
    /// on any other scheme `self` is left as it was.
    pub fn parse(&mut self) -> (r: Result<Url, String>)
        ensures
            match r {
                Ok(u) => is_http_url(old(self)@.raw) && u@ == parsed_url(old(self)@.raw)
                    && final(self)@ == u@,
                Err(e) => !is_http_url(old(self)@.raw) && e@ == scheme_error() && final(self)@
                    == old(self)@,
            },
    {
        if !self.is_http() {
            return Err(String::from_str("Only HTTP scheme is supported."));
        }
        self.host = self.extract_host();
        self.port = self.extract_port();
        self.path = self.extract_path();
        self.searchpart = self.extract_searchpart();
        Ok(
            Url {
                url: self.url.clone(),
                host: self.host.clone(),
                port: self.port.clone(),
                path: self.path.clone(),
                searchpart: self.searchpart.clone(),
            },
        )
    }

    /// The text the URL was made from.
    pub fn url(&self) -> (r: String)
        ensures
            r@ == self@.raw,
    {
        self.url.clone()
    }

    pub fn host(&self) -> (r: String)
        ensures
            r@ == self@.host,
    {
        self.host.clone()
    }

    pub fn port(&self) -> (r: String)
        ensures
            r@ == self@.port,
    {
        self.port.clone()
    }

    pub fn path(&self) -> (r: String)
        ensures
            r@ == self@.path,
    {
        self.path.clone()
    }

    pub fn searchpart(&self) -> (r: String)
        ensures
            r@ == self@.query,
    {
        self.searchpart.clone()
    }

    fn is_http(&self) -> (r: bool)
        ensures
            r == is_http_url(self@.raw),
    {
        let v = chars_of(self.url.as_str());
        let r = v.len() >= 7 && v[0] == 'h' && v[1] == 't' && v[2] == 't' && v[3] == 'p' && v[4] == ':'
            && v[5] == '/' && v[6] == '/';
        proof {
            if v@.len() >= 7 {
                let p = v@.subrange(0, 7);
                if r {
                    assert(p =~= http_prefix());
                } else {
                    assert(p[0] == http_prefix()[0] && p[1] == http_prefix()[1] && p[2]
                        == http_prefix()[2] && p[3] == http_prefix()[3] && p[4] == http_prefix()[4]
                        && p[5] == http_prefix()[5] && p[6] == http_prefix()[6] ==> r);
                }
            }
        }
        r
    }

    /// The text after `http://` and the part of it before its first `/`.
    fn authority(&self) -> (r: (Vec<char>, Vec<char>))
        requires
            is_http_url(self@.raw),
        ensures
            r.0@ == url_rest(self@.raw),
            r.1@ == url_authority(self@.raw),
    {
        let v = chars_of(self.url.as_str());
        let rest = slice_chars(&v, 7, v.len());
        let a = match find_char(&rest, '/') {
            Some(i) => slice_chars(&rest, 0, i),
            None => slice_chars(&rest, 0, rest.len()),
        };
        assert(rest@.subrange(0, rest@.len() as int) =~= rest@);
        (rest, a)
    }

    fn extract_host(&self) -> (r: String)
        requires
            is_http_url(self@.raw),
        ensures
            r@ == url_host(self@.raw),
    {
        let (_, a) = self.authority();
        proof {
            lemma_find_facts(a@, ':');
        }
        match find_char(&a, ':') {
            Some(i) => string_of(&slice_chars(&a, 0, i)),
            None => string_of(&a),
        }
    }

    fn extract_port(&self) -> (r: String)
        requires
            is_http_url(self@.raw),
        ensures
            r@ == url_port(self@.raw),
    {
        let (_, a) = self.authority();
        proof {
            lemma_find_facts(a@, ':');
        }
        match find_char(&a, ':') {
            Some(i) => string_of(&slice_chars(&a, i + 1, a.len())),
            None => {
                proof {
                    reveal_strlit("80");
                }
                String::from_str("80")
            },
        }
    }

    /// The text after the first `/` that follows the authority, if there is such a `/`.
    fn tail(&self) -> (r: Option<Vec<char>>)
        requires
            is_http_url(self@.raw),
        ensures
            match r {
                Some(t) => find(url_rest(self@.raw), '/') >= 0 && t@ == url_tail(self@.raw),
                None => find(url_rest(self@.raw), '/') < 0,
            },
    {
        let (rest, _) = self.authority();
        proof {
            lemma_find_facts(rest@, '/');
        }
        match find_char(&rest, '/') {
            Some(i) => Some(slice_chars(&rest, i + 1, rest.len())),
            None => None,
        }
    }

    fn extract_path(&self) -> (r: String)
        requires
            is_http_url(self@.raw),
        ensures
            r@ == url_path(self@.raw),
    {
        match self.tail() {
            Some(t) => {
                proof {
                    lemma_find_facts(t@, '?');
                }
                match find_char(&t, '?') {
                    Some(q) => string_of(&slice_chars(&t, 0, q)),
                    None => string_of(&t),
                }
            },
            None => String::new(),
        }
    }

    fn extract_searchpart(&self) -> (r: String)
        requires
            is_http_url(self@.raw),
        ensures
            r@ == url_query(self@.raw),
    {
        match self.tail() {
            Some(t) => {
                proof {
                    lemma_find_facts(t@, '?');
                }
                match find_char(&t, '?') {
                    Some(q) => string_of(&slice_chars(&t, q + 1, t.len())),
                    None => String::new(),
                }
            },
            None => String::new(),
        }
    }
}

} // verus!
