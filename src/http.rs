use vstd::prelude::*;
use vstd::string::StringExecFns;

use crate::error::Error;
use crate::text::{
    chars_of, decimal_value, find, find_blank_line, find_blank_line_chars, find_char, is_u32_text,
    normalize_newline_chars, normalize_newlines, parse_u32, slice_chars, split,
    split_chars, string_of, trim, trim_chars, trim_start, trim_start_chars, unsigned_digits, views,
};

verus! {

/// The response text after leading white space is dropped and each `\n\r` becomes `\n`.
pub open spec fn response_text(raw: Seq<char>) -> Seq<char> {
    normalize_newlines(trim_start(raw))
}

/// The status code that the status field gives: its decimal value, or 404 where it is not a
/// `u32` in decimal.
pub open spec fn status_of(s: Seq<char>) -> u32 {
    if is_u32_text(s) {
        decimal_value(unsigned_digits(s)) as u32
    } else {
        404
    }
}

/// A header line split at its first `:`, both sides trimmed.
pub open spec fn header_of(line: Seq<char>) -> (Seq<char>, Seq<char>) {
    let i = find(line, ':');
    (trim(line.subrange(0, i)), trim(line.subrange(i + 1, line.len() as int)))
}

/// The text after the status line of `t`.
pub open spec fn after_status(t: Seq<char>) -> Seq<char> {
    t.subrange(find(t, '\n') + 1, t.len() as int)
}

/// The header lines of what follows the status line: those before the first blank line, or none.
pub open spec fn header_lines(rem: Seq<char>) -> Seq<Seq<char>> {
    let k = find_blank_line(rem);
    if k < 0 {
        Seq::empty()
    } else {
        split(rem.subrange(0, k), '\n')
    }
}

pub open spec fn body_of(rem: Seq<char>) -> Seq<char> {
    let k = find_blank_line(rem);
    if k < 0 {
        rem
    } else {
        rem.subrange(k + 2, rem.len() as int)
    }
}

pub struct ResponseView {
    pub version: Seq<char>,
    pub status_code: u32,
    pub reason: Seq<char>,
    pub headers: Seq<(Seq<char>, Seq<char>)>,
    pub body: Seq<char>,
}

/// The response that `raw` describes, or `None` where it is malformed: no line break, a header
/// line without `:`, or a status line that is not three fields apart by single spaces.
pub open spec fn parse_response(raw: Seq<char>) -> Option<ResponseView> {
    let t = response_text(raw);
    let nl = find(t, '\n');
    if nl < 0 {
        None
    } else {
        let rem = after_status(t);
        let lines = header_lines(rem);
        let st = split(t.subrange(0, nl), ' ');
        if st.len() != 3 || exists|j: int| 0 <= j < lines.len() && find(#[trigger] lines[j], ':') < 0 {
            None
        } else {
            Some(
                ResponseView {
                    version: st[0],
                    status_code: status_of(st[1]),
                    reason: st[2],
                    headers: lines.map_values(|l: Seq<char>| header_of(l)),
                    body: body_of(rem),
                },
            )
        }
    }
}

pub open spec fn invalid_response_message(raw: Seq<char>) -> Seq<char> {
    "invalid http response: "@ + response_text(raw)
}

/// Index of the first header named `name`, or -1 where there is none.
pub open spec fn find_header(hs: Seq<(Seq<char>, Seq<char>)>, name: Seq<char>) -> int
    decreases hs.len(),
{
    if hs.len() == 0 {
        -1
    } else if hs[0].0 == name {
        0
    } else {
        let r = find_header(hs.drop_first(), name);
        if r < 0 {
            -1
        } else {
            r + 1
        }
    }
}

proof fn lemma_find_header_at(hs: Seq<(Seq<char>, Seq<char>)>, name: Seq<char>, i: int)
    requires
        0 <= i < hs.len(),
        hs[i].0 == name,
        forall|j: int| 0 <= j < i ==> (#[trigger] hs[j]).0 != name,
    ensures
        find_header(hs, name) == i,
    decreases i,
{
    if i > 0 {
        lemma_find_header_at(hs.drop_first(), name, i - 1);
    }
}

proof fn lemma_find_header_absent(hs: Seq<(Seq<char>, Seq<char>)>, name: Seq<char>)
    requires
        forall|j: int| 0 <= j < hs.len() ==> (#[trigger] hs[j]).0 != name,
    ensures
        find_header(hs, name) == -1,
    decreases hs.len(),
{
    if hs.len() > 0 {
        lemma_find_header_absent(hs.drop_first(), name);
    }
}

pub open spec fn missing_header_message(name: Seq<char>) -> Seq<char> {
    "failed to find "@ + name + " in headers"@
}

#[derive(Debug)]
pub struct Header {
    name: String,
    value: String,
}

impl View for Header {
    type V = (Seq<char>, Seq<char>);

    closed spec fn view(&self) -> (Seq<char>, Seq<char>) {
        (self.name@, self.value@)
    }
}

impl Header {
    pub fn new(name: String, value: String) -> (r: Header)
        ensures
            r@ == (name@, value@),
    {
        Header { name, value }
    }

    fn duplicate(&self) -> (r: Header)
        ensures
            r@ == self@,
    {
        Header { name: self.name.clone(), value: self.value.clone() }
    }
}

pub open spec fn header_views(hs: Seq<Header>) -> Seq<(Seq<char>, Seq<char>)> {
    hs.map_values(|h: Header| h@)
}

#[derive(Debug)]
pub struct HttpResponse {
    version: String,
    status_code: u32,
    reason: String,
    headers: Vec<Header>,
    body: String,
}

impl View for HttpResponse {
    type V = ResponseView;

    closed spec fn view(&self) -> ResponseView {
        ResponseView {
            version: self.version@,
            status_code: self.status_code,
            reason: self.reason@,
            headers: header_views(self.headers@),
            body: self.body@,
        }
    }
}

fn invalid_response(t: &Vec<char>) -> (e: Error)
    ensures
        e is Network && e->Network_0@ == "invalid http response: "@ + t@,
{
    let mut m = String::from_str("invalid http response: ");
    let s = string_of(t);
    m.append(s.as_str());
    Error::Network(m)
}

/// The headers of the lines, each split at its first `:`; `None` where a line has no `:`.
fn parse_headers(lines: &Vec<Vec<char>>) -> (r: Option<Vec<Header>>)
    ensures
        match r {
            Some(hs) => (forall|j: int| 0 <= j < lines@.len() ==> find(#[trigger] views(lines@)[j], ':') >= 0)
                && header_views(hs@) == views(lines@).map_values(|l: Seq<char>| header_of(l)),
            None => exists|j: int| 0 <= j < lines@.len() && find(#[trigger] views(lines@)[j], ':') < 0,
        },
{
    let mut hs: Vec<Header> = Vec::new();
    let mut i: usize = 0;
    while i < lines.len()
        invariant
            i <= lines@.len(),
            forall|j: int| 0 <= j < i ==> find(#[trigger] views(lines@)[j], ':') >= 0,
            header_views(hs@) == views(lines@).subrange(0, i as int).map_values(
                |l: Seq<char>| header_of(l),
            ),
        decreases lines.len() - i,
    {
        let line = &lines[i];
        assert(views(lines@)[i as int] == line@);
        match find_char(line, ':') {
            Some(k) => {
                let name = string_of(&trim_chars(&slice_chars(line, 0, k)));
                let value = string_of(&trim_chars(&slice_chars(line, k + 1, line.len())));
                let ghost prev = header_views(hs@);
                hs.push(Header::new(name, value));
                assert(header_views(hs@) =~= prev.push(header_of(line@)));
                assert(views(lines@).subrange(0, i + 1) =~= views(lines@).subrange(0, i as int).push(
                    line@,
                ));
                assert(header_views(hs@) =~= views(lines@).subrange(0, i + 1).map_values(
                    |l: Seq<char>| header_of(l),
                ));
            },
            None => {
                return None;
            },
        }
        i += 1;
    }
    assert(views(lines@).subrange(0, i as int) =~= views(lines@));
    Some(hs)
}

impl HttpResponse {
    /// Parses a whole response text: status line, headers up to the first blank line, body.
    pub fn new(raw_response: String) -> (r: Result<HttpResponse, Error>)
        ensures
            match r {
                Ok(resp) => parse_response(raw_response@) == Some(resp@),
                Err(e) => parse_response(raw_response@) is None && e is Network && e->Network_0@
                    == invalid_response_message(raw_response@),
            },
    {
        let v = chars_of(raw_response.as_str());
        let t = normalize_newline_chars(&trim_start_chars(&v));
        let nl = match find_char(&t, '\n') {
            Some(i) => i,
            None => {
                return Err(invalid_response(&t));
            },
        };
        let status_line = slice_chars(&t, 0, nl);
        let rem = slice_chars(&t, nl + 1, t.len());
        let (headers, body) = match find_blank_line_chars(&rem) {
            Some(k) => {
                let lines = split_chars(&slice_chars(&rem, 0, k), '\n');
                match parse_headers(&lines) {
                    Some(hs) => (hs, slice_chars(&rem, k + 2, rem.len())),
                    None => {
                        return Err(invalid_response(&t));
                    },
                }
            },
            None => {
                assert(header_views(Seq::<Header>::empty()) =~= Seq::<Seq<char>>::empty().map_values(
                    |l: Seq<char>| header_of(l),
                ));
                (Vec::new(), rem)
            },
        };
        let statuses = split_chars(&status_line, ' ');
        assert(views(statuses@).len() == statuses@.len());
        if statuses.len() != 3 {
            return Err(invalid_response(&t));
        }
        assert(views(statuses@)[0] == statuses@[0]@ && views(statuses@)[1] == statuses@[1]@
            && views(statuses@)[2] == statuses@[2]@);
        let status_code = match parse_u32(&statuses[1]) {
            Some(n) => n,
            None => 404,
        };
        Ok(
            HttpResponse {
                version: string_of(&statuses[0]),
                status_code,
                reason: string_of(&statuses[2]),
                headers,
                body: string_of(&body),
            },
        )
    }

    pub fn version(&self) -> (r: String)
        ensures
            r@ == self@.version,
    {
        self.version.clone()
    }

    pub fn status_code(&self) -> (r: u32)
        ensures
            r == self@.status_code,
    {
        self.status_code
    }

    pub fn reason(&self) -> (r: String)
        ensures
            r@ == self@.reason,
    {
        self.reason.clone()
    }

    pub fn headers(&self) -> (r: Vec<Header>)
        ensures
            header_views(r@) == self@.headers,
    {
        let mut r: Vec<Header> = Vec::new();
        let mut i: usize = 0;
        while i < self.headers.len()
            invariant
                i <= self.headers@.len(),
                header_views(r@) == header_views(self.headers@).subrange(0, i as int),
            decreases self.headers.len() - i,
        {
            let ghost prev = header_views(r@);
            let h = self.headers[i].duplicate();
            r.push(h);
            assert(header_views(r@) =~= prev.push(h@));
            assert(header_views(self.headers@)[i as int] == self.headers@[i as int]@);
            assert(header_views(r@) =~= header_views(self.headers@).subrange(0, i + 1));
            i += 1;
        }
        assert(header_views(self.headers@).subrange(0, i as int) =~= header_views(self.headers@));
        r
    }

    pub fn body(&self) -> (r: String)
        ensures
            r@ == self@.body,
    {
        self.body.clone()
    }

    /// The value of the first header whose name is exactly `name`.
    pub fn header_value(&self, name: &str) -> (r: Result<String, String>)
        ensures
            match r {
                Ok(v) => find_header(self@.headers, name@) >= 0 && v@ == self@.headers[find_header(
                    self@.headers,
                    name@,
                )].1,
                Err(e) => find_header(self@.headers, name@) == -1 && e@ == missing_header_message(
                    name@,
                ),
            },
    {
        let target = String::from_str(name);
        let mut i: usize = 0;
        while i < self.headers.len()
            invariant
                i <= self.headers@.len(),
                target@ == name@,
                forall|j: int| 0 <= j < i ==> (#[trigger] header_views(self.headers@)[j]).0 != name@,
            decreases self.headers.len() - i,
        {
            let h = &self.headers[i];
            assert(header_views(self.headers@)[i as int] == (h.name@, h.value@));
            if h.name == target {
                proof {
                    lemma_find_header_at(header_views(self.headers@), name@, i as int);
                }
                return Ok(h.value.clone());
            }
            i += 1;
        }
        proof {
            lemma_find_header_absent(header_views(self.headers@), name@);
        }
        let mut m = String::from_str("failed to find ");
        m.append(name);
        m.append(" in headers");
        Err(m)
    }
}

} // verus!
