use vstd::prelude::*;

verus! {

pub open spec fn is_ascii_upper(c: char) -> bool {
    'A' <= c && c <= 'Z'
}

pub open spec fn lower_char(c: char) -> char {
    if is_ascii_upper(c) {
        ((c as u32) + 32) as char
    } else {
        c
    }
}

pub fn to_ascii_lower(c: char) -> (r: char)
    ensures
        r == lower_char(c),
{
    if 'A' <= c && c <= 'Z' {
        ((c as u8) + 32) as char
    } else {
        c
    }
}

/// Relies on `String::push`: appends one character.
#[verifier::external_body]
pub(crate) fn push_char(s: &mut String, c: char)
    ensures
        final(s)@ == old(s)@.push(c),
{
    s.push(c)
}

/// Relies on `str::chars` collected into a vector: the characters of the text, in order.
#[verifier::external_body]
pub(crate) fn chars_of(s: &str) -> (r: Vec<char>)
    ensures
        r@ == s@,
{
    s.chars().collect()
}


/// Index of the first occurrence of `c` in `s`, or -1 where there is none.
pub open spec fn find(s: Seq<char>, c: char) -> int
    decreases s.len(),
{
    if s.len() == 0 {
        -1
    } else if s[0] == c {
        0
    } else {
        let r = find(s.drop_first(), c);
        if r < 0 {
            -1
        } else {
            r + 1
        }
    }
}

pub proof fn lemma_find_absent(s: Seq<char>, c: char)
    requires
        forall|j: int| 0 <= j < s.len() ==> s[j] != c,
    ensures
        find(s, c) == -1,
    decreases s.len(),
{
    if s.len() > 0 {
        lemma_find_absent(s.drop_first(), c);
    }
}

pub proof fn lemma_find_at(s: Seq<char>, c: char, i: int)
    requires
        0 <= i < s.len(),
        s[i] == c,
        forall|j: int| 0 <= j < i ==> s[j] != c,
    ensures
        find(s, c) == i,
    decreases s.len(),
{
    if i > 0 {
        lemma_find_at(s.drop_first(), c, i - 1);
    }
}

pub proof fn lemma_find_facts(s: Seq<char>, c: char)
    ensures
        -1 <= find(s, c) < s.len(),
        find(s, c) >= 0 ==> s[find(s, c)] == c,
        forall|j: int| 0 <= j < s.len() && (find(s, c) < 0 || j < find(s, c)) ==> s[j] != c,
    decreases s.len(),
{
    if s.len() > 0 {
        lemma_find_facts(s.drop_first(), c);
        assert forall|j: int| 0 <= j < s.len() && (find(s, c) < 0 || j < find(s, c)) implies s[j] != c by {
            if j > 0 {
                assert(s.drop_first()[j - 1] == s[j]);
            }
        }
    }
}

/// Position of the first `c` in `s`, computed by a scan.
pub fn find_char(s: &Vec<char>, c: char) -> (r: Option<usize>)
    ensures
        match r {
            Some(i) => i < s.len() && find(s@, c) == i as int,
            None => find(s@, c) == -1,
        },
{
    let mut i: usize = 0;
    while i < s.len()
        invariant
            i <= s.len(),
            forall|j: int| 0 <= j < i ==> s@[j] != c,
        decreases s.len() - i,
    {
        if s[i] == c {
            proof {
                lemma_find_at(s@, c, i as int);
            }
            return Some(i);
        }
        i += 1;
    }
    proof {
        lemma_find_absent(s@, c);
    }
    None
}

/// The characters `s[lo..hi]` as a new vector.
pub fn slice_chars(s: &Vec<char>, lo: usize, hi: usize) -> (r: Vec<char>)
    requires
        lo <= hi <= s.len(),
    ensures
        r@ == s@.subrange(lo as int, hi as int),
{
    let mut r: Vec<char> = Vec::new();
    let mut i: usize = lo;
    while i < hi
        invariant
            lo <= i <= hi <= s.len(),
            r@ == s@.subrange(lo as int, i as int),
        decreases hi - i,
    {
        r.push(s[i]);
        assert(s@.subrange(lo as int, i + 1) == s@.subrange(lo as int, i as int).push(s@[i as int]));
        i += 1;
    }
    r
}

/// A `String` holding the characters of `v`.
pub fn string_of(v: &Vec<char>) -> (r: String)
    ensures
        r@ == v@,
{
    let mut r = String::new();
    let mut i: usize = 0;
    while i < v.len()
        invariant
            i <= v.len(),
            r@ == v@.subrange(0, i as int),
        decreases v.len() - i,
    {
        push_char(&mut r, v[i]);
        assert(v@.subrange(0, i + 1) == v@.subrange(0, i as int).push(v@[i as int]));
        i += 1;
    }
    assert(v@.subrange(0, v@.len() as int) == v@);
    r
}


/// Unicode `White_Space`, the set that `char::is_whitespace` and `str::trim` go by.
pub open spec fn is_white(c: char) -> bool {
    ('\t' <= c && c <= '\r') || c == ' ' || c == '\u{85}' || c == '\u{a0}' || c == '\u{1680}' || (
    '\u{2000}' <= c && c <= '\u{200a}') || c == '\u{2028}' || c == '\u{2029}' || c == '\u{202f}'
        || c == '\u{205f}' || c == '\u{3000}'
}

pub fn is_white_char(c: char) -> (r: bool)
    ensures
        r == is_white(c),
{
    ('\t' <= c && c <= '\r') || c == ' ' || c == '\u{85}' || c == '\u{a0}' || c == '\u{1680}' || (
    '\u{2000}' <= c && c <= '\u{200a}') || c == '\u{2028}' || c == '\u{2029}' || c == '\u{202f}'
        || c == '\u{205f}' || c == '\u{3000}'
}

/// `s` without its leading white space.
pub open spec fn trim_start(s: Seq<char>) -> Seq<char>
    decreases s.len(),
{
    if s.len() > 0 && is_white(s[0]) {
        trim_start(s.drop_first())
    } else {
        s
    }
}

/// `s` without its trailing white space.
pub open spec fn trim_end(s: Seq<char>) -> Seq<char>
    decreases s.len(),
{
    if s.len() > 0 && is_white(s.last()) {
        trim_end(s.drop_last())
    } else {
        s
    }
}

pub open spec fn trim(s: Seq<char>) -> Seq<char> {
    trim_end(trim_start(s))
}

/// Each `\n\r` of `s` replaced by `\n`, scanning from the left.
pub open spec fn normalize_newlines(s: Seq<char>) -> Seq<char>
    decreases s.len(),
{
    if s.len() == 0 {
        s
    } else if s.len() >= 2 && s[0] == '\n' && s[1] == '\r' {
        seq!['\n'] + normalize_newlines(s.subrange(2, s.len() as int))
    } else {
        seq![s[0]] + normalize_newlines(s.drop_first())
    }
}

/// The pieces of `s` between the occurrences of `c`; an empty `s` is one empty piece.
pub open spec fn split(s: Seq<char>, c: char) -> Seq<Seq<char>>
    decreases s.len(),
{
    if s.len() == 0 {
        seq![Seq::empty()]
    } else {
        let r = split(s.drop_first(), c);
        if s[0] == c {
            seq![Seq::<char>::empty()] + r
        } else {
            r.update(0, seq![s[0]] + r[0])
        }
    }
}

pub proof fn lemma_split_nonempty(s: Seq<char>, c: char)
    ensures
        split(s, c).len() >= 1,
    decreases s.len(),
{
    if s.len() > 0 {
        lemma_split_nonempty(s.drop_first(), c);
    }
}

/// Index of the first `\n\n` in `s`, or -1 where there is none.
pub open spec fn find_blank_line(s: Seq<char>) -> int
    decreases s.len(),
{
    if s.len() < 2 {
        -1
    } else if s[0] == '\n' && s[1] == '\n' {
        0
    } else {
        let r = find_blank_line(s.drop_first());
        if r < 0 {
            -1
        } else {
            r + 1
        }
    }
}

pub fn trim_start_chars(s: &Vec<char>) -> (r: Vec<char>)
    ensures
        r@ == trim_start(s@),
{
    let mut i: usize = 0;
    assert(s@.subrange(0, s.len() as int) =~= s@);
    while i < s.len() && is_white_char(s[i])
        invariant
            i <= s.len(),
            trim_start(s@.subrange(i as int, s.len() as int)) == trim_start(s@),
        decreases s.len() - i,
    {
        assert(s@.subrange(i as int, s.len() as int).drop_first() =~= s@.subrange(i + 1, s.len() as int));
        i += 1;
    }
    slice_chars(s, i, s.len())
}

pub fn trim_chars(s: &Vec<char>) -> (r: Vec<char>)
    ensures
        r@ == trim(s@),
{
    let t = trim_start_chars(s);
    let mut n: usize = t.len();
    assert(t@.subrange(0, n as int) =~= t@);
    while n > 0 && is_white_char(t[n - 1])
        invariant
            n <= t.len(),
            trim_end(t@.subrange(0, n as int)) == trim_end(t@),
        decreases n,
    {
        assert(t@.subrange(0, n as int).drop_last() =~= t@.subrange(0, n - 1));
        n -= 1;
    }
    slice_chars(&t, 0, n)
}

pub fn normalize_newline_chars(s: &Vec<char>) -> (r: Vec<char>)
    ensures
        r@ == normalize_newlines(s@),
{
    let mut out: Vec<char> = Vec::new();
    let mut i: usize = 0;
    assert(s@.subrange(0, s.len() as int) =~= s@);
    assert(out@ + normalize_newlines(s@) =~= normalize_newlines(s@));
    while i < s.len()
        invariant
            i <= s.len(),
            out@ + normalize_newlines(s@.subrange(i as int, s.len() as int)) == normalize_newlines(s@),
        decreases s.len() - i,
    {
        let ghost rest = s@.subrange(i as int, s.len() as int);
        let ghost prev = out@;
        if s[i] == '\n' && i + 1 < s.len() && s[i + 1] == '\r' {
            assert(rest.subrange(2, rest.len() as int) =~= s@.subrange(i + 2, s.len() as int));
            out.push('\n');
            assert(out@ + normalize_newlines(s@.subrange(i + 2, s.len() as int)) =~= prev + (seq!['\n']
                + normalize_newlines(s@.subrange(i + 2, s.len() as int))));
            i += 2;
        } else {
            assert(rest.drop_first() =~= s@.subrange(i + 1, s.len() as int));
            out.push(s[i]);
            assert(out@ + normalize_newlines(s@.subrange(i + 1, s.len() as int)) =~= prev + (seq![rest[0]]
                + normalize_newlines(s@.subrange(i + 1, s.len() as int))));
            i += 1;
        }
    }
    assert(s@.subrange(s.len() as int, s.len() as int) =~= Seq::<char>::empty());
    assert(out@ + Seq::<char>::empty() =~= out@);
    out
}


pub open spec fn views(v: Seq<Vec<char>>) -> Seq<Seq<char>> {
    v.map_values(|p: Vec<char>| p@)
}

/// The pieces of `s` between the occurrences of `c`.
pub fn split_chars(s: &Vec<char>, c: char) -> (r: Vec<Vec<char>>)
    ensures
        views(r@) == split(s@, c),
{
    let mut acc: Vec<Vec<char>> = Vec::new();
    acc.push(Vec::new());
    let mut i: usize = s.len();
    assert(s@.subrange(i as int, s.len() as int) =~= Seq::<char>::empty());
    assert(views(acc@) =~= split(Seq::<char>::empty(), c));
    while i > 0
        invariant
            i <= s.len(),
            views(acc@) == split(s@.subrange(i as int, s.len() as int), c),
        decreases i,
    {
        let ghost prev = s@.subrange(i as int, s.len() as int);
        i -= 1;
        let ghost cur = s@.subrange(i as int, s.len() as int);
        assert(cur.drop_first() =~= prev);
        proof {
            lemma_split_nonempty(prev, c);
        }
        let ch = s[i];
        if ch == c {
            acc.insert(0, Vec::new());
            assert(views(acc@) =~= split(cur, c));
        } else {
            let ghost old_views = views(acc@);
            let mut first = acc.remove(0);
            assert(first@ == old_views[0]);
            first.insert(0, ch);
            assert(first@ =~= seq![ch] + old_views[0]);
            acc.insert(0, first);
            assert(split(cur, c) == old_views.update(0, seq![ch] + old_views[0]));
            assert(views(acc@) =~= split(cur, c));
        }
    }
    assert(s@.subrange(0, s.len() as int) =~= s@);
    acc
}

pub proof fn lemma_blank_line_absent(s: Seq<char>)
    requires
        forall|j: int| 0 <= j < s.len() - 1 ==> !(#[trigger] s[j] == '\n' && s[j + 1] == '\n'),
    ensures
        find_blank_line(s) == -1,
    decreases s.len(),
{
    if s.len() >= 2 {
        lemma_blank_line_absent(s.drop_first());
    }
}

pub proof fn lemma_blank_line_at(s: Seq<char>, i: int)
    requires
        0 <= i < s.len() - 1,
        s[i] == '\n' && s[i + 1] == '\n',
        forall|j: int| 0 <= j < i ==> !(#[trigger] s[j] == '\n' && s[j + 1] == '\n'),
    ensures
        find_blank_line(s) == i,
    decreases s.len(),
{
    if i > 0 {
        lemma_blank_line_at(s.drop_first(), i - 1);
    }
}

/// Position of the first `\n\n` in `s`.
pub fn find_blank_line_chars(s: &Vec<char>) -> (r: Option<usize>)
    ensures
        match r {
            Some(i) => i + 1 < s.len() && find_blank_line(s@) == i as int,
            None => find_blank_line(s@) == -1,
        },
{
    let mut i: usize = 0;
    while i < s.len() && i + 1 < s.len()
        invariant
            i <= s.len(),
            forall|j: int| 0 <= j < i ==> !(#[trigger] s@[j] == '\n' && s@[j + 1] == '\n'),
        decreases s.len() - i,
    {
        if s[i] == '\n' && s[i + 1] == '\n' {
            proof {
                lemma_blank_line_at(s@, i as int);
            }
            return Some(i);
        }
        i += 1;
    }
    proof {
        lemma_blank_line_absent(s@);
    }
    None
}

pub open spec fn is_digit(c: char) -> bool {
    '0' <= c && c <= '9'
}

pub open spec fn digit_value(c: char) -> nat {
    ((c as u32) - ('0' as u32)) as nat
}

/// The number written in decimal by the digits of `s`.
pub open spec fn decimal_value(s: Seq<char>) -> nat
    decreases s.len(),
{
    if s.len() == 0 {
        0
    } else {
        decimal_value(s.drop_last()) * 10 + digit_value(s.last())
    }
}

/// `s` without one leading `+`.
pub open spec fn unsigned_digits(s: Seq<char>) -> Seq<char> {
    if s.len() > 0 && s[0] == '+' {
        s.drop_first()
    } else {
        s
    }
}

/// Whether `s` reads as a `u32` in decimal: an optional `+`, then at least one digit, and a
/// value that fits.
pub open spec fn is_u32_text(s: Seq<char>) -> bool {
    let d = unsigned_digits(s);
    d.len() > 0 && (forall|j: int| 0 <= j < d.len() ==> is_digit(d[j])) && decimal_value(d)
        <= u32::MAX
}

proof fn lemma_decimal_grows(s: Seq<char>, i: int, j: int)
    requires
        0 <= i <= j <= s.len(),
    ensures
        decimal_value(s.subrange(0, i)) <= decimal_value(s.subrange(0, j)),
    decreases j - i,
{
    if i < j {
        lemma_decimal_grows(s, i, j - 1);
        assert(s.subrange(0, j).drop_last() =~= s.subrange(0, j - 1));
    }
}

/// Reads `s` as a `u32` in decimal, as `str::parse::<u32>` does.
pub fn parse_u32(s: &Vec<char>) -> (r: Option<u32>)
    ensures
        match r {
            Some(n) => is_u32_text(s@) && n as nat == decimal_value(unsigned_digits(s@)),
            None => !is_u32_text(s@),
        },
{
    let start: usize = if s.len() > 0 && s[0] == '+' {
        1
    } else {
        0
    };
    let ghost d = unsigned_digits(s@);
    assert(d =~= s@.subrange(start as int, s.len() as int));
    if start >= s.len() {
        return None;
    }
    let mut v: u32 = 0;
    let mut i: usize = start;
    assert(d.subrange(0, 0) =~= Seq::<char>::empty());
    while i < s.len()
        invariant
            start <= i <= s.len(),
            start < s.len(),
            d == s@.subrange(start as int, s.len() as int),
            d == unsigned_digits(s@),
            forall|j: int| 0 <= j < i - start ==> is_digit(d[j]),
            v as nat == decimal_value(d.subrange(0, i - start)),
        decreases s.len() - i,
    {
        let c = s[i];
        assert(d[i - start] == c);
        if !('0' <= c && c <= '9') {
            assert(!is_digit(d[i - start]));
            assert(!is_u32_text(s@));
            return None;
        }
        let dv = (c as u32) - ('0' as u32);
        assert(d.subrange(0, i - start + 1).drop_last() =~= d.subrange(0, i - start));
        if v > (u32::MAX - dv) / 10 {
            proof {
                let w = v as int;
                let e = dv as int;
                assert(w * 10 + e > u32::MAX) by (nonlinear_arith)
                    requires
                        w > (u32::MAX - e) / 10,
                        0 <= e <= 9,
                ;
                lemma_decimal_grows(d, i - start + 1, d.len() as int);
                assert(d.subrange(0, d.len() as int) =~= d);
                assert(decimal_value(d.subrange(0, i - start + 1)) == w * 10 + e);
                assert(!is_u32_text(s@));
            }
            return None;
        }
        v = v * 10 + dv;
        i += 1;
    }
    assert(d.subrange(0, d.len() as int) =~= d);
    Some(v)
}


/// Whether the two vectors hold the same characters.
pub fn same_chars(v: &Vec<char>, w: &Vec<char>) -> (r: bool)
    ensures
        r == (v@ == w@),
{
    if v.len() != w.len() {
        return false;
    }
    let mut i: usize = 0;
    while i < v.len()
        invariant
            i <= v.len(),
            v@.len() == w@.len(),
            forall|j: int| 0 <= j < i ==> v@[j] == w@[j],
        decreases v.len() - i,
    {
        if v[i] != w[i] {
            return false;
        }
        i += 1;
    }
    assert(v@ =~= w@);
    true
}

} // verus!
