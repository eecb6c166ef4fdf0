use vstd::prelude::*;

use crate::attribute::Attribute;
use crate::text::{chars_of, is_ascii_upper, lower_char, same_chars, string_of, to_ascii_lower};

verus! {

#[derive(Debug, PartialEq, Eq)]
pub enum HtmlToken {
    StartTag { tag: String, self_closing: bool, attributes: Vec<Attribute> },
    EndTag { tag: String },
    Char(char),
    Eof,
}

#[derive(Debug, Clone, Copy, PartialEq, Eq, Structural)]
pub enum State {
    Data,
    TagOpen,
    EndTagOpen,
    TagName,
    BeforeAttributeName,
    AttributeName,
    AfterAttributeName,
    BeforeAttributeValue,
    AttributeValueDoubleQuoted,
    AttributeValueSingleQuoted,
    AttributeValueUnquoted,
    AfterAttributeValueQuoted,
    SelfClosingStartTag,
    ScriptData,
    ScriptDataLessThanSign,
    ScriptDataEndTagOpen,
    ScriptDataEndTagName,
}

/// No ASCII capital letter in `s`.
pub open spec fn no_upper(s: Seq<char>) -> bool {
    forall|i: int| 0 <= i < s.len() ==> !is_ascii_upper(#[trigger] s[i])
}

/// A tag token's name holds no ASCII capital letter.
pub open spec fn lower_tag(t: HtmlToken) -> bool {
    match t {
        HtmlToken::StartTag { tag, .. } => no_upper(tag@),
        HtmlToken::EndTag { tag } => no_upper(tag@),
        _ => true,
    }
}

pub open spec fn all_lower_tags(ts: Seq<HtmlToken>) -> bool {
    forall|j: int| 0 <= j < ts.len() ==> lower_tag(#[trigger] ts[j])
}

/// A token as plain values.
pub enum TokenView {
    StartTag(Seq<char>, bool, Seq<(Seq<char>, Seq<char>)>),
    EndTag(Seq<char>),
    /// A character, by its code point.
    Char(int),
    Eof,
}

pub open spec fn attr_views(a: Seq<Attribute>) -> Seq<(Seq<char>, Seq<char>)> {
    a.map_values(|x: Attribute| x@)
}

pub open spec fn token_view(t: HtmlToken) -> TokenView {
    match t {
        HtmlToken::StartTag { tag, self_closing, attributes } => TokenView::StartTag(
            tag@,
            self_closing,
            attr_views(attributes@),
        ),
        HtmlToken::EndTag { tag } => TokenView::EndTag(tag@),
        HtmlToken::Char(c) => TokenView::Char(c as int),
        HtmlToken::Eof => TokenView::Eof,
    }
}

pub open spec fn token_views(ts: Seq<HtmlToken>) -> Seq<TokenView> {
    ts.map_values(|t: HtmlToken| token_view(t))
}

pub open spec fn opt_token_view(t: Option<HtmlToken>) -> Option<TokenView> {
    match t {
        Some(x) => Some(token_view(x)),
        None => None,
    }
}

/// The tokenizer's state apart from its input and position.
pub struct Machine {
    pub state: State,
    pub pending: Seq<TokenView>,
    pub tag_name: Seq<char>,
    pub tag_is_start: bool,
    pub self_closing: bool,
    pub attrs: Seq<(Seq<char>, Seq<char>)>,
    pub buf: Seq<char>,
    pub eof_emitted: bool,
}

pub open spec fn initial_machine() -> Machine {
    Machine {
        state: State::Data,
        pending: Seq::empty(),
        tag_name: Seq::empty(),
        tag_is_start: true,
        self_closing: false,
        attrs: Seq::empty(),
        buf: Seq::empty(),
        eof_emitted: false,
    }
}

pub open spec fn is_space_spec(c: char) -> bool {
    c == ' ' || c == '\t' || c == '\n' || c == '\r' || c == '\u{0c}'
}

pub open spec fn emit_char(m: Machine, c: char) -> Machine {
    Machine { pending: m.pending.push(TokenView::Char(c as int)), ..m }
}

pub open spec fn start_tag_spec(m: Machine, is_start: bool, c: char) -> Machine {
    Machine {
        tag_is_start: is_start,
        self_closing: false,
        tag_name: seq![lower_char(c)],
        attrs: Seq::empty(),
        ..m
    }
}

pub open spec fn start_attribute_spec(m: Machine, c: char) -> Machine {
    Machine { attrs: m.attrs.push((seq![lower_char(c)], Seq::empty())), ..m }
}

pub open spec fn append_attribute_spec(m: Machine, c: char, is_name: bool) -> Machine {
    if m.attrs.len() > 0 {
        let last = m.attrs.last();
        let a = if is_name {
            (last.0.push(lower_char(c)), last.1)
        } else {
            (last.0, last.1.push(c))
        };
        Machine { attrs: m.attrs.update(m.attrs.len() - 1, a), ..m }
    } else {
        m
    }
}

pub open spec fn emit_tag_spec(m: Machine) -> Machine {
    let tok = if m.tag_is_start {
        TokenView::StartTag(m.tag_name, m.self_closing, m.attrs)
    } else {
        TokenView::EndTag(m.tag_name)
    };
    let script = m.tag_is_start && m.tag_name == "script"@ && !m.self_closing;
    Machine {
        state: if script {
            State::ScriptData
        } else {
            State::Data
        },
        pending: m.pending.push(tok),
        attrs: Seq::empty(),
        ..m
    }
}

pub open spec fn data_spec(m: Machine, c: char) -> Machine {
    if c == '<' {
        Machine { state: State::TagOpen, ..m }
    } else {
        emit_char(m, c)
    }
}

pub open spec fn script_data_spec(m: Machine, c: char) -> Machine {
    if c == '<' {
        Machine { state: State::ScriptDataLessThanSign, ..m }
    } else {
        emit_char(m, c)
    }
}

pub open spec fn char_tokens(s: Seq<char>) -> Seq<TokenView> {
    Seq::new(s.len(), |k: int| TokenView::Char(s[k] as int))
}

pub open spec fn held_tokens(buf: Seq<char>) -> Seq<TokenView> {
    seq![TokenView::Char('<' as int), TokenView::Char('/' as int)] + char_tokens(buf)
}

pub open spec fn flush_spec(m: Machine) -> Machine {
    Machine { pending: m.pending + held_tokens(m.buf), buf: Seq::empty(), ..m }
}

pub open spec fn with_state(m: Machine, s: State) -> Machine {
    Machine { state: s, ..m }
}

/// What consuming `c` does to the tokenizer.
#[verifier::opaque]
pub open spec fn step_spec(m: Machine, c: char) -> Machine {
    match m.state {
        State::Data => data_spec(m, c),
        State::TagOpen => if c == '/' {
            with_state(m, State::EndTagOpen)
        } else if is_ascii_alpha(c) {
            with_state(start_tag_spec(m, true, c), State::TagName)
        } else {
            data_spec(with_state(emit_char(m, '<'), State::Data), c)
        },
        State::EndTagOpen => if is_ascii_alpha(c) {
            with_state(start_tag_spec(m, false, c), State::TagName)
        } else {
            data_spec(with_state(emit_char(emit_char(m, '<'), '/'), State::Data), c)
        },
        State::TagName => if is_space_spec(c) {
            with_state(m, State::BeforeAttributeName)
        } else if c == '/' {
            with_state(m, State::SelfClosingStartTag)
        } else if c == '>' {
            emit_tag_spec(m)
        } else {
            Machine { tag_name: m.tag_name.push(lower_char(c)), ..m }
        },
        State::BeforeAttributeName => if is_space_spec(c) {
            m
        } else if c == '/' {
            with_state(m, State::SelfClosingStartTag)
        } else if c == '>' {
            emit_tag_spec(m)
        } else {
            with_state(start_attribute_spec(m, c), State::AttributeName)
        },
        State::AttributeName => if is_space_spec(c) {
            with_state(m, State::AfterAttributeName)
        } else if c == '/' {
            with_state(m, State::SelfClosingStartTag)
        } else if c == '=' {
            with_state(m, State::BeforeAttributeValue)
        } else if c == '>' {
            emit_tag_spec(m)
        } else {
            append_attribute_spec(m, c, true)
        },
        State::AfterAttributeName => if is_space_spec(c) {
            m
        } else if c == '/' {
            with_state(m, State::SelfClosingStartTag)
        } else if c == '=' {
            with_state(m, State::BeforeAttributeValue)
        } else if c == '>' {
            emit_tag_spec(m)
        } else {
            with_state(start_attribute_spec(m, c), State::AttributeName)
        },
        State::BeforeAttributeValue => if is_space_spec(c) {
            m
        } else if c == '"' {
            with_state(m, State::AttributeValueDoubleQuoted)
        } else if c == '\'' {
            with_state(m, State::AttributeValueSingleQuoted)
        } else if c == '>' {
            emit_tag_spec(m)
        } else {
            with_state(append_attribute_spec(m, c, false), State::AttributeValueUnquoted)
        },
        State::AttributeValueDoubleQuoted => if c == '"' {
            with_state(m, State::AfterAttributeValueQuoted)
        } else {
            append_attribute_spec(m, c, false)
        },
        State::AttributeValueSingleQuoted => if c == '\'' {
            with_state(m, State::AfterAttributeValueQuoted)
        } else {
            append_attribute_spec(m, c, false)
        },
        State::AttributeValueUnquoted => if is_space_spec(c) {
            with_state(m, State::BeforeAttributeName)
        } else if c == '>' {
            emit_tag_spec(m)
        } else {
            append_attribute_spec(m, c, false)
        },
        State::AfterAttributeValueQuoted => if is_space_spec(c) {
            with_state(m, State::BeforeAttributeName)
        } else if c == '/' {
            with_state(m, State::SelfClosingStartTag)
        } else if c == '>' {
            emit_tag_spec(m)
        } else {
            with_state(start_attribute_spec(m, c), State::AttributeName)
        },
        State::SelfClosingStartTag => if c == '>' {
            emit_tag_spec(Machine { self_closing: true, ..m })
        } else if is_space_spec(c) {
            with_state(m, State::BeforeAttributeName)
        } else {
            with_state(start_attribute_spec(m, c), State::AttributeName)
        },
        State::ScriptData => script_data_spec(m, c),
        State::ScriptDataLessThanSign => if c == '/' {
            Machine { buf: Seq::empty(), state: State::ScriptDataEndTagOpen, ..m }
        } else {
            script_data_spec(with_state(emit_char(m, '<'), State::ScriptData), c)
        },
        State::ScriptDataEndTagOpen => if is_ascii_alpha(c) {
            Machine { buf: seq![c], state: State::ScriptDataEndTagName, ..start_tag_spec(m, false, c) }
        } else {
            script_data_spec(with_state(emit_char(emit_char(m, '<'), '/'), State::ScriptData), c)
        },
        State::ScriptDataEndTagName => if is_ascii_alpha(c) {
            Machine { buf: m.buf.push(c), tag_name: m.tag_name.push(lower_char(c)), ..m }
        } else if c == '>' && m.tag_name == "script"@ {
            emit_tag_spec(Machine { buf: Seq::empty(), ..m })
        } else {
            script_data_spec(with_state(flush_spec(m), State::ScriptData), c)
        },
    }
}

proof fn lemma_step_data(m: Machine, c: char)
    requires
        m.state == State::Data,
        c != '<',
    ensures
        step_spec(m, c) == emit_char(m, c),
{
    reveal(step_spec);
}

/// The next token of `input` from position `pos`, the position after it and the new state.
pub open spec fn next_spec(input: Seq<char>, pos: int, m: Machine) -> (Option<TokenView>, int, Machine)
    decreases input.len() - pos,
{
    if m.pending.len() > 0 {
        (Some(m.pending[0]), pos, Machine { pending: m.pending.drop_first(), ..m })
    } else if pos >= input.len() || pos < 0 {
        if m.eof_emitted {
            (None, pos, m)
        } else {
            (Some(TokenView::Eof), pos, Machine { eof_emitted: true, state: State::Data, buf: Seq::empty(), ..m })
        }
    } else {
        let m2 = step_spec(m, input[pos]);
        if m2.pending.len() > 0 {
            (Some(m2.pending[0]), pos + 1, Machine { pending: m2.pending.drop_first(), ..m2 })
        } else {
            next_spec(input, pos + 1, m2)
        }
    }
}

fn push_lower(name: &mut Vec<char>, c: char)
    requires
        no_upper(old(name)@),
    ensures
        no_upper(final(name)@),
        final(name)@ == old(name)@.push(lower_char(c)),
{
    let l = to_ascii_lower(c);
    name.push(l);
    assert forall|i: int| 0 <= i < name@.len() implies !is_ascii_upper(#[trigger] name@[i]) by {
        if i < old(name)@.len() {
            assert(name@[i] == old(name)@[i]);
        }
    }
}

fn push_token(pending: &mut Vec<HtmlToken>, t: HtmlToken)
    requires
        all_lower_tags(old(pending)@),
        lower_tag(t),
    ensures
        final(pending)@ == old(pending)@.push(t),
        final(pending)@.len() == old(pending)@.len() + 1,
        all_lower_tags(final(pending)@),
        token_views(final(pending)@) == token_views(old(pending)@).push(token_view(t)),
{
    pending.push(t);
    assert(token_views(pending@) =~= token_views(old(pending)@).push(token_view(t)));
    assert forall|j: int| 0 <= j < pending@.len() implies lower_tag(#[trigger] pending@[j]) by {
        if j < old(pending)@.len() {
            assert(pending@[j] == old(pending)@[j]);
        }
    }
}

pub open spec fn is_ascii_alpha(c: char) -> bool {
    ('a' <= c && c <= 'z') || ('A' <= c && c <= 'Z')
}

fn is_alpha(c: char) -> (r: bool)
    ensures
        r == is_ascii_alpha(c),
{
    ('a' <= c && c <= 'z') || ('A' <= c && c <= 'Z')
}

/// White space between the parts of a tag.
fn is_space(c: char) -> (r: bool)
    ensures
        r == is_space_spec(c),
{
    c == ' ' || c == '\t' || c == '\n' || c == '\r' || c == '\u{0c}'
}

fn push_char_token(pending: &mut Vec<HtmlToken>, c: char)
    requires
        all_lower_tags(old(pending)@),
    ensures
        final(pending)@ == old(pending)@.push(HtmlToken::Char(c)),
        final(pending)@.len() == old(pending)@.len() + 1,
        final(pending)@[old(pending)@.len() as int] == HtmlToken::Char(c),
        all_lower_tags(final(pending)@),
        token_views(final(pending)@) == token_views(old(pending)@).push(TokenView::Char(c as int)),
{
    push_token(pending, HtmlToken::Char(c));
}

proof fn lemma_char_tokens_push(s: Seq<char>, i: int)
    requires
        0 <= i < s.len(),
    ensures
        char_tokens(s.subrange(0, i + 1)) == char_tokens(s.subrange(0, i)).push(TokenView::Char(s[i] as int)),
{
    assert(char_tokens(s.subrange(0, i + 1)) =~= char_tokens(s.subrange(0, i)).push(TokenView::Char(s[i] as int)));
}

proof fn lemma_seq_push_assoc(a: Seq<TokenView>, b: Seq<TokenView>, x: TokenView)
    ensures
        (a + b).push(x) == a + b.push(x),
{
    assert((a + b).push(x) =~= a + b.push(x));
}

/// Pushes `<`, `/` and the characters of `buf` as `Char` tokens.
fn push_held(pending: &mut Vec<HtmlToken>, buf: &Vec<char>)
    requires
        all_lower_tags(old(pending)@),
    ensures
        final(pending)@.len() == old(pending)@.len() + 2 + buf@.len(),
        all_lower_tags(final(pending)@),
        token_views(final(pending)@) == token_views(old(pending)@) + held_tokens(buf@),
{
    push_char_token(pending, '<');
    push_char_token(pending, '/');
    assert(char_tokens(buf@.subrange(0, 0)) =~= Seq::<TokenView>::empty());
    let mut i: usize = 0;
    while i < buf.len()
        invariant
            i <= buf@.len(),
            all_lower_tags(pending@),
            pending@.len() == old(pending)@.len() + 2 + i,
            token_views(pending@) == token_views(old(pending)@) + seq![TokenView::Char('<' as int), TokenView::Char('/' as int)]
                + char_tokens(buf@.subrange(0, i as int)),
        decreases buf.len() - i,
    {
        let ghost prev = token_views(pending@);
        let ch = buf[i];
        assert(ch == buf@[i as int]);
        push_char_token(pending, ch);
        assert(buf@.subrange(0, i + 1).drop_last() =~= buf@.subrange(0, i as int));
        proof {
            lemma_char_tokens_push(buf@, i as int);
            lemma_seq_push_assoc(
                token_views(old(pending)@) + seq![TokenView::Char('<' as int), TokenView::Char('/' as int)],
                char_tokens(buf@.subrange(0, i as int)),
                TokenView::Char(ch as int),
            );
        }
        i += 1;
    }
    assert(buf@.subrange(0, buf@.len() as int) =~= buf@);
    assert(token_views(pending@) =~= token_views(old(pending)@) + held_tokens(buf@));
}

/// A lazy producer of tokens from HTML text. A tag still open when the input ends is dropped.
#[derive(Debug)]
pub struct HtmlTokenizer {
    state: State,
    pos: usize,
    input: Vec<char>,
    pending: Vec<HtmlToken>,
    tag_name: Vec<char>,
    tag_is_start: bool,
    self_closing: bool,
    attributes: Vec<Attribute>,
    buf: Vec<char>,
    eof_emitted: bool,
}

impl HtmlTokenizer {
    /// How many characters the state holds back, to be emitted later as `Char` tokens.
    closed spec fn held(&self) -> nat {
        match self.state {
            State::TagOpen => 1,
            State::EndTagOpen => 2,
            State::ScriptDataLessThanSign => 1,
            State::ScriptDataEndTagOpen => 2,
            State::ScriptDataEndTagName => 2 + self.buf@.len(),
            _ => 0,
        }
    }

    /// A bound on the number of tokens that are still to come.
    pub closed spec fn remaining(&self) -> nat {
        2 * (self.input@.len() - self.pos) as nat + self.pending@.len() + self.held() + if self.eof_emitted {
            0nat
        } else {
            1nat
        }
    }

    pub closed spec fn wf(&self) -> bool {
        &&& self.pos <= self.input@.len()
        &&& no_upper(self.tag_name@)
        &&& all_lower_tags(self.pending@)
    }

    /// The state apart from input and position, as plain values.
    pub closed spec fn machine(&self) -> Machine {
        Machine {
            state: self.state,
            pending: token_views(self.pending@),
            tag_name: self.tag_name@,
            tag_is_start: self.tag_is_start,
            self_closing: self.self_closing,
            attrs: attr_views(self.attributes@),
            buf: self.buf@,
            eof_emitted: self.eof_emitted,
        }
    }

    /// How many characters have been consumed.
    pub closed spec fn pos(&self) -> int {
        self.pos as int
    }

    /// In the data state with no token waiting.
    pub closed spec fn in_data(&self) -> bool {
        self.state == State::Data && self.pending@.len() == 0
    }

    /// The characters not yet consumed.
    pub closed spec fn rest(&self) -> Seq<char> {
        self.input@.subrange(self.pos as int, self.input@.len() as int)
    }

    /// Whether `Eof` has been handed out.
    pub closed spec fn ended(&self) -> bool {
        self.eof_emitted
    }

    /// The characters being tokenized.
    pub closed spec fn input(&self) -> Seq<char> {
        self.input@
    }

    pub fn new(html: String) -> (r: HtmlTokenizer)
        ensures
            r.wf(),
            r.input() == html@,
            r.remaining() == 2 * html@.len() + 1,
            r.in_data(),
            r.rest() == html@,
            !r.ended(),
            r.pos() == 0,
            r.machine() == initial_machine(),
    {
        let input = chars_of(html.as_str());
        assert(input@.subrange(0, input@.len() as int) =~= input@);
        let ghost e: Seq<HtmlToken> = Seq::empty();
        assert(token_views(e) =~= Seq::empty());
        let ghost ea: Seq<Attribute> = Seq::empty();
        assert(attr_views(ea) =~= Seq::empty());
        HtmlTokenizer {
            state: State::Data,
            pos: 0,
            input,
            pending: Vec::new(),
            tag_name: Vec::new(),
            tag_is_start: true,
            self_closing: false,
            attributes: Vec::new(),
            buf: Vec::new(),
            eof_emitted: false,
        }
    }

    fn start_tag(&mut self, is_start: bool, c: char)
        requires
            old(self).wf(),
        ensures
            final(self).machine() == start_tag_spec(old(self).machine(), is_start, c),
            final(self).wf(),
            final(self).state == old(self).state,
            final(self).pos == old(self).pos,
            final(self).input == old(self).input,
            final(self).pending == old(self).pending,
            final(self).buf == old(self).buf,
            final(self).eof_emitted == old(self).eof_emitted,
    {
        self.tag_is_start = is_start;
        self.self_closing = false;
        self.tag_name = Vec::new();
        push_lower(&mut self.tag_name, c);
        assert(self.tag_name@ =~= seq![lower_char(c)]);
        self.attributes = Vec::new();
        assert(attr_views(self.attributes@) =~= Seq::empty());
    }

    fn start_attribute(&mut self, c: char)
        requires
            old(self).wf(),
        ensures
            final(self).machine() == start_attribute_spec(old(self).machine(), c),
            final(self).wf(),
            final(self).state == old(self).state,
            final(self).pos == old(self).pos,
            final(self).input == old(self).input,
            final(self).pending == old(self).pending,
            final(self).buf == old(self).buf,
            final(self).eof_emitted == old(self).eof_emitted,
    {
        let mut a = Attribute::new();
        a.add_char(to_ascii_lower(c), true);
        assert(a@.0 =~= seq![lower_char(c)]);
        let ghost before = attr_views(self.attributes@);
        self.attributes.push(a);
        assert(attr_views(self.attributes@) =~= before.push((seq![lower_char(c)], Seq::<char>::empty())));
    }

    fn append_attribute(&mut self, c: char, is_name: bool)
        requires
            old(self).wf(),
        ensures
            final(self).machine() == append_attribute_spec(old(self).machine(), c, is_name),
            final(self).wf(),
            final(self).state == old(self).state,
            final(self).pos == old(self).pos,
            final(self).input == old(self).input,
            final(self).pending == old(self).pending,
            final(self).buf == old(self).buf,
            final(self).eof_emitted == old(self).eof_emitted,
    {
        let n = self.attributes.len();
        let ghost old_c = c;
        if n > 0 {
            let c = if is_name {
                to_ascii_lower(c)
            } else {
                c
            };
            let ghost before = self.attributes@;
            self.attributes[n - 1].add_char(c, is_name);
            assert(attr_views(self.attributes@) =~= attr_views(before).update(
                n - 1,
                if is_name {
                    (before[n - 1]@.0.push(lower_char(old_c)), before[n - 1]@.1)
                } else {
                    (before[n - 1]@.0, before[n - 1]@.1.push(old_c))
                },
            ));
        }
    }

    /// Emits the tag under construction and returns to the data state; after a `script` start
    /// tag the raw script data state follows instead.
    fn emit_tag(&mut self)
        requires
            old(self).wf(),
        ensures
            final(self).machine() == emit_tag_spec(old(self).machine()),
            final(self).wf(),
            final(self).state == State::Data || final(self).state == State::ScriptData,
            final(self).pos == old(self).pos,
            final(self).input == old(self).input,
            final(self).pending@.len() == old(self).pending@.len() + 1,
            final(self).buf == old(self).buf,
            final(self).eof_emitted == old(self).eof_emitted,
    {
        let mut attributes: Vec<Attribute> = Vec::new();
        core::mem::swap(&mut attributes, &mut self.attributes);
        assert(attr_views(self.attributes@) =~= Seq::empty());
        let tag = string_of(&self.tag_name);
        let is_script = same_chars(&self.tag_name, &chars_of("script"));
        if self.tag_is_start {
            self.state = if is_script && !self.self_closing {
                State::ScriptData
            } else {
                State::Data
            };
            push_token(
                &mut self.pending,
                HtmlToken::StartTag { tag, self_closing: self.self_closing, attributes },
            );
        } else {
            self.state = State::Data;
            push_token(&mut self.pending, HtmlToken::EndTag { tag });
        }
    }

    /// Handles `c` in the data state.
    fn data(&mut self, c: char)
        requires
            old(self).wf(),
            old(self).state == State::Data,
        ensures
            final(self).machine() == data_spec(old(self).machine(), c),
            final(self).wf(),
            final(self).pending@.len() + final(self).held() <= old(self).pending@.len() + 1,
            final(self).pos == old(self).pos,
            final(self).input == old(self).input,
            final(self).eof_emitted == old(self).eof_emitted,
            c != '<' ==> final(self).state == State::Data && final(self).pending@ == old(self).pending@.push(
                HtmlToken::Char(c),
            ) && final(self).pending@.len() == old(self).pending@.len() + 1
                && final(self).pending@[old(self).pending@.len() as int] == HtmlToken::Char(c),
    {
        if c == '<' {
            self.state = State::TagOpen;
        } else {
            push_char_token(&mut self.pending, c);
        }
    }

    /// Handles `c` in the script data state.
    fn script_data(&mut self, c: char)
        requires
            old(self).wf(),
            old(self).state == State::ScriptData,
        ensures
            final(self).machine() == script_data_spec(old(self).machine(), c),
            final(self).wf(),
            final(self).pending@.len() + final(self).held() <= old(self).pending@.len() + 1,
            final(self).pos == old(self).pos,
            final(self).input == old(self).input,
            final(self).eof_emitted == old(self).eof_emitted,
    {
        if c == '<' {
            self.state = State::ScriptDataLessThanSign;
        } else {
            push_char_token(&mut self.pending, c);
        }
    }

    /// Emits the characters held back by a script end tag that did not match.
    fn flush_end_tag_prefix(&mut self)
        requires
            old(self).wf(),
        ensures
            final(self).machine() == flush_spec(old(self).machine()),
            final(self).wf(),
            final(self).pending@.len() == old(self).pending@.len() + 2 + old(self).buf@.len(),
            final(self).state == old(self).state,
            final(self).pos == old(self).pos,
            final(self).input == old(self).input,
            final(self).eof_emitted == old(self).eof_emitted,
            final(self).buf@.len() == 0,
    {
        push_held(&mut self.pending, &self.buf);
        self.buf = Vec::new();
    }

    /// Consumes one character.
    fn step(&mut self, c: char)
        requires
            old(self).wf(),
        ensures
            final(self).machine() == step_spec(old(self).machine(), c),
            final(self).wf(),
            final(self).pending@.len() + final(self).held() <= old(self).pending@.len() + old(self).held() + 1,
            final(self).pos == old(self).pos,
            final(self).input == old(self).input,
            final(self).eof_emitted == old(self).eof_emitted,
            old(self).state == State::Data && c != '<' ==> final(self).state == State::Data
                && final(self).pending@ == old(self).pending@.push(HtmlToken::Char(c))
                && final(self).pending@.len() == old(self).pending@.len() + 1
                && final(self).pending@[old(self).pending@.len() as int] == HtmlToken::Char(c),
    {
        proof {
            reveal(step_spec);
        }
        match self.state {
            State::Data => self.data(c),
            State::TagOpen => {
                if c == '/' {
                    self.state = State::EndTagOpen;
                } else if is_alpha(c) {
                    self.start_tag(true, c);
                    self.state = State::TagName;
                } else {
                    push_char_token(&mut self.pending, '<');
                    self.state = State::Data;
                    self.data(c);
                }
            },
            State::EndTagOpen => {
                if is_alpha(c) {
                    self.start_tag(false, c);
                    self.state = State::TagName;
                } else {
                    push_char_token(&mut self.pending, '<');
                    push_char_token(&mut self.pending, '/');
                    self.state = State::Data;
                    self.data(c);
                }
            },
            State::TagName => {
                if is_space(c) {
                    self.state = State::BeforeAttributeName;
                } else if c == '/' {
                    self.state = State::SelfClosingStartTag;
                } else if c == '>' {
                    self.emit_tag();
                } else {
                    push_lower(&mut self.tag_name, c);
                }
            },
            State::BeforeAttributeName => {
                if is_space(c) {
                } else if c == '/' {
                    self.state = State::SelfClosingStartTag;
                } else if c == '>' {
                    self.emit_tag();
                } else {
                    self.start_attribute(c);
                    self.state = State::AttributeName;
                }
            },
            State::AttributeName => {
                if is_space(c) {
                    self.state = State::AfterAttributeName;
                } else if c == '/' {
                    self.state = State::SelfClosingStartTag;
                } else if c == '=' {
                    self.state = State::BeforeAttributeValue;
                } else if c == '>' {
                    self.emit_tag();
                } else {
                    self.append_attribute(c, true);
                }
            },
            State::AfterAttributeName => {
                if is_space(c) {
                } else if c == '/' {
                    self.state = State::SelfClosingStartTag;
                } else if c == '=' {
                    self.state = State::BeforeAttributeValue;
                } else if c == '>' {
                    self.emit_tag();
                } else {
                    self.start_attribute(c);
                    self.state = State::AttributeName;
                }
            },
            State::BeforeAttributeValue => {
                if is_space(c) {
                } else if c == '"' {
                    self.state = State::AttributeValueDoubleQuoted;
                } else if c == '\'' {
                    self.state = State::AttributeValueSingleQuoted;
                } else if c == '>' {
                    self.emit_tag();
                } else {
                    self.append_attribute(c, false);
                    self.state = State::AttributeValueUnquoted;
                }
            },
            State::AttributeValueDoubleQuoted => {
                if c == '"' {
                    self.state = State::AfterAttributeValueQuoted;
                } else {
                    self.append_attribute(c, false);
                }
            },
            State::AttributeValueSingleQuoted => {
                if c == '\'' {
                    self.state = State::AfterAttributeValueQuoted;
                } else {
                    self.append_attribute(c, false);
                }
            },
            State::AttributeValueUnquoted => {
                if is_space(c) {
                    self.state = State::BeforeAttributeName;
                } else if c == '>' {
                    self.emit_tag();
                } else {
                    self.append_attribute(c, false);
                }
            },
            State::AfterAttributeValueQuoted => {
                if is_space(c) {
                    self.state = State::BeforeAttributeName;
                } else if c == '/' {
                    self.state = State::SelfClosingStartTag;
                } else if c == '>' {
                    self.emit_tag();
                } else {
                    self.start_attribute(c);
                    self.state = State::AttributeName;
                }
            },
            State::SelfClosingStartTag => {
                if c == '>' {
                    self.self_closing = true;
                    self.emit_tag();
                } else if is_space(c) {
                    self.state = State::BeforeAttributeName;
                } else {
                    self.start_attribute(c);
                    self.state = State::AttributeName;
                }
            },
            State::ScriptData => self.script_data(c),
            State::ScriptDataLessThanSign => {
                if c == '/' {
                    self.buf = Vec::new();
                    assert(self.buf@ =~= Seq::<char>::empty());
                    self.state = State::ScriptDataEndTagOpen;
                } else {
                    push_char_token(&mut self.pending, '<');
                    self.state = State::ScriptData;
                    self.script_data(c);
                }
            },
            State::ScriptDataEndTagOpen => {
                if is_alpha(c) {
                    self.start_tag(false, c);
                    self.buf = Vec::new();
                    self.buf.push(c);
                    assert(self.buf@ =~= seq![c]);
                    self.state = State::ScriptDataEndTagName;
                } else {
                    push_char_token(&mut self.pending, '<');
                    push_char_token(&mut self.pending, '/');
                    self.state = State::ScriptData;
                    self.script_data(c);
                }
            },
            State::ScriptDataEndTagName => {
                if is_alpha(c) {
                    self.buf.push(c);
                    push_lower(&mut self.tag_name, c);
                } else if c == '>' && same_chars(&self.tag_name, &chars_of("script")) {
                    self.buf = Vec::new();
                    assert(self.buf@ =~= Seq::<char>::empty());
                    self.emit_tag();
                } else {
                    self.flush_end_tag_prefix();
                    self.state = State::ScriptData;
                    self.script_data(c);
                }
            },
        }
    }

    /// The next token; `Eof` once the input is used up, then `None`. In the data state a
    /// character other than `<` comes out as a `Char` token of its own.
    #[verifier::rlimit(40)]
    pub fn next(&mut self) -> (r: Option<HtmlToken>)
        requires
            old(self).wf(),
        ensures
            final(self).wf(),
            final(self).input() == old(self).input(),
            r is Some ==> final(self).remaining() < old(self).remaining(),
            final(self).remaining() <= old(self).remaining(),
            r matches Some(t) ==> lower_tag(t),
            old(self).in_data() && old(self).rest().len() > 0 && old(self).rest()[0] != '<' ==> r == Some(
                HtmlToken::Char(old(self).rest()[0]),
            ) && final(self).in_data() && final(self).rest() == old(self).rest().drop_first(),
            old(self).in_data() && old(self).rest().len() == 0 ==> r == (if old(self).ended() {
                None::<HtmlToken>
            } else {
                Some(HtmlToken::Eof)
            }) && final(self).ended(),
            (opt_token_view(r), final(self).pos(), final(self).machine()) == next_spec(
                old(self).input(),
                old(self).pos(),
                old(self).machine(),
            ),
    {
        loop
            invariant
                self.wf(),
                next_spec(self.input@, self.pos as int, self.machine()) == next_spec(
                    old(self).input(),
                    old(self).pos(),
                    old(self).machine(),
                ),
                self.input() == old(self).input(),
                self.remaining() <= old(self).remaining(),
                self.eof_emitted == old(self).eof_emitted,
                old(self).in_data() && old(self).rest().len() > 0 && old(self).rest()[0] != '<' ==> self.pos
                    == old(self).pos && self.state == State::Data && self.pending@.len() == 0,
                old(self).pending@.len() == 0 ==> self.pending@.len() == 0,
                self.pos >= old(self).pos,
            decreases self.remaining(),
        {
            if self.pending.len() > 0 {
                let ghost before = self.pending@;
                let t = self.pending.remove(0);
                proof {
                    assert(token_views(self.pending@) =~= token_views(before).drop_first());
                    assert(token_view(t) == token_views(before)[0]);
                    assert(lower_tag(before[0]));
                    assert forall|j: int| 0 <= j < self.pending@.len() implies lower_tag(#[trigger] self.pending@[j]) by {
                        assert(self.pending@[j] == before[j + 1]);
                        assert(lower_tag(before[j + 1]));
                    }
                }
                return Some(t);
            }
            if self.pos >= self.input.len() {
                if self.eof_emitted {
                    return None;
                }
                self.eof_emitted = true;
                self.state = State::Data;
                self.buf = Vec::new();
                assert(self.buf@ =~= Seq::<char>::empty());
                return Some(HtmlToken::Eof);
            }
            let c = self.input[self.pos];
            let ghost fast = old(self).in_data() && old(self).rest().len() > 0 && old(self).rest()[0] != '<';
            proof {
                if fast {
                    assert(old(self).rest()[0] == old(self).input@[self.pos as int]);
                    assert(old(self).rest()[0] == c);
                }
            }
            self.pos += 1;
            proof {
                if fast {
                    lemma_step_data(self.machine(), c);
                }
            }
            self.step(c);
            if self.pending.len() > 0 {
                let ghost before = self.input@.subrange(self.pos - 1, self.input@.len() as int);
                assert(self.rest() =~= before.drop_first());
                let ghost before_t = self.pending@;
                let t = self.pending.remove(0);
                proof {
                    assert(token_views(self.pending@) =~= token_views(before_t).drop_first());
                    assert(token_view(t) == token_views(before_t)[0]);
                    assert(lower_tag(before_t[0]));
                    assert forall|j: int| 0 <= j < self.pending@.len() implies lower_tag(#[trigger] self.pending@[j]) by {
                        assert(self.pending@[j] == before_t[j + 1]);
                        assert(lower_tag(before_t[j + 1]));
                    }
                    if fast {
                        assert(t == HtmlToken::Char(c));
                    }
                }
                return Some(t);
            }
        }
    }
}

} // verus!
