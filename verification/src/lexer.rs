//! The tokenizer: it cuts a source text into tokens, skipping blanks and `#` comments.

use vstd::prelude::*;
use vstd::string::*;
use vstd::utf8::{
    encode_scalar, encode_utf8, encode_utf8_decode_utf8, encode_utf8_first_scalar,
    encode_utf8_valid_utf8, is_char_boundary, pop_first_scalar,
};

verus! {

/// The kind of a token.
#[derive(Debug, Clone, Copy, PartialEq, Eq, Structural)]
pub enum Kind {
    LeftParen,
    RightParen,
    LeftBrace,
    RightBrace,
    Comma,
    Dot,
    Minus,
    Plus,
    Semicolon,
    Slash,
    Star,
    Pound,
    Bang,
    BangEqual,
    Equal,
    EqualEqual,
    Greater,
    GreaterEqual,
    Less,
    LessEqual,
    Identifier,
    String,
    Number,
    And,
    Class,
    Else,
    False,
    For,
    Fun,
    If,
    Nil,
    Or,
    Print,
    Return,
    Super,
    This,
    True,
    Var,
    While,
    Error,
}

/// A token: its kind and the piece of the source that it covers.
#[derive(Debug, PartialEq, Eq)]
pub struct Token<'a> {
    pub kind: Kind,
    pub text: &'a str,
}

impl<'a> Token<'a> {
    pub fn new(kind: Kind, text: &'a str) -> (token: Token<'a>)
        ensures
            token.kind == kind,
            token.text == text,
    {
        Token { kind, text }
    }
}

/// Whether `char::is_alphabetic` holds of `c`.
pub uninterp spec fn alphabetic(c: char) -> bool;

/// Whether `char::is_numeric` holds of `c`.
pub uninterp spec fn numeric(c: char) -> bool;

/// Whether `char::is_whitespace` holds of `c`.
pub uninterp spec fn whitespace(c: char) -> bool;

/// `char::is_alphabetic` consults std's Unicode tables; its answer depends on the
/// character alone and is known here only by the name `alphabetic`.
pub assume_specification[ char::is_alphabetic ](c: char) -> (b: bool)
    ensures
        b == alphabetic(c),
;

/// `char::is_numeric` consults std's Unicode tables; its answer depends on the
/// character alone and is known here only by the name `numeric`.
pub assume_specification[ char::is_numeric ](c: char) -> (b: bool)
    ensures
        b == numeric(c),
;

/// `char::is_whitespace` consults std's Unicode tables; its answer depends on the
/// character alone and is known here only by the name `whitespace`.
pub assume_specification[ char::is_whitespace ](c: char) -> (b: bool)
    ensures
        b == whitespace(c),
;

/// The characters other than `stop`.
pub open spec fn until(stop: char) -> spec_fn(char) -> bool {
    |c: char| c != stop
}

/// The alphabetic characters.
pub open spec fn letters() -> spec_fn(char) -> bool {
    |c: char| alphabetic(c)
}

/// The numeric characters.
pub open spec fn digits() -> spec_fn(char) -> bool {
    |c: char| numeric(c)
}

/// Where the longest run of characters that `keep` accepts, begun at `from`, ends:
/// the first position at or after `from` whose character `keep` rejects, or the
/// end of the text.
pub open spec fn run_end(text: Seq<char>, from: int, keep: spec_fn(char) -> bool) -> int
    decreases text.len() - from,
{
    if 0 <= from < text.len() && keep(text[from]) {
        run_end(text, from + 1, keep)
    } else {
        from
    }
}

/// A run ends between its start and the end of the text, holds only accepted
/// characters, and stops before a rejected one.
pub proof fn lemma_run_end(text: Seq<char>, from: int, keep: spec_fn(char) -> bool)
    requires
        0 <= from <= text.len(),
    ensures
        from <= run_end(text, from, keep) <= text.len(),
        forall|i: int| from <= i < run_end(text, from, keep) ==> keep(#[trigger] text[i]),
        run_end(text, from, keep) < text.len() ==> !keep(text[run_end(text, from, keep)]),
    decreases text.len() - from,
{
    if from < text.len() && keep(text[from]) {
        lemma_run_end(text, from + 1, keep);
    }
}

/// A position that bounds a run of accepted characters from `from`, and is the end
/// of the text or holds a rejected character, is where the run ends.
pub proof fn lemma_run_end_unique(
    text: Seq<char>,
    from: int,
    end: int,
    keep: spec_fn(char) -> bool,
)
    requires
        0 <= from <= end <= text.len(),
        forall|i: int| from <= i < end ==> keep(#[trigger] text[i]),
        end < text.len() ==> !keep(text[end]),
    ensures
        run_end(text, from, keep) == end,
    decreases end - from,
{
    if from < end {
        lemma_run_end_unique(text, from + 1, end, keep);
    }
}

/// Where a comment that holds position `from` ends: behind the next line feed at or
/// after `from`, or at the end of the text where no line feed follows.
pub open spec fn line_end(text: Seq<char>, from: int) -> int {
    let feed = run_end(text, from, until('\n'));
    if feed < text.len() {
        feed + 1
    } else {
        feed
    }
}

/// Where the blanks that begin at `from` end: the first position at or after `from`
/// that holds neither whitespace nor a `#` comment, or the end of the text.
pub open spec fn blank_end(text: Seq<char>, from: int) -> int
    decreases text.len() - from,
    via blank_end_decreases
{
    if 0 <= from < text.len() {
        if whitespace(text[from]) {
            blank_end(text, from + 1)
        } else if text[from] == '#' {
            blank_end(text, line_end(text, from))
        } else {
            from
        }
    } else {
        from
    }
}

#[via_fn]
proof fn blank_end_decreases(text: Seq<char>, from: int) {
    if 0 <= from < text.len() {
        lemma_line_end(text, from);
    }
}

/// A comment ends behind its start and within the text.
pub proof fn lemma_line_end(text: Seq<char>, from: int)
    requires
        0 <= from < text.len(),
    ensures
        from < line_end(text, from) <= text.len(),
{
    lemma_run_end(text, from, until('\n'));
}

/// Blanks end between their start and the end of the text, and what follows them
/// there is neither whitespace nor the start of a comment.
pub proof fn lemma_blank_end(text: Seq<char>, from: int)
    requires
        0 <= from <= text.len(),
    ensures
        from <= blank_end(text, from) <= text.len(),
        blank_end(text, from) < text.len() ==> !whitespace(text[blank_end(text, from)])
            && text[blank_end(text, from)] != '#',
    decreases text.len() - from,
{
    if from < text.len() {
        if whitespace(text[from]) {
            lemma_blank_end(text, from + 1);
        } else if text[from] == '#' {
            lemma_line_end(text, from);
            lemma_blank_end(text, line_end(text, from));
        }
    }
}

/// The kind of the word `word`: that of the keyword it spells, or `Identifier`.
pub open spec fn keyword(word: Seq<char>) -> Kind {
    if word == "and"@ {
        Kind::And
    } else if word == "class"@ {
        Kind::Class
    } else if word == "else"@ {
        Kind::Else
    } else if word == "false"@ {
        Kind::False
    } else if word == "for"@ {
        Kind::For
    } else if word == "fun"@ {
        Kind::Fun
    } else if word == "if"@ {
        Kind::If
    } else if word == "nil"@ {
        Kind::Nil
    } else if word == "or"@ {
        Kind::Or
    } else if word == "print"@ {
        Kind::Print
    } else if word == "return"@ {
        Kind::Return
    } else if word == "super"@ {
        Kind::Super
    } else if word == "this"@ {
        Kind::This
    } else if word == "true"@ {
        Kind::True
    } else if word == "var"@ {
        Kind::Var
    } else if word == "while"@ {
        Kind::While
    } else {
        Kind::Identifier
    }
}

/// A token's kind and the position behind its last character.
pub struct Lexeme {
    pub kind: Kind,
    pub end: int,
}

/// The operator at `at`, where the character at `at` has been read: `double` where
/// an `=` follows it, else `single`.
pub open spec fn operator(text: Seq<char>, at: int, single: Kind, double: Kind) -> Lexeme {
    if at + 1 < text.len() && text[at + 1] == '=' {
        Lexeme { kind: double, end: at + 2 }
    } else {
        Lexeme { kind: single, end: at + 1 }
    }
}

/// The string literal whose opening quote is at `at`: it reaches behind the next
/// quote; where none follows it is an `Error` that reaches the end of the text.
pub open spec fn string_literal(text: Seq<char>, at: int) -> Lexeme {
    let quote = run_end(text, at + 1, until('"'));
    if quote < text.len() {
        Lexeme { kind: Kind::String, end: quote + 1 }
    } else {
        Lexeme { kind: Kind::Error, end: quote }
    }
}

/// The word that begins at `at` with an ASCII letter: that letter and the
/// alphabetic characters behind it.
pub open spec fn word(text: Seq<char>, at: int) -> Lexeme {
    let end = run_end(text, at + 1, letters());
    Lexeme { kind: keyword(text.subrange(at, end)), end }
}

/// The token that begins at position `at` of `text`, for `0 <= at < text.len()`.
pub open spec fn lexeme(text: Seq<char>, at: int) -> Lexeme {
    let c = text[at];
    let single = at + 1;
    if c == '(' {
        Lexeme { kind: Kind::LeftParen, end: single }
    } else if c == ')' {
        Lexeme { kind: Kind::RightParen, end: single }
    } else if c == '{' {
        Lexeme { kind: Kind::LeftBrace, end: single }
    } else if c == '}' {
        Lexeme { kind: Kind::RightBrace, end: single }
    } else if c == ';' {
        Lexeme { kind: Kind::Semicolon, end: single }
    } else if c == ',' {
        Lexeme { kind: Kind::Comma, end: single }
    } else if c == '.' {
        Lexeme { kind: Kind::Dot, end: single }
    } else if c == '-' {
        Lexeme { kind: Kind::Minus, end: single }
    } else if c == '+' {
        Lexeme { kind: Kind::Plus, end: single }
    } else if c == '/' {
        Lexeme { kind: Kind::Slash, end: single }
    } else if c == '*' {
        Lexeme { kind: Kind::Star, end: single }
    } else if c == '#' {
        Lexeme { kind: Kind::Pound, end: single }
    } else if c == '!' {
        operator(text, at, Kind::Bang, Kind::BangEqual)
    } else if c == '=' {
        operator(text, at, Kind::Equal, Kind::EqualEqual)
    } else if c == '<' {
        operator(text, at, Kind::Less, Kind::LessEqual)
    } else if c == '>' {
        operator(text, at, Kind::Greater, Kind::GreaterEqual)
    } else if c == '"' {
        string_literal(text, at)
    } else if '0' <= c <= '9' {
        Lexeme { kind: Kind::Number, end: run_end(text, single, digits()) }
    } else if 'a' <= c <= 'z' || 'A' <= c <= 'Z' {
        word(text, at)
    } else {
        Lexeme { kind: Kind::Error, end: single }
    }
}

/// A token holds at least one character and ends within the text.
pub proof fn lemma_lexeme_bounds(text: Seq<char>, at: int)
    requires
        0 <= at < text.len(),
    ensures
        at < lexeme(text, at).end <= text.len(),
{
    lemma_run_end(text, at + 1, until('"'));
    lemma_run_end(text, at + 1, digits());
    lemma_run_end(text, at + 1, letters());
}

/// What a token is: its kind and the characters that it covers.
pub struct Piece {
    pub kind: Kind,
    pub text: Seq<char>,
}

/// The tokens of `text` from position `from` on, in order.
pub open spec fn pieces(text: Seq<char>, from: int) -> Seq<Piece>
    decreases text.len() - from,
    via pieces_decreases
{
    let at = blank_end(text, from);
    if 0 <= from <= at < text.len() {
        let end = lexeme(text, at).end;
        seq![Piece { kind: lexeme(text, at).kind, text: text.subrange(at, end) }] + pieces(
            text,
            end,
        )
    } else {
        Seq::empty()
    }
}

#[via_fn]
proof fn pieces_decreases(text: Seq<char>, from: int) {
    let at = blank_end(text, from);
    if 0 <= from <= at < text.len() {
        lemma_lexeme_bounds(text, at);
    }
}

/// How many line feeds stand among the first `count` characters of `text`.
pub open spec fn line_feeds(text: Seq<char>, count: int) -> nat
    decreases count,
{
    if count <= 0 {
        0
    } else if text[count - 1] == '\n' {
        line_feeds(text, count - 1) + 1
    } else {
        line_feeds(text, count - 1)
    }
}

/// The line of position `at` of `text`: lines are counted from 1, and a line ends
/// with its line feed.
pub open spec fn line_at(text: Seq<char>, at: int) -> nat {
    line_feeds(text, at) + 1
}

/// Where a tokenizer stands: the source, where the token being read began, the
/// position of the next character to read, and the line on which the last token
/// that was handed out began (1 before the first).
pub struct Cursor {
    pub text: Seq<char>,
    pub start: int,
    pub current: int,
    pub line: int,
}

impl Cursor {
    /// The tokenizer at the start of `text`.
    pub open spec fn at_start(text: Seq<char>) -> Cursor {
        Cursor { text, start: 0, current: 0, line: 1 }
    }

    /// The positions lie in the text, the start of the token not behind the
    /// current one.
    pub open spec fn well_formed(self) -> bool {
        0 <= self.start <= self.current <= self.text.len()
    }
}

/// A tokenizer over a source text. `next` hands out its tokens one by one.
pub struct Tokens<'a> {
    /// The whole text.
    source: &'a str,
    /// The text from the start of the token on.
    rest: &'a str,
    /// The text from the current position on.
    ahead: &'a str,
    start: usize,
    current: usize,
    /// The number of line feeds before the current position.
    feeds: usize,
    line: usize,
}

impl<'a> View for Tokens<'a> {
    type V = Cursor;

    closed spec fn view(&self) -> Cursor {
        Cursor {
            text: self.source@,
            start: self.start as int,
            current: self.current as int,
            line: self.line as int,
        }
    }
}

impl<'a> vstd::std_specs::convert::FromSpecImpl<&'a str> for Tokens<'a> {
    open spec fn obeys_from_spec() -> bool {
        true
    }

    closed spec fn from_spec(source: &'a str) -> Tokens<'a> {
        Tokens { source, rest: source, ahead: source, start: 0, current: 0, feeds: 0, line: 1 }
    }
}

impl<'a> From<&'a str> for Tokens<'a> {
    /// A tokenizer at the start of `source`.
    fn from(source: &'a str) -> (tokens: Tokens<'a>)
        ensures
            tokens@ == Cursor::at_start(source@),
    {
        let bytes = source.as_bytes().len();
        proof {
            lemma_encoding_len(source@);
            assert(source@.len() <= bytes);
            assert(source@.skip(0) =~= source@);
        }
        Tokens { source, rest: source, ahead: source, start: 0, current: 0, feeds: 0, line: 1 }
    }
}

/// Steps over one character, of which `behind` is the text that follows it, and
/// counts it where it is a line feed.
fn step<'a>(
    current: &mut usize,
    feeds: &mut usize,
    ahead: &mut &'a str,
    behind: &'a str,
    feed: bool,
)
    requires
        *old(feeds) <= *old(current) < usize::MAX,
    ensures
        *final(current) == *old(current) + 1,
        feed ==> *final(feeds) == *old(feeds) + 1,
        !feed ==> *final(feeds) == *old(feeds),
        *final(ahead) == behind,
    no_unwind
{
    *current += 1;
    if feed {
        *feeds += 1;
    }
    *ahead = behind;
}

/// A text has no more characters than its encoding has bytes.
proof fn lemma_encoding_len(text: Seq<char>)
    ensures
        text.len() <= encode_utf8(text).len(),
    decreases text.len(),
{
    if text.len() > 0 {
        lemma_encoding_len(text.drop_first());
    }
}

/// The encoding of a text is the encoding of its front followed by that of its
/// back.
proof fn lemma_encoding_of_parts(front: Seq<char>, back: Seq<char>)
    ensures
        encode_utf8(front + back) == encode_utf8(front) + encode_utf8(back),
    decreases front.len(),
{
    if front.len() == 0 {
        assert(front + back =~= back);
        assert(encode_utf8(front) + encode_utf8(back) =~= encode_utf8(back));
    } else {
        lemma_encoding_of_parts(front.drop_first(), back);
        assert((front + back).drop_first() =~= front.drop_first() + back);
        assert(encode_utf8(front + back) =~= encode_utf8(front) + encode_utf8(back));
    }
}

/// In the encoding of a text, a character begins where the encoding of a front
/// part of the text ends.
proof fn lemma_boundary_behind_front(front: Seq<char>, back: Seq<char>)
    ensures
        is_char_boundary(encode_utf8(front + back), encode_utf8(front).len() as int),
    decreases front.len(),
{
    let whole = front + back;
    let bytes = encode_utf8(whole);
    encode_utf8_valid_utf8(whole);
    if front.len() > 0 {
        encode_utf8_first_scalar(whole);
        lemma_encoding_of_parts(front, back);
        lemma_boundary_behind_front(front.drop_first(), back);
        assert(whole.drop_first() =~= front.drop_first() + back);
        assert(pop_first_scalar(bytes) =~= encode_utf8(whole.drop_first()));
        assert(encode_utf8(front).len() == encode_scalar(front[0] as u32).len() + encode_utf8(
            front.drop_first(),
        ).len());
    }
}

/// A text is what its encoding decodes to, so texts with one encoding are one
/// text.
proof fn lemma_text_by_encoding(one: Seq<char>, other: Seq<char>)
    requires
        encode_utf8(one) == encode_utf8(other),
    ensures
        one == other,
{
    encode_utf8_decode_utf8(one);
    encode_utf8_decode_utf8(other);
}

/// The first `count` characters of `text`, and the text behind them.
fn split_chars<'a>(text: &'a str, count: usize) -> (parts: (&'a str, &'a str))
    requires
        count <= text@.len(),
    ensures
        parts.0@ == text@.take(count as int),
        parts.1@ == text@.skip(count as int),
{
    let front = text.substring_char(0, count);
    let ghost back = text@.skip(count as int);
    proof {
        assert(front@ =~= text@.take(count as int));
        assert(text@ =~= front@ + back);
        lemma_encoding_of_parts(front@, back);
        lemma_boundary_behind_front(front@, back);
    }
    let parts = text.split_at(front.as_bytes().len());
    proof {
        assert(parts.1.spec_bytes() =~= encode_utf8(back));
        lemma_text_by_encoding(parts.1@, back);
    }
    (front, parts.1)
}

/// Lets the token begin at position `at`, where `rest` is the text from there on.
fn restart<'a>(start: &mut usize, rest: &mut &'a str, at: usize, behind: &'a str)
    ensures
        *final(start) == at,
        *final(rest) == behind,
    no_unwind
{
    *start = at;
    *rest = behind;
}

impl<'a> Tokens<'a> {
    #[verifier::type_invariant]
    spec fn consistent(self) -> bool {
        &&& self.source@.len() <= usize::MAX
        &&& self.start <= self.current <= self.source@.len()
        &&& self.rest@ == self.source@.skip(self.start as int)
        &&& self.ahead@ == self.source@.skip(self.current as int)
        &&& self.feeds == line_feeds(self.source@, self.current as int)
        &&& self.feeds <= self.current
    }

    /// The line on which the token that `next` handed out last began; 1 before
    /// the first token.
    pub fn line(&self) -> (line: usize)
        ensures
            line == self@.line,
    {
        self.line
    }

    /// The character at the current position, if the text has one there.
    fn peek(&self) -> (ch: Option<char>)
        ensures
            self@.well_formed(),
            self@.current < self@.text.len() ==> ch == Some(self@.text[self@.current]),
            self@.current >= self@.text.len() ==> ch is None,
    {
        proof {
            use_type_invariant(self);
        }
        if self.ahead.is_empty() {
            None
        } else {
            Some(self.ahead.get_char(0))
        }
    }

    /// Reads the character at the current position and steps behind it; at the end
    /// of the text it returns `None` and stays.
    pub fn advance(&mut self) -> (ch: Option<char>)
        ensures
            old(self)@.well_formed(),
            old(self)@.current < old(self)@.text.len() ==> ({
                &&& ch == Some(old(self)@.text[old(self)@.current])
                &&& final(self)@ == (Cursor { current: old(self)@.current + 1, ..old(self)@ })
            }),
            old(self)@.current >= old(self)@.text.len() ==> ({
                &&& ch is None
                &&& final(self)@ == old(self)@
            }),
    {
        proof {
            use_type_invariant(&*self);
        }
        if self.ahead.is_empty() {
            None
        } else {
            let c = self.ahead.get_char(0);
            let parts = split_chars(self.ahead, 1);
            proof {
                assert(parts.1@ =~= self@.text.skip(self@.current + 1));
            }
            step(&mut self.current, &mut self.feeds, &mut self.ahead, parts.1, c == '\n');
            Some(c)
        }
    }

    /// Steps over the characters that `func` accepts, up to the first one that it
    /// rejects or the end of the text.
    pub fn advance_while(&mut self, func: impl Fn(char) -> bool)
        requires
            forall|c: char| call_requires(func, (c,)),
        ensures
            old(self)@.well_formed(),
            final(self)@ == (Cursor { current: final(self)@.current, ..old(self)@ }),
            old(self)@.current <= final(self)@.current <= old(self)@.text.len(),
            forall|i: int|
                old(self)@.current <= i < final(self)@.current ==> call_ensures(
                    func,
                    (#[trigger] old(self)@.text[i],),
                    true,
                ),
            final(self)@.current < old(self)@.text.len() ==> call_ensures(
                func,
                (old(self)@.text[final(self)@.current],),
                false,
            ),
    {
        let ghost text = self@.text;
        let ghost from = self@.current;
        proof {
            use_type_invariant(&*self);
        }
        loop
            invariant_except_break
                text == old(self)@.text,
                self@ == (Cursor { current: self@.current, ..old(self)@ }),
                from <= self@.current <= text.len(),
                forall|c: char| call_requires(func, (c,)),
                forall|i: int|
                    from <= i < self@.current ==> call_ensures(func, (#[trigger] text[i],), true),
            ensures
                text == old(self)@.text,
                self@ == (Cursor { current: self@.current, ..old(self)@ }),
                from <= self@.current <= text.len(),
                forall|i: int|
                    from <= i < self@.current ==> call_ensures(func, (#[trigger] text[i],), true),
                self@.current < text.len() ==> call_ensures(func, (text[self@.current],), false),
            decreases text.len() - self@.current,
        {
            match self.peek() {
                Some(c) => {
                    if func(c) {
                        self.advance();
                    } else {
                        break ;
                    }
                },
                None => {
                    break ;
                },
            }
        }
    }

    /// Steps over the next character where it is `expected`, and then returns `kind`;
    /// elsewhere, and at the end of the text, it stays and returns `None`.
    pub fn matches(&mut self, expected: char, kind: Kind) -> (found: Option<Kind>)
        ensures
            old(self)@.well_formed(),
            old(self)@.current < old(self)@.text.len() && old(self)@.text[old(self)@.current]
                == expected ==> found == Some(kind) && final(self)@ == (Cursor {
                current: old(self)@.current + 1,
                ..old(self)@
            }),
            !(old(self)@.current < old(self)@.text.len() && old(self)@.text[old(self)@.current]
                == expected) ==> found is None && final(self)@ == old(self)@,
    {
        match self.peek() {
            Some(c) => {
                if c == expected {
                    self.advance();
                    Some(kind)
                } else {
                    None
                }
            },
            None => None,
        }
    }

    /// Whether the characters from the start of the token to the current position
    /// spell `word`.
    fn spells(&self, word: &str) -> (same: bool)
        ensures
            same == (self@.text.subrange(self@.start, self@.current) == word@),
    {
        proof {
            use_type_invariant(self);
        }
        let ghost lexeme = self@.text.subrange(self@.start, self@.current);
        let length: usize = word.unicode_len();
        if self.current - self.start != length {
            return false;
        }
        let mut i: usize = 0;
        while i < length
            invariant
                self.rest@ == self@.text.skip(self.start as int),
                self.start + length == self.current <= self@.text.len(),
                lexeme == self@.text.subrange(self@.start, self@.current),
                length == word@.len(),
                0 <= i <= length,
                forall|j: int| 0 <= j < i ==> lexeme[j] == word@[j],
            decreases length - i,
        {
            if self.rest.get_char(i) != word.get_char(i) {
                assert(lexeme[i as int] != word@[i as int]);
                return false;
            }
            i += 1;
        }
        assert(lexeme =~= word@);
        true
    }

    /// Reads the rest of a word whose first letter has been read, and tells which
    /// keyword the token is, or that it is an identifier.
    pub fn identifier_or_keyword(&mut self) -> (kind: Kind)
        ensures
            old(self)@.well_formed(),
            final(self)@ == (Cursor {
                current: run_end(old(self)@.text, old(self)@.current, letters()),
                ..old(self)@
            }),
            kind == keyword(old(self)@.text.subrange(old(self)@.start, final(self)@.current)),
    {
        let ghost text = self@.text;
        let ghost from = self@.current;
        let accept = |c: char| -> (keep: bool)
            ensures
                keep == alphabetic(c)
            { c.is_alphabetic() };
        self.advance_while(accept);
        proof {
            lemma_run_end_unique(text, from, self@.current, letters());
        }
        if self.spells("and") {
            Kind::And
        } else if self.spells("class") {
            Kind::Class
        } else if self.spells("else") {
            Kind::Else
        } else if self.spells("false") {
            Kind::False
        } else if self.spells("for") {
            Kind::For
        } else if self.spells("fun") {
            Kind::Fun
        } else if self.spells("if") {
            Kind::If
        } else if self.spells("nil") {
            Kind::Nil
        } else if self.spells("or") {
            Kind::Or
        } else if self.spells("print") {
            Kind::Print
        } else if self.spells("return") {
            Kind::Return
        } else if self.spells("super") {
            Kind::Super
        } else if self.spells("this") {
            Kind::This
        } else if self.spells("true") {
            Kind::True
        } else if self.spells("var") {
            Kind::Var
        } else if self.spells("while") {
            Kind::While
        } else {
            Kind::Identifier
        }
    }

    /// Reads the rest of a string literal whose opening quote has been read: up to
    /// and with the closing quote. Where the text ends before one, the kind is
    /// `Error`.
    pub fn string(&mut self) -> (kind: Kind)
        ensures
            old(self)@.well_formed(),
            ({
                let quote = run_end(old(self)@.text, old(self)@.current, until('"'));
                if quote < old(self)@.text.len() {
                    kind == Kind::String && final(self)@ == (Cursor {
                        current: quote + 1,
                        ..old(self)@
                    })
                } else {
                    kind == Kind::Error && final(self)@ == (Cursor {
                        current: quote,
                        ..old(self)@
                    })
                }
            }),
    {
        let ghost text = self@.text;
        let ghost from = self@.current;
        let accept = |c: char| -> (keep: bool)
            ensures
                keep == (c != '"')
            { c != '"' };
        self.advance_while(accept);
        proof {
            lemma_run_end_unique(text, from, self@.current, until('"'));
        }
        match self.advance() {
            Some(_) => Kind::String,
            None => Kind::Error,
        }
    }

    /// Reads the rest of a number whose first digit has been read.
    pub fn number(&mut self) -> (kind: Kind)
        ensures
            old(self)@.well_formed(),
            final(self)@ == (Cursor {
                current: run_end(old(self)@.text, old(self)@.current, digits()),
                ..old(self)@
            }),
            kind == Kind::Number,
    {
        let ghost text = self@.text;
        let ghost from = self@.current;
        let accept = |c: char| -> (keep: bool)
            ensures
                keep == numeric(c)
            { c.is_numeric() };
        self.advance_while(accept);
        proof {
            lemma_run_end_unique(text, from, self@.current, digits());
        }
        Kind::Number
    }

    /// Steps behind the next line feed, or to the end of the text where none
    /// follows.
    pub fn skip_line(&mut self)
        ensures
            old(self)@.well_formed(),
            final(self)@ == (Cursor {
                current: line_end(old(self)@.text, old(self)@.current),
                ..old(self)@
            }),
    {
        let ghost text = self@.text;
        let ghost from = self@.current;
        let accept = |c: char| -> (keep: bool)
            ensures
                keep == (c != '\n')
            { c != '\n' };
        self.advance_while(accept);
        proof {
            lemma_run_end_unique(text, from, self@.current, until('\n'));
        }
        self.advance();
    }

    /// Steps over whitespace and comments, and lets the next token begin where
    /// they end.
    pub fn skip_whitespace_and_comments(&mut self)
        ensures
            old(self)@.well_formed(),
            final(self)@ == (Cursor {
                start: blank_end(old(self)@.text, old(self)@.current),
                current: blank_end(old(self)@.text, old(self)@.current),
                ..old(self)@
            }),
    {
        let ghost text = self@.text;
        let ghost from = self@.current;
        proof {
            use_type_invariant(&*self);
        }
        loop
            invariant_except_break
                text == old(self)@.text,
                self@ == (Cursor { current: self@.current, ..old(self)@ }),
                from <= self@.current <= text.len(),
                blank_end(text, self@.current) == blank_end(text, from),
            ensures
                text == old(self)@.text,
                self@ == (Cursor { current: self@.current, ..old(self)@ }),
                from <= self@.current <= text.len(),
                self@.current == blank_end(text, from),
            decreases text.len() - self@.current,
        {
            match self.peek() {
                Some(c) => {
                    if c.is_whitespace() {
                        self.advance();
                    } else if c == '#' {
                        proof {
                            lemma_line_end(text, self@.current);
                        }
                        self.skip_line();
                    } else {
                        break ;
                    }
                },
                None => {
                    break ;
                },
            }
        }
        self.cut();
    }

    /// The next token of the source, or `None` where only blanks are left.
    ///
    /// The token begins where the blanks behind the current position end, and the
    /// tokenizer then stands behind it.
    pub fn next(&mut self) -> (token: Option<Token<'a>>)
        ensures
            old(self)@.well_formed(),
            ({
                let text = old(self)@.text;
                let at = blank_end(text, old(self)@.current);
                let end = lexeme(text, at).end;
                if at < text.len() {
                    &&& token is Some
                    &&& token->0.kind == lexeme(text, at).kind
                    &&& token->0.kind != Kind::Pound
                    &&& token->0.text@ == text.subrange(at, end)
                    &&& old(self)@.current <= at < end <= text.len()
                    &&& final(self)@ == (Cursor {
                        text,
                        start: end,
                        current: end,
                        line: line_at(text, at) as int,
                    })
                } else {
                    &&& token is None
                    &&& final(self)@ == (Cursor {
                        start: text.len() as int,
                        current: text.len() as int,
                        ..old(self)@
                    })
                }
            }),
    {
        proof {
            use_type_invariant(&*self);
            lemma_blank_end(self@.text, self@.current);
        }
        self.skip_whitespace_and_comments();
        self.token()
    }

    /// The token that begins at the current position, blank or not, or `None` at
    /// the end of the text. The tokenizer then stands behind the token.
    pub fn token(&mut self) -> (token: Option<Token<'a>>)
        ensures
            old(self)@.well_formed(),
            ({
                let text = old(self)@.text;
                let at = old(self)@.current;
                let end = lexeme(text, at).end;
                if at < text.len() {
                    &&& token is Some
                    &&& token->0.kind == lexeme(text, at).kind
                    &&& token->0.text@ == text.subrange(at, end)
                    &&& at < end <= text.len()
                    &&& final(self)@ == (Cursor {
                        text,
                        start: end,
                        current: end,
                        line: line_at(text, at) as int,
                    })
                } else {
                    &&& token is None
                    &&& final(self)@ == (Cursor { start: at, ..old(self)@ })
                }
            }),
    {
        let ghost text = self@.text;
        let ghost at = self@.current;
        proof {
            use_type_invariant(&*self);
            if at < text.len() {
                lemma_lexeme_bounds(text, at);
            }
        }
        self.cut();
        proof {
            use_type_invariant(&*self);
        }
        let line = self.feeds;
        let first = match self.advance() {
            Some(c) => c,
            None => {
                return None;
            },
        };
        self.set_line(line + 1);
        let kind = match first {
            '(' => Kind::LeftParen,
            ')' => Kind::RightParen,
            '{' => Kind::LeftBrace,
            '}' => Kind::RightBrace,
            ';' => Kind::Semicolon,
            ',' => Kind::Comma,
            '.' => Kind::Dot,
            '-' => Kind::Minus,
            '+' => Kind::Plus,
            '/' => Kind::Slash,
            '*' => Kind::Star,
            '#' => Kind::Pound,
            '!' => self.matches('=', Kind::BangEqual).unwrap_or(Kind::Bang),
            '=' => self.matches('=', Kind::EqualEqual).unwrap_or(Kind::Equal),
            '<' => self.matches('=', Kind::LessEqual).unwrap_or(Kind::Less),
            '>' => self.matches('=', Kind::GreaterEqual).unwrap_or(Kind::Greater),
            '"' => self.string(),
            '0'..='9' => self.number(),
            'a'..='z' | 'A'..='Z' => self.identifier_or_keyword(),
            _ => Kind::Error,
        };
        let text = self.cut();
        Some(Token::new(kind, text))
    }

    /// Hands out the characters from the start of the token to the current
    /// position, and lets the next token begin behind them.
    fn cut(&mut self) -> (piece: &'a str)
        ensures
            old(self)@.well_formed(),
            piece@ == old(self)@.text.subrange(old(self)@.start, old(self)@.current),
            final(self)@ == (Cursor { start: old(self)@.current, ..old(self)@ }),
    {
        proof {
            use_type_invariant(&*self);
        }
        let piece = self.rest.substring_char(0, self.current - self.start);
        proof {
            assert(piece@ =~= self@.text.subrange(self.start as int, self.current as int));
        }
        restart(&mut self.start, &mut self.rest, self.current, self.ahead);
        piece
    }

    /// Notes the line on which the token being read began.
    fn set_line(&mut self, line: usize)
        ensures
            final(self)@ == (Cursor { line: line as int, ..old(self)@ }),
    {
        proof {
            use_type_invariant(&*self);
        }
        self.line = line;
    }
}

/// All tokens of `source`, in order.
pub fn compile(source: &str) -> (tokens: Vec<Token<'_>>)
    ensures
        tokens.len() == pieces(source@, 0).len(),
        forall|i: int|
            0 <= i < tokens.len() ==> (#[trigger] tokens[i]).kind == pieces(source@, 0)[i].kind
                && tokens[i].text@ == pieces(source@, 0)[i].text,
{
    let mut reader = Tokens::from(source);
    let mut tokens: Vec<Token<'_>> = Vec::new();
    let ghost all = pieces(source@, 0);
    loop
        invariant_except_break
            reader@.text == source@,
            reader@.well_formed(),
            all == pieces(source@, 0),
            all =~= all.take(tokens.len() as int) + pieces(source@, reader@.current),
            tokens.len() <= all.len(),
            forall|i: int|
                0 <= i < tokens.len() ==> (#[trigger] tokens[i]).kind == all[i].kind
                    && tokens[i].text@ == all[i].text,
        ensures
            all == pieces(source@, 0),
            tokens.len() == all.len(),
            forall|i: int|
                0 <= i < tokens.len() ==> (#[trigger] tokens[i]).kind == all[i].kind
                    && tokens[i].text@ == all[i].text,
        decreases source@.len() - reader@.current,
    {
        let ghost from = reader@.current;
        let ghost rest = pieces(source@, from);
        proof {
            lemma_blank_end(source@, from);
        }
        match reader.next() {
            Some(token) => {
                let ghost count = tokens.len() as int;
                tokens.push(token);
                proof {
                    assert(rest =~= seq![rest[0]] + pieces(source@, reader@.current));
                    assert(all[count] == rest[0]);
                    assert(all.take(count + 1) =~= all.take(count) + seq![rest[0]]);
                }
            },
            None => {
                proof {
                    assert(rest =~= Seq::<Piece>::empty());
                    assert(all =~= all.take(tokens.len() as int));
                }
                break ;
            },
        }
    }
    tokens
}

} // verus!
