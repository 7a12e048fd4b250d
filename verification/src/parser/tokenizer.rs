use super::number::{
    decimal_of, is_decimal, is_digit, lemma_separator_is, Number, NumberView,
};
use crate::text::{characters, same_text};
use vstd::prelude::*;
use vstd::std_specs::cmp::PartialEqSpecImpl;
use vstd::std_specs::convert::TryFromSpecImpl;
use vstd::string::StringExecFns;

verus! {

/// The reserved words of the language.
#[derive(Clone, Copy, Debug, PartialEq, Eq, Structural)]
pub enum Keyword {
    Fn,
    Do,
    End,
    DefExtern,
}

/// The binary operators of the language.
#[derive(Clone, Copy, Debug, PartialEq, Eq, Structural)]
pub enum BinaryOperator {
    Add,
    Sub,
    Mul,
}

/// Mathematical model of a [`TokenValue`], and of a [`Token`].
pub enum TokenView {
    Keyword(Keyword),
    Identifier(Seq<char>),
    NumConst(NumberView),
    Operator(BinaryOperator),
    OpenParen,
    CloseParen,
    OpenSqBracket,
    CloseSqBracket,
    Comma,
    Colon,
    SemiColon,
    ReturnArrow,
}

/// What a token is, with the text or number it carries.
#[derive(Debug)]
pub enum TokenValue {
    Keyword(Keyword),
    Identifier(String),
    NumConst(Number),
    Operator(BinaryOperator),
    OpenParen,
    CloseParen,
    OpenSqBracket,
    CloseSqBracket,
    Comma,
    Colon,
    SemiColon,
    ReturnArrow,
}

/// One lexical unit of the source text.
#[derive(Debug)]
pub struct Token {
    pub value: TokenValue,
}

impl View for TokenValue {
    type V = TokenView;

    open spec fn view(&self) -> TokenView {
        match self {
            TokenValue::Keyword(keyword) => TokenView::Keyword(*keyword),
            TokenValue::Identifier(name) => TokenView::Identifier(name@),
            TokenValue::NumConst(number) => TokenView::NumConst(number@),
            TokenValue::Operator(operator) => TokenView::Operator(*operator),
            TokenValue::OpenParen => TokenView::OpenParen,
            TokenValue::CloseParen => TokenView::CloseParen,
            TokenValue::OpenSqBracket => TokenView::OpenSqBracket,
            TokenValue::CloseSqBracket => TokenView::CloseSqBracket,
            TokenValue::Comma => TokenView::Comma,
            TokenValue::Colon => TokenView::Colon,
            TokenValue::SemiColon => TokenView::SemiColon,
            TokenValue::ReturnArrow => TokenView::ReturnArrow,
        }
    }
}

impl View for Token {
    type V = TokenView;

    open spec fn view(&self) -> TokenView {
        self.value@
    }
}

/// The models of a sequence of tokens, in order.
pub open spec fn token_views(tokens: Seq<Token>) -> Seq<TokenView> {
    tokens.map_values(|token: Token| token@)
}

impl PartialEq for TokenValue {
    fn eq(&self, other: &TokenValue) -> (same: bool) {
        match self {
            TokenValue::Keyword(keyword) => match other {
                TokenValue::Keyword(other_keyword) => *keyword == *other_keyword,
                _ => false,
            },
            TokenValue::Identifier(name) => match other {
                TokenValue::Identifier(other_name) => *name == *other_name,
                _ => false,
            },
            TokenValue::NumConst(number) => match other {
                TokenValue::NumConst(other_number) => *number == *other_number,
                _ => false,
            },
            TokenValue::Operator(operator) => match other {
                TokenValue::Operator(other_operator) => *operator == *other_operator,
                _ => false,
            },
            TokenValue::OpenParen => matches!(other, TokenValue::OpenParen),
            TokenValue::CloseParen => matches!(other, TokenValue::CloseParen),
            TokenValue::OpenSqBracket => matches!(other, TokenValue::OpenSqBracket),
            TokenValue::CloseSqBracket => matches!(other, TokenValue::CloseSqBracket),
            TokenValue::Comma => matches!(other, TokenValue::Comma),
            TokenValue::Colon => matches!(other, TokenValue::Colon),
            TokenValue::SemiColon => matches!(other, TokenValue::SemiColon),
            TokenValue::ReturnArrow => matches!(other, TokenValue::ReturnArrow),
        }
    }
}

impl PartialEqSpecImpl for TokenValue {
    open spec fn obeys_eq_spec() -> bool {
        true
    }

    open spec fn eq_spec(&self, other: &TokenValue) -> bool {
        self@ == other@
    }
}

impl Eq for TokenValue {}

impl PartialEq for Token {
    fn eq(&self, other: &Token) -> (same: bool) {
        self.value == other.value
    }
}

impl PartialEqSpecImpl for Token {
    open spec fn obeys_eq_spec() -> bool {
        true
    }

    open spec fn eq_spec(&self, other: &Token) -> bool {
        self@ == other@
    }
}

impl Eq for Token {}

impl Clone for TokenValue {
    fn clone(&self) -> (copy: TokenValue)
        ensures
            copy@ == self@,
    {
        match self {
            TokenValue::Keyword(keyword) => TokenValue::Keyword(*keyword),
            TokenValue::Identifier(name) => TokenValue::Identifier(name.clone()),
            TokenValue::NumConst(number) => TokenValue::NumConst(number.clone()),
            TokenValue::Operator(operator) => TokenValue::Operator(*operator),
            TokenValue::OpenParen => TokenValue::OpenParen,
            TokenValue::CloseParen => TokenValue::CloseParen,
            TokenValue::OpenSqBracket => TokenValue::OpenSqBracket,
            TokenValue::CloseSqBracket => TokenValue::CloseSqBracket,
            TokenValue::Comma => TokenValue::Comma,
            TokenValue::Colon => TokenValue::Colon,
            TokenValue::SemiColon => TokenValue::SemiColon,
            TokenValue::ReturnArrow => TokenValue::ReturnArrow,
        }
    }
}

impl Clone for Token {
    fn clone(&self) -> (copy: Token)
        ensures
            copy@ == self@,
    {
        Token { value: self.value.clone() }
    }
}

impl Token {
    /// The token of the given value.
    pub fn new(value: TokenValue) -> (token: Token)
        ensures
            token.value == value,
    {
        Token { value }
    }

    /// The token of a keyword.
    pub fn keyword(kw: Keyword) -> (token: Token)
        ensures
            token@ == TokenView::Keyword(kw),
    {
        Token::new(TokenValue::Keyword(kw))
    }

    /// The token of a name.
    pub fn identifier(string: String) -> (token: Token)
        ensures
            token@ == TokenView::Identifier(string@),
    {
        Token::new(TokenValue::Identifier(string))
    }

    /// The token of a numeric constant.
    pub fn num_const(number: Number) -> (token: Token)
        ensures
            token@ == TokenView::NumConst(number@),
    {
        Token::new(TokenValue::NumConst(number))
    }
}

/// The keyword that a word spells, if it spells one.
pub open spec fn keyword_of(word: Seq<char>) -> Option<Keyword> {
    if word == "fn"@ {
        Some(Keyword::Fn)
    } else if word == "do"@ {
        Some(Keyword::Do)
    } else if word == "end"@ {
        Some(Keyword::End)
    } else if word == "defextern"@ {
        Some(Keyword::DefExtern)
    } else {
        None
    }
}

impl BinaryOperator {
    /// How tightly the operator binds: a higher number binds tighter.
    pub open spec fn spec_precedence(&self) -> u16 {
        match self {
            BinaryOperator::Add | BinaryOperator::Sub => 10,
            BinaryOperator::Mul => 20,
        }
    }

    /// How tightly the operator binds: 20 for multiplication, 10 for
    /// addition and subtraction.
    #[verifier::when_used_as_spec(spec_precedence)]
    pub fn precedence(&self) -> (p: u16)
        ensures
            p == self.spec_precedence(),
    {
        match self {
            BinaryOperator::Add | BinaryOperator::Sub => 10,
            BinaryOperator::Mul => 20,
        }
    }
}

/// The keyword that a text spells; any other text is refused with the
/// message `Invalid keyword`.
impl TryFrom<&str> for Keyword {
    type Error = &'static str;

    fn try_from(value: &str) -> (found: Result<Keyword, &'static str>)
        ensures
            match keyword_of(value@) {
                Some(keyword) => found == Ok::<Keyword, &'static str>(keyword),
                None => found matches Err(message) && message@ == "Invalid keyword"@,
            },
    {
        if same_text(value, "fn") {
            Ok(Keyword::Fn)
        } else if same_text(value, "do") {
            Ok(Keyword::Do)
        } else if same_text(value, "end") {
            Ok(Keyword::End)
        } else if same_text(value, "defextern") {
            Ok(Keyword::DefExtern)
        } else {
            Err("Invalid keyword")
        }
    }
}

impl TryFromSpecImpl<&str> for Keyword {
    open spec fn obeys_try_from_spec() -> bool {
        false
    }

    open spec fn try_from_spec(value: &str) -> Result<Keyword, &'static str> {
        match keyword_of(value@) {
            Some(keyword) => Ok(keyword),
            None => Err("Invalid keyword"),
        }
    }
}

impl TryFrom<String> for Keyword {
    type Error = &'static str;

    fn try_from(value: String) -> (found: Result<Keyword, &'static str>)
        ensures
            match keyword_of(value@) {
                Some(keyword) => found == Ok::<Keyword, &'static str>(keyword),
                None => found matches Err(message) && message@ == "Invalid keyword"@,
            },
    {
        Keyword::try_from(value.as_str())
    }
}

impl TryFromSpecImpl<String> for Keyword {
    open spec fn obeys_try_from_spec() -> bool {
        false
    }

    open spec fn try_from_spec(value: String) -> Result<Keyword, &'static str> {
        match keyword_of(value@) {
            Some(keyword) => Ok(keyword),
            None => Err("Invalid keyword"),
        }
    }
}

/// What `char::is_numeric` answers for a character.
pub uninterp spec fn char_is_numeric(c: char) -> bool;

/// What `char::is_alphabetic` answers for a character.
pub uninterp spec fn char_is_alphabetic(c: char) -> bool;

/// What `char::is_whitespace` answers for a character.
pub uninterp spec fn char_is_whitespace(c: char) -> bool;

/// `char::is_numeric`: whether the character is in one of Unicode's numeric
/// categories. The answer depends on the character alone.
pub assume_specification[ char::is_numeric ](c: char) -> (b: bool)
    ensures
        b == char_is_numeric(c),
;

/// `char::is_alphabetic`: whether the character has Unicode's `Alphabetic`
/// property. The answer depends on the character alone.
pub assume_specification[ char::is_alphabetic ](c: char) -> (b: bool)
    ensures
        b == char_is_alphabetic(c),
;

/// `char::is_whitespace`: whether the character has Unicode's `White_Space`
/// property. The answer depends on the character alone.
pub assume_specification[ char::is_whitespace ](c: char) -> (b: bool)
    ensures
        b == char_is_whitespace(c),
;

/// `String::push`: appends the character to the end of the string.
pub assume_specification[ String::push ](s: &mut String, c: char)
    ensures
        final(s)@ == old(s)@.push(c),
;

/// Where lexing stopped, and why.
#[derive(Clone, Copy, Debug, PartialEq, Eq, Structural)]
pub enum LexErrorKind {
    /// A character that starts no token and is no whitespace.
    InvalidCharacter(char),
    /// A run of digits and separators that is no decimal number.
    MalformedNumber,
}

/// A lexical error, with the index of the character at which it arose.
#[derive(Clone, Copy, Debug, PartialEq, Eq, Structural)]
pub struct LexError {
    pub kind: LexErrorKind,
    pub position: usize,
}

/// The two kinds of token that extend over a run of characters.
#[derive(Clone, Copy, Debug, PartialEq, Eq, Structural)]
pub enum Run {
    Number,
    Word,
}

impl Run {
    /// Whether a run of this kind, once begun, goes on over `c`: a number
    /// over numeric characters and the separator, a word over alphabetic
    /// characters and the separator.
    pub open spec fn continues(self, c: char) -> bool {
        match self {
            Run::Number => number_continues(c),
            Run::Word => word_continues(c),
        }
    }
}

/// Whether a number goes on over `c`.
pub open spec fn number_continues(c: char) -> bool {
    char_is_numeric(c) || c == '.'
}

/// Whether a word goes on over `c`.
pub open spec fn word_continues(c: char) -> bool {
    char_is_alphabetic(c) || c == '.'
}

/// The index at which the run that is under way at `start` ends: that of the
/// first character from `start` on which the run does not go on, or the
/// length of the text.
pub open spec fn run_end(s: Seq<char>, start: int, run: Run) -> int
    decreases s.len() - start,
{
    if 0 <= start < s.len() && run.continues(s[start]) {
        run_end(s, start + 1, run)
    } else {
        start
    }
}

/// The token that a word is: a keyword if it spells one, else an identifier.
pub open spec fn word_token(word: Seq<char>) -> TokenView {
    match keyword_of(word) {
        Some(keyword) => TokenView::Keyword(keyword),
        None => TokenView::Identifier(word),
    }
}

/// The token of a punctuation character or an operator other than `-`.
pub open spec fn symbol_token(c: char) -> Option<TokenView> {
    if c == '+' {
        Some(TokenView::Operator(BinaryOperator::Add))
    } else if c == '*' {
        Some(TokenView::Operator(BinaryOperator::Mul))
    } else if c == '(' {
        Some(TokenView::OpenParen)
    } else if c == ')' {
        Some(TokenView::CloseParen)
    } else if c == '[' {
        Some(TokenView::OpenSqBracket)
    } else if c == ']' {
        Some(TokenView::CloseSqBracket)
    } else if c == ',' {
        Some(TokenView::Comma)
    } else if c == ':' {
        Some(TokenView::Colon)
    } else if c == ';' {
        Some(TokenView::SemiColon)
    } else {
        None
    }
}

/// What the lexer finds at one position of the text.
pub enum Scan {
    /// A token, and the index of the character after it.
    Token(TokenView, int),
    /// Whitespace, and the index of the character after it.
    Skip(int),
    /// Nothing that the language knows.
    Error(LexError),
}

/// What the lexer finds at index `i` of `s`. The first character decides:
/// a numeric character begins a number, an alphabetic one a word, `-` is the
/// return arrow where `>` follows and the subtraction operator where it does
/// not, the other symbols stand for themselves, whitespace is passed over, and
/// anything else is an error.
pub open spec fn scan(s: Seq<char>, i: int) -> Scan
    recommends
        0 <= i < s.len(),
{
    let c = s[i];
    if char_is_numeric(c) {
        let end = run_end(s, i, Run::Number);
        let text = s.subrange(i, end);
        if is_decimal(text) {
            Scan::Token(TokenView::NumConst(decimal_of(text)), end)
        } else {
            Scan::Error(LexError { kind: LexErrorKind::MalformedNumber, position: i as usize })
        }
    } else if char_is_alphabetic(c) {
        let end = run_end(s, i, Run::Word);
        Scan::Token(word_token(s.subrange(i, end)), end)
    } else if c == '-' {
        if i + 1 < s.len() && s[i + 1] == '>' {
            Scan::Token(TokenView::ReturnArrow, i + 2)
        } else {
            Scan::Token(TokenView::Operator(BinaryOperator::Sub), i + 1)
        }
    } else if symbol_token(c) is Some {
        Scan::Token(symbol_token(c)->Some_0, i + 1)
    } else if char_is_whitespace(c) {
        Scan::Skip(i + 1)
    } else {
        Scan::Error(LexError { kind: LexErrorKind::InvalidCharacter(c), position: i as usize })
    }
}

/// The index after what the lexer finds at `i`; `i` itself on an error.
pub open spec fn scan_end(s: Seq<char>, i: int) -> int {
    match scan(s, i) {
        Scan::Token(_, end) => end,
        Scan::Skip(end) => end,
        Scan::Error(_) => i,
    }
}

/// A run ends no earlier than it starts, and within the text where it
/// starts within the text.
pub proof fn lemma_run_end_bounds(s: Seq<char>, start: int, run: Run)
    ensures
        start <= run_end(s, start, run),
        start <= s.len() ==> run_end(s, start, run) <= s.len(),
        0 <= start < s.len() && run.continues(s[start]) ==> start < run_end(s, start, run),
        forall|k: int| start <= k < run_end(s, start, run) ==> 0 <= k && run.continues(#[trigger] s[k]),
        0 <= run_end(s, start, run) < s.len() ==> !run.continues(s[run_end(s, start, run)]),
    decreases s.len() - start,
{
    if 0 <= start < s.len() && run.continues(s[start]) {
        lemma_run_end_bounds(s, start + 1, run);
    }
}

/// A run ends exactly where the characters stop carrying it on.
pub proof fn lemma_run_end_is(s: Seq<char>, start: int, run: Run, end: int)
    requires
        0 <= start <= end <= s.len(),
        forall|k: int| start <= k < end ==> run.continues(#[trigger] s[k]),
        end < s.len() ==> !run.continues(s[end]),
    ensures
        run_end(s, start, run) == end,
    decreases end - start,
{
    if start < end {
        lemma_run_end_is(s, start + 1, run, end);
    }
}

/// What the lexer finds at a position within the text ends after that
/// position, unless it is an error.
pub proof fn lemma_scan_advances(s: Seq<char>, i: int)
    requires
        0 <= i < s.len(),
    ensures
        !(scan(s, i) is Error) ==> i < scan_end(s, i) <= s.len(),
{
    lemma_run_end_bounds(s, i, Run::Number);
    lemma_run_end_bounds(s, i, Run::Word);
}

/// The tokens of the text from index `i` on, or the first error met.
pub open spec fn lex_from(s: Seq<char>, i: int) -> Result<Seq<TokenView>, LexError>
    decreases s.len() - i,
{
    if 0 <= i < s.len() {
        proof {
            lemma_scan_advances(s, i);
        }
        match scan(s, i) {
            Scan::Token(token, end) => match lex_from(s, end) {
                Ok(rest) => Ok(seq![token] + rest),
                Err(error) => Err(error),
            },
            Scan::Skip(end) => lex_from(s, end),
            Scan::Error(error) => Err(error),
        }
    } else {
        Ok(Seq::empty())
    }
}

/// The tokens of a source text, or the first lexical error in it.
pub open spec fn lex(s: Seq<char>) -> Result<Seq<TokenView>, LexError> {
    lex_from(s, 0)
}

/// How a text ends, as far as text put behind it is concerned.
pub enum Tail {
    /// Nothing at the end of the text reaches into what follows.
    Closed,
    /// The text ends in a number or a word, which goes on over what follows
    /// for as long as that carries it on.
    Open(Run),
    /// The text ends in `-`, which `>` would turn into the return arrow.
    Minus,
}

/// How the token that starts at `i` and reaches the end of `s` leaves the
/// text.
pub open spec fn token_tail(s: Seq<char>, i: int) -> Tail {
    let c = s[i];
    if char_is_numeric(c) {
        Tail::Open(Run::Number)
    } else if char_is_alphabetic(c) {
        Tail::Open(Run::Word)
    } else if c == '-' && i + 1 == s.len() {
        Tail::Minus
    } else {
        Tail::Closed
    }
}

/// How the text, lexed from index `i` on, ends.
pub open spec fn tail_from(s: Seq<char>, i: int) -> Tail
    decreases s.len() - i,
{
    if 0 <= i < s.len() {
        proof {
            lemma_scan_advances(s, i);
        }
        match scan(s, i) {
            Scan::Token(_, end) => if end < s.len() {
                tail_from(s, end)
            } else {
                token_tail(s, i)
            },
            Scan::Skip(end) => tail_from(s, end),
            Scan::Error(_) => Tail::Closed,
        }
    } else {
        Tail::Closed
    }
}

/// Whether the end of `a`, lexed from `i` on, and the start of `b` run
/// together when `b` is put behind `a`: the last token of `a` is a number or
/// a word that the first character of `b` carries on, or it is `-` and `b`
/// starts with `>`.
pub open spec fn merges_from(a: Seq<char>, i: int, b: Seq<char>) -> bool {
    b.len() > 0 && match tail_from(a, i) {
        Tail::Closed => false,
        Tail::Open(run) => run.continues(b[0]),
        Tail::Minus => b[0] == '>',
    }
}

/// Whether the end of `a` and the start of `b` run together into one token
/// when `b` is put behind `a`.
pub open spec fn merges(a: Seq<char>, b: Seq<char>) -> bool {
    merges_from(a, 0, b)
}

/// A run in the second of two joined texts ends where it ends in that text
/// alone.
proof fn lemma_run_end_shift(a: Seq<char>, b: Seq<char>, j: int, run: Run)
    requires
        0 <= j <= b.len(),
    ensures
        run_end(a + b, a.len() + j, run) == a.len() + run_end(b, j, run),
    decreases b.len() - j,
{
    if j < b.len() {
        assert((a + b)[a.len() + j] == b[j]);
        if run.continues(b[j]) {
            lemma_run_end_shift(a, b, j + 1, run);
        }
    }
}

/// What the lexer finds in the second of two joined texts is what it finds
/// in that text alone.
proof fn lemma_scan_shift(a: Seq<char>, b: Seq<char>, j: int)
    requires
        0 <= j < b.len(),
        !(scan(b, j) is Error),
    ensures
        match scan(b, j) {
            Scan::Token(token, end) => scan(a + b, a.len() + j) == Scan::Token(token, a.len() + end),
            Scan::Skip(end) => scan(a + b, a.len() + j) == Scan::Skip(a.len() + end),
            Scan::Error(_) => false,
        },
{
    let s = a + b;
    let i = a.len() + j;
    assert(s[i] == b[j]);
    lemma_run_end_shift(a, b, j, Run::Number);
    lemma_run_end_shift(a, b, j, Run::Word);
    lemma_run_end_bounds(b, j, Run::Number);
    lemma_run_end_bounds(b, j, Run::Word);
    assert(s.subrange(i, a.len() + run_end(b, j, Run::Number)) =~= b.subrange(
        j,
        run_end(b, j, Run::Number),
    ));
    assert(s.subrange(i, a.len() + run_end(b, j, Run::Word)) =~= b.subrange(
        j,
        run_end(b, j, Run::Word),
    ));
    if j + 1 < b.len() {
        assert(s[i + 1] == b[j + 1]);
    }
}

/// The tokens of the second of two joined texts are its tokens alone.
proof fn lemma_lex_shift(a: Seq<char>, b: Seq<char>, j: int)
    requires
        0 <= j <= b.len(),
        lex_from(b, j) is Ok,
    ensures
        lex_from(a + b, a.len() + j) == lex_from(b, j),
    decreases b.len() - j,
{
    if j < b.len() {
        lemma_scan_advances(b, j);
        lemma_scan_shift(a, b, j);
        match scan(b, j) {
            Scan::Token(_, end) => {
                lemma_lex_shift(a, b, end);
            },
            Scan::Skip(end) => {
                lemma_lex_shift(a, b, end);
            },
            Scan::Error(_) => {},
        }
    }
}

/// A run in the first of two joined texts ends where it ends in that text
/// alone, unless it reaches the end of that text and the second carries it
/// on.
proof fn lemma_run_end_prefix(a: Seq<char>, b: Seq<char>, i: int, run: Run)
    requires
        0 <= i <= a.len(),
        run_end(a, i, run) < a.len() || b.len() == 0 || !run.continues(b[0]),
    ensures
        run_end(a + b, i, run) == run_end(a, i, run),
    decreases a.len() - i,
{
    if i < a.len() {
        assert((a + b)[i] == a[i]);
        if run.continues(a[i]) {
            lemma_run_end_prefix(a, b, i + 1, run);
        }
    } else if b.len() > 0 {
        assert((a + b)[i] == b[0]);
    }
}

/// The tokens of two joined texts, from an index in the first on, are those
/// of the first from there on and then those of the second, unless the two
/// run together.
proof fn lemma_lex_concat_from(a: Seq<char>, b: Seq<char>, i: int)
    requires
        0 <= i <= a.len(),
        lex_from(a, i) is Ok,
        lex(b) is Ok,
        !merges_from(a, i, b),
    ensures
        lex_from(a + b, i) == Ok::<Seq<TokenView>, LexError>(lex_from(a, i)->Ok_0 + lex(b)->Ok_0),
    decreases a.len() - i,
{
    let s = a + b;
    if i == a.len() {
        lemma_lex_shift(a, b, 0);
        assert(Seq::<TokenView>::empty() + lex(b)->Ok_0 =~= lex(b)->Ok_0);
    } else {
        assert(s[i] == a[i]);
        lemma_scan_advances(a, i);
        lemma_run_end_bounds(a, i, Run::Number);
        lemma_run_end_bounds(a, i, Run::Word);
        if i + 1 < a.len() {
            assert(s[i + 1] == a[i + 1]);
        } else if b.len() > 0 {
            assert(s[i + 1] == b[0]);
        }
        match scan(a, i) {
            Scan::Token(token, end) => {
                if char_is_numeric(a[i]) {
                    lemma_run_end_prefix(a, b, i, Run::Number);
                    assert(s.subrange(i, end) =~= a.subrange(i, end));
                } else if char_is_alphabetic(a[i]) {
                    lemma_run_end_prefix(a, b, i, Run::Word);
                    assert(s.subrange(i, end) =~= a.subrange(i, end));
                }
                assert(scan(s, i) == scan(a, i));
                lemma_lex_concat_from(a, b, end);
                assert(seq![token] + (lex_from(a, end)->Ok_0 + lex(b)->Ok_0) =~= (seq![token]
                    + lex_from(a, end)->Ok_0) + lex(b)->Ok_0);
            },
            Scan::Skip(end) => {
                assert(scan(s, i) == scan(a, i));
                lemma_lex_concat_from(a, b, end);
            },
            Scan::Error(_) => {},
        }
    }
}

/// Lexing two texts one behind the other gives the tokens of the first and
/// then those of the second, provided that each text can be lexed and that
/// the end of the first and the start of the second do not run together
/// into one token.
pub proof fn lemma_lex_concat(a: Seq<char>, b: Seq<char>)
    requires
        lex(a) is Ok,
        lex(b) is Ok,
        !merges(a, b),
    ensures
        lex(a + b) == Ok::<Seq<TokenView>, LexError>(lex(a)->Ok_0 + lex(b)->Ok_0),
{
    lemma_lex_concat_from(a, b, 0);
}

/// Whether the lexer, started at index `i`, looks at index `k` for the
/// start of a token: `k` is `i`, or it is looked at from behind what stands
/// at `i`.
pub open spec fn looks_at(s: Seq<char>, i: int, k: int) -> bool
    decreases s.len() - i,
{
    if i == k {
        true
    } else if 0 <= i < s.len() && i < k && !(scan(s, i) is Error) {
        proof {
            lemma_scan_advances(s, i);
        }
        looks_at(s, scan_end(s, i), k)
    } else {
        false
    }
}

/// Lexing is total over legal text: a text has tokens if, wherever the
/// lexer looks for the start of a token, there stands a character that
/// starts one, or whitespace, and no number that is malformed.
pub proof fn lemma_lex_total(s: Seq<char>, i: int)
    requires
        forall|k: int| 0 <= k < s.len() && looks_at(s, i, k) ==> !(#[trigger] scan(s, k) is Error),
    ensures
        lex_from(s, i) is Ok,
    decreases s.len() - i,
{
    if 0 <= i < s.len() {
        lemma_scan_advances(s, i);
        assert(looks_at(s, i, i));
        assert forall|k: int| 0 <= k < s.len() && looks_at(s, scan_end(s, i), k) implies !(
        #[trigger] scan(s, k) is Error) by {
            lemma_looks_further(s, scan_end(s, i), k);
            assert(looks_at(s, i, k));
        }
        lemma_lex_total(s, scan_end(s, i));
    }
}

/// The lexer looks only forward.
proof fn lemma_looks_further(s: Seq<char>, i: int, k: int)
    requires
        looks_at(s, i, k),
    ensures
        i <= k,
    decreases s.len() - i,
{
    if i != k {
        lemma_scan_advances(s, i);
        lemma_looks_further(s, scan_end(s, i), k);
    }
}

/// A lexical error is what the lexer found where it looked for the start
/// of a token: a character that starts none, or a malformed number.
pub proof fn lemma_lex_error(s: Seq<char>, i: int)
    requires
        s.len() <= usize::MAX,
        lex_from(s, i) is Err,
    ensures
        i <= lex_from(s, i)->Err_0.position < s.len(),
        looks_at(s, i, lex_from(s, i)->Err_0.position as int),
        scan(s, lex_from(s, i)->Err_0.position as int) == Scan::Error(lex_from(s, i)->Err_0),
    decreases s.len() - i,
{
    if 0 <= i < s.len() {
        lemma_scan_advances(s, i);
        if !(scan(s, i) is Error) {
            lemma_lex_error(s, scan_end(s, i));
        }
    }
}

/// Whether a character may stand anywhere in a source text: a decimal
/// digit, a letter, `-`, one of the other operator and punctuation
/// characters, or whitespace. The separator and `>` are not among them: they
/// are part of a token only where they follow what they belong to.
pub open spec fn legal(c: char) -> bool {
    if char_is_numeric(c) {
        is_digit(c)
    } else {
        c != '.' && (char_is_alphabetic(c) || c == '-' || symbol_token(c) is Some
            || char_is_whitespace(c))
    }
}

/// Lexing is total over the legal characters: a text that is made of them
/// alone has tokens.
pub proof fn lemma_lex_total_over_legal(s: Seq<char>)
    requires
        forall|k: int| 0 <= k < s.len() ==> legal(#[trigger] s[k]),
    ensures
        lex(s) is Ok,
{
    assert forall|k: int| 0 <= k < s.len() && looks_at(s, 0, k) implies !(#[trigger] scan(
        s,
        k,
    ) is Error) by {
        assert(legal(s[k]));
        if char_is_numeric(s[k]) {
            // a run of digits without a separator is a number
            let end = run_end(s, k, Run::Number);
            let text = s.subrange(k, end);
            lemma_run_end_bounds(s, k, Run::Number);
            assert forall|j: int| 0 <= j < text.len() implies is_digit(#[trigger] text[j]) by {
                assert(Run::Number.continues(s[k + j]));
                assert(legal(s[k + j]));
            }
            lemma_separator_is(text, 0, text.len() as int);
        }
    }
    lemma_lex_total(s, 0);
}

/// Whether a character does nothing but set tokens apart: whitespace that
/// is part of no token.
pub open spec fn is_blank(c: char) -> bool {
    &&& char_is_whitespace(c)
    &&& !char_is_numeric(c)
    &&& !char_is_alphabetic(c)
    &&& symbol_token(c) is None
    &&& c != '-'
    &&& c != '.'
    &&& c != '>'
}

/// Behind a blank a text is closed: nothing at its end reaches into what
/// follows.
proof fn lemma_blank_closes(a: Seq<char>, blank: char, i: int)
    requires
        is_blank(blank),
        0 <= i,
    ensures
        tail_from(a + seq![blank], i) == Tail::Closed,
    decreases a.len() + 1 - i,
{
    let s = a + seq![blank];
    assert(s[a.len() as int] == blank);
    if i < s.len() {
        lemma_scan_advances(s, i);
        lemma_run_end_bounds(s, i, Run::Number);
        lemma_run_end_bounds(s, i, Run::Word);
        match scan(s, i) {
            Scan::Token(_, end) => {
                // no token holds the blank, so each ends before it
                if char_is_numeric(s[i]) {
                    if end == s.len() {
                        assert(Run::Number.continues(s[a.len() as int]));
                    }
                } else if char_is_alphabetic(s[i]) {
                    if end == s.len() {
                        assert(Run::Word.continues(s[a.len() as int]));
                    }
                }
                assert(end < s.len());
                lemma_blank_closes(a, blank, end);
            },
            Scan::Skip(end) => {
                lemma_blank_closes(a, blank, end);
            },
            Scan::Error(_) => {},
        }
    }
}

/// Lexing two texts with a blank between them gives the tokens of the first
/// and then those of the second, whatever the two texts end and start with.
pub proof fn lemma_lex_separated(a: Seq<char>, blank: char, b: Seq<char>)
    requires
        lex(a) is Ok,
        lex(b) is Ok,
        is_blank(blank),
    ensures
        lex(a + seq![blank] + b) == Ok::<Seq<TokenView>, LexError>(lex(a)->Ok_0 + lex(b)->Ok_0),
{
    let between = seq![blank];
    assert(scan(between, 0) == Scan::Skip(1));
    assert(lex_from(between, 1) == Ok::<Seq<TokenView>, LexError>(Seq::empty()));
    assert(lex(between) == Ok::<Seq<TokenView>, LexError>(Seq::empty()));
    lemma_lex_concat(a, between);
    assert(lex(a)->Ok_0 + Seq::<TokenView>::empty() =~= lex(a)->Ok_0);
    lemma_blank_closes(a, blank, 0);
    lemma_lex_concat(a + between, b);
}

/// A cursor over the characters of a source text, and the tokens found so
/// far.
pub struct Tokenizer {
    /// The characters of the source text.
    pub buffer: Vec<char>,
    /// The index of the next character to read.
    pub position: usize,
    /// The tokens found so far.
    pub tokens: Vec<Token>,
}

impl Tokenizer {
    /// A tokenizer at the start of `buffer`, with no tokens yet.
    pub fn new(buffer: &String) -> (tokenizer: Tokenizer)
        ensures
            tokenizer.buffer@ == buffer@,
            tokenizer.position == 0,
            tokenizer.tokens@ == Seq::<Token>::empty(),
    {
        Tokenizer { buffer: characters(buffer.as_str()), position: 0, tokens: Vec::new() }
    }

    /// Reads the rest of the text and appends its tokens to `tokens`. At the
    /// first error the cursor stays on the character at fault and `tokens` is
    /// left as it was.
    pub fn parse(&mut self) -> (done: Result<(), LexError>)
        ensures
            final(self).buffer@ == old(self).buffer@,
            match lex_from(old(self).buffer@, old(self).position as int) {
                Ok(found) => {
                    &&& done is Ok
                    &&& token_views(final(self).tokens@) == token_views(old(self).tokens@) + found
                    &&& final(self).position == if old(self).position <= old(self).buffer.len() {
                        old(self).buffer.len()
                    } else {
                        old(self).position
                    }
                },
                Err(error) => {
                    &&& done == Err::<(), LexError>(error)
                    &&& final(self).tokens@ == old(self).tokens@
                    &&& final(self).position == error.position
                },
            },
    {
        let mut found: Vec<Token> = Vec::new();
        while self.position < self.buffer.len()
            invariant
                self.buffer@ == old(self).buffer@,
                self.tokens@ == old(self).tokens@,
                old(self).position <= self.position,
                old(self).position <= old(self).buffer.len() ==> self.position <= self.buffer.len(),
                old(self).position > old(self).buffer.len() ==> self.position == old(self).position,
                match lex_from(self.buffer@, self.position as int) {
                    Ok(rest) => lex_from(old(self).buffer@, old(self).position as int) == Ok::<
                        Seq<TokenView>,
                        LexError,
                    >(token_views(found@) + rest),
                    Err(error) => lex_from(old(self).buffer@, old(self).position as int) == Err::<
                        Seq<TokenView>,
                        LexError,
                    >(error),
                },
            decreases self.buffer.len() - self.position,
        {
            proof {
                lemma_scan_advances(self.buffer@, self.position as int);
            }
            let ghost before = token_views(found@);
            match self.parse_token() {
                Ok(Some(token)) => {
                    proof {
                        let rest = lex_from(self.buffer@, self.position as int);
                        assert(token_views(found@.push(token)) =~= before + seq![token@]);
                        if rest is Ok {
                            assert((before + seq![token@]) + rest->Ok_0 =~= before + (seq![token@]
                                + rest->Ok_0));
                        }
                    }
                    found.push(token);
                },
                Ok(None) => {},
                Err(error) => {
                    return Err(error);
                },
            }
        }
        proof {
            assert(token_views(self.tokens@ + found@) =~= token_views(self.tokens@) + token_views(
                found@,
            ));
            assert(token_views(found@) + Seq::<TokenView>::empty() =~= token_views(found@));
        }
        self.tokens.append(&mut found);
        Ok(())
    }

    /// Reads characters for as long as `f` accepts them, and returns those
    /// read.
    pub fn read_while<F>(&mut self, f: F) -> (text: String) where F: Fn(&char) -> bool
        requires
            forall|c: char| f.requires((&c,)),
        ensures
            final(self).buffer@ == old(self).buffer@,
            final(self).tokens == old(self).tokens,
            old(self).position <= final(self).position,
            old(self).position <= old(self).buffer.len() ==> final(self).position <= old(
                self,
            ).buffer.len(),
            old(self).position > old(self).buffer.len() ==> final(self).position == old(
                self,
            ).position,
            text@ == if old(self).position <= old(self).buffer.len() {
                old(self).buffer@.subrange(old(self).position as int, final(self).position as int)
            } else {
                Seq::empty()
            },
            forall|k: int|
                old(self).position <= k < final(self).position ==> f.ensures(
                    (&#[trigger] old(self).buffer@[k],),
                    true,
                ),
            final(self).position < old(self).buffer.len() ==> f.ensures(
                (&old(self).buffer@[final(self).position as int],),
                false,
            ),
    {
        let mut accumulator = String::new();
        if self.position > self.buffer.len() {
            return accumulator;
        }
        let ghost start = self.position as int;
        proof {
            assert(self.buffer@.subrange(start, start) =~= Seq::<char>::empty());
        }
        while self.position < self.buffer.len()
            invariant
                self.buffer@ == old(self).buffer@,
                self.tokens == old(self).tokens,
                start == old(self).position,
                start <= self.position <= self.buffer.len(),
                accumulator@ == self.buffer@.subrange(start, self.position as int),
                forall|c: char| f.requires((&c,)),
                forall|k: int|
                    start <= k < self.position ==> f.ensures((&#[trigger] self.buffer@[k],), true),
            ensures
                start <= self.position <= self.buffer.len(),
                self.buffer@ == old(self).buffer@,
                self.tokens == old(self).tokens,
                accumulator@ == self.buffer@.subrange(start, self.position as int),
                forall|k: int|
                    start <= k < self.position ==> f.ensures((&#[trigger] self.buffer@[k],), true),
                self.position < self.buffer.len() ==> f.ensures(
                    (&self.buffer@[self.position as int],),
                    false,
                ),
            decreases self.buffer.len() - self.position,
        {
            let c = self.buffer[self.position];
            if f(&c) {
                proof {
                    assert(self.buffer@.subrange(start, self.position + 1)
                        =~= self.buffer@.subrange(start, self.position as int).push(c));
                }
                accumulator.push(c);
                self.position = self.position + 1;
            } else {
                break;
            }
        }
        accumulator
    }

    /// Reads one token, or passes over one whitespace character.
    fn parse_token(&mut self) -> (found: Result<Option<Token>, LexError>)
        requires
            old(self).position < old(self).buffer.len(),
        ensures
            final(self).buffer@ == old(self).buffer@,
            final(self).tokens == old(self).tokens,
            match scan(old(self).buffer@, old(self).position as int) {
                Scan::Token(token, end) => {
                    &&& found matches Ok(Some(t))
                    &&& t@ == token
                    &&& final(self).position == end
                },
                Scan::Skip(end) => {
                    &&& found matches Ok(None)
                    &&& final(self).position == end
                },
                Scan::Error(error) => {
                    &&& found == Err::<Option<Token>, LexError>(error)
                    &&& final(self).position == old(self).position
                },
            },
    {
        let start = self.position;
        let c = self.buffer[start];
        if c.is_numeric() {
            let text = self.read_while(
                |c: &char| -> (b: bool)
                    ensures b == number_continues(*c)
                    { c.is_numeric() || *c == '.' },
            );
            proof {
                lemma_run_end_is(self.buffer@, start as int, Run::Number, self.position as int);
            }
            match Number::parse(text.as_str()) {
                Some(number) => Ok(Some(Token::num_const(number))),
                None => {
                    self.position = start;
                    Err(LexError { kind: LexErrorKind::MalformedNumber, position: start })
                },
            }
        } else if c.is_alphabetic() {
            let word = self.read_while(
                |c: &char| -> (b: bool)
                    ensures b == word_continues(*c)
                    { c.is_alphabetic() || *c == '.' },
            );
            proof {
                lemma_run_end_is(self.buffer@, start as int, Run::Word, self.position as int);
            }
            match Keyword::try_from(word.as_str()) {
                Ok(keyword) => Ok(Some(Token::keyword(keyword))),
                Err(_) => Ok(Some(Token::identifier(word))),
            }
        } else if c == '-' {
            if start + 1 < self.buffer.len() && self.buffer[start + 1] == '>' {
                self.position = start + 2;
                Ok(Some(Token::new(TokenValue::ReturnArrow)))
            } else {
                self.position = start + 1;
                Ok(Some(Token::new(TokenValue::Operator(BinaryOperator::Sub))))
            }
        } else if c == '+' {
            self.position = start + 1;
            Ok(Some(Token::new(TokenValue::Operator(BinaryOperator::Add))))
        } else if c == '*' {
            self.position = start + 1;
            Ok(Some(Token::new(TokenValue::Operator(BinaryOperator::Mul))))
        } else if c == '(' {
            self.position = start + 1;
            Ok(Some(Token::new(TokenValue::OpenParen)))
        } else if c == ')' {
            self.position = start + 1;
            Ok(Some(Token::new(TokenValue::CloseParen)))
        } else if c == '[' {
            self.position = start + 1;
            Ok(Some(Token::new(TokenValue::OpenSqBracket)))
        } else if c == ']' {
            self.position = start + 1;
            Ok(Some(Token::new(TokenValue::CloseSqBracket)))
        } else if c == ',' {
            self.position = start + 1;
            Ok(Some(Token::new(TokenValue::Comma)))
        } else if c == ':' {
            self.position = start + 1;
            Ok(Some(Token::new(TokenValue::Colon)))
        } else if c == ';' {
            self.position = start + 1;
            Ok(Some(Token::new(TokenValue::SemiColon)))
        } else if c.is_whitespace() {
            self.position = start + 1;
            Ok(None)
        } else {
            Err(LexError { kind: LexErrorKind::InvalidCharacter(c), position: start })
        }
    }
}

/// Turns a source text into its tokens, or reports the first lexical error.
pub fn tokenize(source: &str) -> (tokens: Result<Vec<Token>, LexError>)
    ensures
        match lex(source@) {
            Ok(found) => tokens is Ok && token_views(tokens->Ok_0@) == found,
            Err(error) => tokens == Err::<Vec<Token>, LexError>(error),
        },
{
    let mut tokenizer = Tokenizer {
        buffer: characters(source),
        position: 0,
        tokens: Vec::new(),
    };
    match tokenizer.parse() {
        Ok(()) => {
            proof {
                assert(token_views(Seq::<Token>::empty()) + lex(source@)->Ok_0 =~= lex(
                    source@,
                )->Ok_0);
            }
            Ok(tokenizer.tokens)
        },
        Err(error) => Err(error),
    }
}

} // verus!
