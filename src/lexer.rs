use vstd::prelude::*;

use crate::span::Span;
use crate::tokens::{Token, TokenType};

verus! {

/// What `char::is_alphanumeric` says of a character.
pub uninterp spec fn alphanumeric(c: char) -> bool;

/// What `str::to_lowercase` makes of a text.
pub uninterp spec fn lowercase_of(s: Seq<char>) -> Seq<char>;

/// Relies on `String::push`: appends one character.
pub assume_specification[ String::push ](s: &mut String, ch: char)
    ensures
        final(s)@ == old(s)@.push(ch),
;

/// An ASCII letter or digit.
pub open spec fn ascii_alphanumeric(c: char) -> bool {
    ('a' <= c && c <= 'z') || ('A' <= c && c <= 'Z') || ('0' <= c && c <= '9')
}

/// The lowercase of an ASCII character: `A`-`Z` move to `a`-`z`, others stay.
pub open spec fn ascii_lower(c: char) -> char {
    if 'A' <= c && c <= 'Z' {
        ((c as u32) + 32) as char
    } else {
        c
    }
}

/// Relies on `char::is_alphanumeric`, which depends on the character alone and, on
/// ASCII, holds exactly of letters and digits.
#[verifier::external_body]
fn is_alphanumeric(c: char) -> (r: bool)
    ensures
        r == alphanumeric(c),
        (c as u32) < 128 ==> (r == ascii_alphanumeric(c)),
{
    c.is_alphanumeric()
}

/// Relies on `str::to_lowercase`, which depends on the text alone and lowercases ASCII
/// text character by character.
#[verifier::external_body]
fn to_lowercase(s: &str) -> (r: String)
    ensures
        r@ == lowercase_of(s@),
        (forall|i: int| 0 <= i < s@.len() ==> (#[trigger] s@[i] as u32) < 128) ==> r@ == s@.map_values(
            |c: char| ascii_lower(c),
        ),
{
    s.to_lowercase()
}

/// A token kind with its text, if it has one.
pub enum TokenKind {
    Word(Seq<char>),
    Text(Seq<char>),
    Remark(Seq<char>),
    Digits(Seq<char>),
    Mark(TokenType),
}

impl View for TokenType {
    type V = TokenKind;

    open spec fn view(&self) -> TokenKind {
        match self {
            TokenType::Identifier { content } => TokenKind::Word(content@),
            TokenType::StringValue { content } => TokenKind::Text(content@),
            TokenType::Comment { content } => TokenKind::Remark(content@),
            TokenType::Number { content } => TokenKind::Digits(content@),
            _ => TokenKind::Mark(*self),
        }
    }
}

/// A reading position: how many characters were read, and the row and column reached.
pub struct Cursor {
    pub offset: int,
    pub row: int,
    pub column: int,
}

/// The character at `i`, or `'\0'` past the end.
pub open spec fn char_at(s: Seq<char>, i: int) -> char {
    if 0 <= i < s.len() {
        s[i]
    } else {
        '\0'
    }
}

/// The position after reading one character: a newline starts the next row.
pub open spec fn read(s: Seq<char>, c: Cursor) -> Cursor {
    let ch = char_at(s, c.offset);
    if ch == '\n' {
        Cursor { offset: c.offset + 1, row: c.row + 1, column: 0 }
    } else {
        Cursor { offset: c.offset + 1, row: c.row, column: c.column + 1 }
    }
}

/// The position after reading `n` characters.
pub open spec fn advance(s: Seq<char>, c: Cursor, n: int) -> Cursor
    decreases n,
{
    if n <= 0 {
        c
    } else {
        advance(s, read(s, c), n - 1)
    }
}

pub open spec fn is_number_char(c: char) -> bool {
    ('0' <= c && c <= '9') || c == '.'
}

pub open spec fn is_letter(c: char) -> bool {
    ('a' <= c && c <= 'z') || ('A' <= c && c <= 'Z')
}

pub open spec fn number_char() -> spec_fn(char) -> bool {
    |x: char| is_number_char(x)
}

pub open spec fn word_char() -> spec_fn(char) -> bool {
    |x: char| alphanumeric(x)
}

pub open spec fn comment_char() -> spec_fn(char) -> bool {
    |x: char| x != '\n'
}

/// Where a run of characters satisfying `p` that starts at `i` ends.
pub open spec fn run_end(s: Seq<char>, i: int, p: spec_fn(char) -> bool) -> int
    decreases s.len() - i,
{
    if 0 <= i < s.len() && p(s[i]) {
        run_end(s, i + 1, p)
    } else {
        i
    }
}

/// The character an escape `\e` stands for inside a string.
pub open spec fn escaped(e: char) -> Option<char> {
    if e == '\\' {
        Some('\\')
    } else if e == 'n' {
        Some('\n')
    } else if e == 't' {
        Some('\t')
    } else if e == '0' {
        Some('\0')
    } else {
        None
    }
}

/// The text of a string from `j` up to its closing `quote`, with escapes resolved, and
/// where the closing quote stands; none if the string is not closed or holds an unknown
/// escape.
pub open spec fn string_body(s: Seq<char>, j: int, quote: char) -> Option<(Seq<char>, int)>
    decreases s.len() - j,
{
    if j < 0 || j >= s.len() {
        None
    } else if s[j] == quote {
        Some((seq![], j))
    } else if s[j] == '\\' {
        if j + 1 >= s.len() {
            None
        } else {
            match escaped(s[j + 1]) {
                None => None,
                Some(e) => match string_body(s, j + 2, quote) {
                    None => None,
                    Some((rest, end)) => Some((seq![e] + rest, end)),
                },
            }
        }
    } else {
        match string_body(s, j + 1, quote) {
            None => None,
            Some((rest, end)) => Some((seq![s[j]] + rest, end)),
        }
    }
}

/// The keyword a word spells, whatever its case.
pub open spec fn keyword(w: Seq<char>) -> Option<TokenType> {
    let l = lowercase_of(w);
    if l == seq!['i', 'm', 'p', 'o', 'r', 't'] {
        Some(TokenType::ImportKeyword)
    } else if l == seq!['b', 'r', 'e', 'a', 'k'] {
        Some(TokenType::BreakKeyword)
    } else if l == seq!['e', 'l', 's', 'e'] {
        Some(TokenType::ElseKeyword)
    } else if l == seq!['f', 'n'] {
        Some(TokenType::FnKeyword)
    } else if l == seq!['i', 'f'] {
        Some(TokenType::IfKeyword)
    } else if l == seq!['i', 'n', 't', 'e', 'r', 'f', 'a', 'c', 'e'] {
        Some(TokenType::InterfaceKeyword)
    } else if l == seq!['l', 'o', 'o', 'p'] {
        Some(TokenType::LoopKeyword)
    } else if l == seq!['s', 't', 'r', 'u', 'c', 't'] {
        Some(TokenType::StructKeyword)
    } else if l == seq!['w', 'h', 'i', 'l', 'e'] {
        Some(TokenType::WhileKeyword)
    } else if l == seq!['f', 'o', 'r', 'e', 'a', 'c', 'h'] {
        Some(TokenType::ForEachKeyword)
    } else if l == seq!['c'] {
        Some(TokenType::CKeyword)
    } else {
        None
    }
}

/// The token of a two-character operator whose first character is `c` and second `n`.
pub open spec fn pair_token(c: char, n: char) -> Option<TokenType> {
    if c == ':' && n == ':' {
        Some(TokenType::DoubleColon)
    } else if c == '.' && n == '.' {
        Some(TokenType::DoubleDot)
    } else if c == '=' && n == '=' {
        Some(TokenType::DoubleEqual)
    } else if c == '>' && n == '=' {
        Some(TokenType::GreaterThanOrEqual)
    } else if c == '<' && n == '=' {
        Some(TokenType::LessThanOrEqual)
    } else if c == '-' && n == '>' {
        Some(TokenType::Arrow)
    } else if c == '!' && n == '=' {
        Some(TokenType::NotEqual)
    } else {
        None
    }
}

/// The token of a one-character symbol.
pub open spec fn single_token(c: char) -> Option<TokenType> {
    if c == ':' {
        Some(TokenType::Colon)
    } else if c == '.' {
        Some(TokenType::Dot)
    } else if c == '=' {
        Some(TokenType::Equal)
    } else if c == '>' {
        Some(TokenType::GreaterThan)
    } else if c == '<' {
        Some(TokenType::LessThan)
    } else if c == '(' {
        Some(TokenType::OpenParen)
    } else if c == ')' {
        Some(TokenType::CloseParen)
    } else if c == '[' {
        Some(TokenType::OpenBracket)
    } else if c == ']' {
        Some(TokenType::CloseBracket)
    } else if c == '{' {
        Some(TokenType::OpenBrace)
    } else if c == '}' {
        Some(TokenType::CloseBrace)
    } else if c == '+' {
        Some(TokenType::Plus)
    } else if c == '-' {
        Some(TokenType::Minus)
    } else if c == '*' {
        Some(TokenType::Star)
    } else if c == '/' {
        Some(TokenType::Slash)
    } else if c == '%' {
        Some(TokenType::Percent)
    } else if c == '$' {
        Some(TokenType::Dollar)
    } else if c == '&' {
        Some(TokenType::Ampersand)
    } else if c == '^' {
        Some(TokenType::Caret)
    } else if c == '\\' {
        Some(TokenType::Backslash)
    } else if c == '`' {
        Some(TokenType::Grave)
    } else if c == '~' {
        Some(TokenType::Tilde)
    } else if c == ';' {
        Some(TokenType::Semicolon)
    } else if c == ',' {
        Some(TokenType::Comma)
    } else if c == '#' {
        Some(TokenType::Hash)
    } else if c == '@' {
        Some(TokenType::At)
    } else if c == '!' {
        Some(TokenType::Exclamation)
    } else if c == '?' {
        Some(TokenType::QuestionMark)
    } else if c == '|' {
        Some(TokenType::VerticalLine)
    } else if c == '\n' {
        Some(TokenType::NewLine)
    } else {
        None
    }
}

/// A token as the scanner sees it: its kind, and the row and column reached when it
/// ends.
pub type TokenModel = (TokenKind, int, int);

pub open spec fn prepend(t: TokenModel, rest: Option<Seq<TokenModel>>) -> Option<Seq<TokenModel>> {
    match rest {
        Some(r) => Some(seq![t] + r),
        None => None,
    }
}

/// One step of the scanner at position `c`.
pub enum Step {
    /// The text ends here.
    End,
    /// A separator was read; go on from the cursor.
    Skip(Cursor),
    /// A token was read; go on from the cursor.
    Emit(TokenModel, Cursor),
    /// An unknown character or escape, or an unclosed string.
    Fail,
}

/// What the scanner reads at `c`. A NUL character, or the end, ends the text; spaces,
/// tabs and carriage returns separate tokens; `//` starts a comment that runs to the end
/// of the line.
pub open spec fn step(s: Seq<char>, c: Cursor) -> Step {
    let ch = char_at(s, c.offset);
    let c1 = read(s, c);
    let o = c.offset;
    if o < 0 || o >= s.len() || ch == '\0' {
        Step::End
    } else if '0' <= ch && ch <= '9' {
        let j = run_end(s, o + 1, number_char());
        let c2 = advance(s, c1, j - (o + 1));
        Step::Emit((TokenKind::Digits(s.subrange(o, j)), c2.row, c2.column), c2)
    } else if ch == '"' || ch == '\'' {
        match string_body(s, o + 1, ch) {
            None => Step::Fail,
            Some((text, end)) => {
                let c2 = advance(s, c1, end + 1 - (o + 1));
                Step::Emit((TokenKind::Text(text), c2.row, c2.column), c2)
            },
        }
    } else if is_letter(ch) {
        let j = run_end(s, o + 1, word_char());
        let w = s.subrange(o, j);
        let c2 = advance(s, c1, j - (o + 1));
        let kind = match keyword(w) {
            Some(k) => TokenKind::Mark(k),
            None => TokenKind::Word(w),
        };
        Step::Emit((kind, c2.row, c2.column), c2)
    } else if ch == ' ' || ch == '\t' || ch == '\r' {
        Step::Skip(c1)
    } else if ch == '/' && char_at(s, o + 1) == '/' {
        let j = run_end(s, o + 1, comment_char());
        let c2 = advance(s, c1, j - (o + 1));
        Step::Emit((TokenKind::Remark(s.subrange(o + 1, j)), c2.row, c2.column), c2)
    } else if pair_token(ch, char_at(s, o + 1)) is Some {
        let c2 = read(s, c1);
        Step::Emit((TokenKind::Mark(pair_token(ch, char_at(s, o + 1))->0), c2.row, c2.column), c2)
    } else {
        match single_token(ch) {
            Some(t) => Step::Emit((TokenKind::Mark(t), c1.row, c1.column), c1),
            None => Step::Fail,
        }
    }
}

/// The tokens of `s` from the position `c` on; none where the text holds an unknown
/// character, an unknown escape or an unclosed string.
pub open spec fn scan(s: Seq<char>, c: Cursor) -> Option<Seq<TokenModel>>
    decreases s.len() - c.offset,
{
    match step(s, c) {
        Step::End => Some(seq![]),
        Step::Skip(c2) => if c.offset < c2.offset <= s.len() {
            scan(s, c2)
        } else {
            None
        },
        Step::Emit(t, c2) => if c.offset < c2.offset <= s.len() {
            prepend(t, scan(s, c2))
        } else {
            None
        },
        Step::Fail => None,
    }
}

pub proof fn lemma_advance_offset(s: Seq<char>, c: Cursor, n: int)
    requires
        n >= 0,
    ensures
        advance(s, c, n).offset == c.offset + n,
    decreases n,
{
    if n > 0 {
        lemma_advance_offset(s, read(s, c), n - 1);
    }
}

pub proof fn lemma_run_end(s: Seq<char>, i: int, p: spec_fn(char) -> bool)
    requires
        0 <= i,
    ensures
        i <= run_end(s, i, p),
        run_end(s, i, p) <= if i <= s.len() {
            s.len() as int
        } else {
            i
        },
        forall|k: int| i <= k < run_end(s, i, p) ==> p(#[trigger] s[k]),
        run_end(s, i, p) < s.len() ==> !p(s[run_end(s, i, p)]),
    decreases s.len() - i,
{
    if 0 <= i < s.len() && p(s[i]) {
        lemma_run_end(s, i + 1, p);
    }
}

pub proof fn lemma_string_body(s: Seq<char>, j: int, quote: char)
    ensures
        string_body(s, j, quote) matches Some((_, end)) ==> j <= end < s.len(),
    decreases s.len() - j,
{
    if 0 <= j < s.len() && s[j] != quote {
        if s[j] == '\\' {
            if j + 1 < s.len() {
                lemma_string_body(s, j + 2, quote);
            }
        } else {
            lemma_string_body(s, j + 1, quote);
        }
    }
}

/// Every step that goes on moves forward, and not past the end.
pub proof fn lemma_step_advances(s: Seq<char>, c: Cursor)
    ensures
        match step(s, c) {
            Step::Skip(c2) => c.offset < c2.offset <= s.len(),
            Step::Emit(_, c2) => c.offset < c2.offset <= s.len(),
            _ => true,
        },
{
    let o = c.offset;
    let c1 = read(s, c);
    if 0 <= o < s.len() {
        lemma_run_end(s, o + 1, number_char());
        lemma_run_end(s, o + 1, word_char());
        lemma_run_end(s, o + 1, comment_char());
        let j1 = run_end(s, o + 1, number_char());
        let j2 = run_end(s, o + 1, word_char());
        let j3 = run_end(s, o + 1, comment_char());
        lemma_advance_offset(s, c1, j1 - (o + 1));
        lemma_advance_offset(s, c1, j2 - (o + 1));
        lemma_advance_offset(s, c1, j3 - (o + 1));
        lemma_string_body(s, o + 1, char_at(s, o));
        if let Some((_, end)) = string_body(s, o + 1, char_at(s, o)) {
            lemma_advance_offset(s, c1, end + 1 - (o + 1));
        }
    }
}

pub proof fn lemma_advance_step(s: Seq<char>, c: Cursor, n: int)
    requires
        n >= 0,
    ensures
        advance(s, c, n + 1) == read(s, advance(s, c, n)),
    decreases n,
{
    if n > 0 {
        lemma_advance_step(s, read(s, c), n - 1);
    } else {
        assert(advance(s, read(s, c), 0) == read(s, c));
    }
}

/// The text of a string with `p` put before it.
pub open spec fn prepend_text(p: Seq<char>, r: Option<(Seq<char>, int)>) -> Option<(Seq<char>, int)> {
    match r {
        Some((t, e)) => Some((p + t, e)),
        None => None,
    }
}

/// The tokens `p` followed by the tokens `r`, if there are any.
pub open spec fn prepend_all(p: Seq<TokenModel>, r: Option<Seq<TokenModel>>) -> Option<Seq<TokenModel>> {
    match r {
        Some(t) => Some(p + t),
        None => None,
    }
}

/// Why a text could not be split into tokens.
#[derive(Debug)]
pub enum LexError {
    UnknownCharacter { character: char, span: Span },
    UnknownEscape { character: char, span: Span },
    UnterminatedString { span: Span },
}

/// Splits the text of one source file into tokens, keeping the row and column reached.
#[derive(Debug)]
pub struct Lexer {
    pub file_name: String,
    pub file_contents: String,
    pub length: usize,
    pub tokens: Vec<Token>,
    pub character_offset: usize,
    pub row: usize,
    pub column: usize,
}

fn text_is(s: &String, literal: &str) -> (r: bool)
    ensures
        r == (s@ == literal@),
{
    *s == literal.to_string()
}

/// The token of a word: a keyword, whatever its case, or an identifier.
fn word_token(content: String) -> (t: TokenType)
    ensures
        t@ == match keyword(content@) {
            Some(k) => TokenKind::Mark(k),
            None => TokenKind::Word(content@),
        },
{
    let lower = to_lowercase(content.as_str());
    proof {
        reveal_strlit("import");
        reveal_strlit("break");
        reveal_strlit("else");
        reveal_strlit("fn");
        reveal_strlit("if");
        reveal_strlit("interface");
        reveal_strlit("loop");
        reveal_strlit("struct");
        reveal_strlit("while");
        reveal_strlit("foreach");
        reveal_strlit("c");
        assert("import"@ =~= seq!['i', 'm', 'p', 'o', 'r', 't']);
        assert("break"@ =~= seq!['b', 'r', 'e', 'a', 'k']);
        assert("else"@ =~= seq!['e', 'l', 's', 'e']);
        assert("fn"@ =~= seq!['f', 'n']);
        assert("if"@ =~= seq!['i', 'f']);
        assert("interface"@ =~= seq!['i', 'n', 't', 'e', 'r', 'f', 'a', 'c', 'e']);
        assert("loop"@ =~= seq!['l', 'o', 'o', 'p']);
        assert("struct"@ =~= seq!['s', 't', 'r', 'u', 'c', 't']);
        assert("while"@ =~= seq!['w', 'h', 'i', 'l', 'e']);
        assert("foreach"@ =~= seq!['f', 'o', 'r', 'e', 'a', 'c', 'h']);
        assert("c"@ =~= seq!['c']);
    }
    if text_is(&lower, "import") {
        TokenType::ImportKeyword
    } else if text_is(&lower, "break") {
        TokenType::BreakKeyword
    } else if text_is(&lower, "else") {
        TokenType::ElseKeyword
    } else if text_is(&lower, "fn") {
        TokenType::FnKeyword
    } else if text_is(&lower, "if") {
        TokenType::IfKeyword
    } else if text_is(&lower, "interface") {
        TokenType::InterfaceKeyword
    } else if text_is(&lower, "loop") {
        TokenType::LoopKeyword
    } else if text_is(&lower, "struct") {
        TokenType::StructKeyword
    } else if text_is(&lower, "while") {
        TokenType::WhileKeyword
    } else if text_is(&lower, "foreach") {
        TokenType::ForEachKeyword
    } else if text_is(&lower, "c") {
        TokenType::CKeyword
    } else {
        TokenType::Identifier { content }
    }
}

impl Lexer {
    /// The lengths agree, the row and column never pass the number of characters read,
    /// and the text's length fits in a `usize` with room to spare.
    pub open spec fn wf(&self) -> bool {
        &&& self.length == self.file_contents@.len()
        &&& self.row <= self.character_offset
        &&& self.column <= self.character_offset
        &&& self.length + 3 < usize::MAX
    }

    pub open spec fn cursor(&self) -> Cursor {
        Cursor { offset: self.character_offset as int, row: self.row as int, column: self.column as int }
    }

    /// The tokens read so far, as the scanner sees them.
    pub open spec fn token_models(&self) -> Seq<TokenModel> {
        self.tokens@.map_values(|t: Token| (t.token_type@, t.span.row_start as int, t.span.column_start as int))
    }

    /// Each token's span is the point reached in this file when the token ended.
    pub open spec fn spans_ok(&self) -> bool {
        forall|i: int|
            0 <= i < self.tokens@.len() ==> (#[trigger] self.tokens@[i]).span.row_end == self.tokens@[i].span.row_start
                && self.tokens@[i].span.column_end == self.tokens@[i].span.column_start
                && self.tokens@[i].span.file_name == self.file_name
    }

    /// A lexer at the start of `file_contents`, with no tokens yet.
    pub fn new(file_name: String, file_contents: String) -> (r: Lexer)
        requires
            file_contents@.len() + 3 < usize::MAX,
        ensures
            r.wf(),
            r.file_name == file_name,
            r.file_contents == file_contents,
            r.tokens@.len() == 0,
            r.character_offset == 0 && r.row == 0 && r.column == 0,
    {
        let length = file_contents.as_str().unicode_len();
        Lexer { file_name, file_contents, length, tokens: Vec::new(), character_offset: 0, row: 0, column: 0 }
    }

    /// A span of no width at the current row and column.
    pub fn generate_span(&self) -> (r: Span)
        ensures
            r == (Span {
                row_start: self.row,
                row_end: self.row,
                column_start: self.column,
                column_end: self.column,
                file_name: self.file_name,
            }),
    {
        Span {
            column_start: self.column,
            column_end: self.column,
            row_start: self.row,
            row_end: self.row,
            file_name: self.file_name.clone(),
        }
    }

    /// Reads the next character (`'\0'` past the end) and moves past it.
    pub fn read_char(&mut self) -> (r: char)
        requires
            old(self).wf(),
            old(self).character_offset < usize::MAX,
        ensures
            final(self).wf(),
            r == char_at(old(self).file_contents@, old(self).character_offset as int),
            final(self).cursor() == read(old(self).file_contents@, old(self).cursor()),
            final(self).file_contents == old(self).file_contents,
            final(self).file_name == old(self).file_name,
            final(self).tokens == old(self).tokens,
    {
        let result = self.peek_char();
        self.character_offset = self.character_offset + 1;
        self.column = self.column + 1;
        if result == '\n' {
            self.column = 0;
            self.row = self.row + 1;
        }
        result
    }

    /// The next character, or `'\0'` past the end.
    pub fn peek_char(&self) -> (r: char)
        requires
            self.wf(),
        ensures
            r == char_at(self.file_contents@, self.character_offset as int),
    {
        if self.character_offset < self.length {
            self.file_contents.as_str().get_char(self.character_offset)
        } else {
            '\0'
        }
    }

    /// Appends a token that ends at the current row and column.
    pub fn push_token(&mut self, token_type: TokenType)
        ensures
            final(self).tokens@ == old(self).tokens@.push(Token { token_type, span: old(self).generate_span_spec() }),
            final(self).file_contents == old(self).file_contents,
            final(self).file_name == old(self).file_name,
            final(self).length == old(self).length,
            final(self).cursor() == old(self).cursor(),
            final(self).character_offset == old(self).character_offset,
            final(self).row == old(self).row,
            final(self).column == old(self).column,
    {
        let span = self.generate_span();
        self.tokens.push(Token { token_type, span });
    }

    pub open spec fn generate_span_spec(&self) -> Span {
        Span {
            row_start: self.row,
            row_end: self.row,
            column_start: self.column,
            column_end: self.column,
            file_name: self.file_name,
        }
    }
}

/// The characters a run of one kind may hold.
enum RunClass {
    Number,
    Word,
    Comment,
}

spec fn class_pred(class: RunClass) -> spec_fn(char) -> bool {
    match class {
        RunClass::Number => number_char(),
        RunClass::Word => word_char(),
        RunClass::Comment => comment_char(),
    }
}

fn in_class(class: &RunClass, c: char) -> (r: bool)
    ensures
        r == class_pred(*class)(c),
{
    match class {
        RunClass::Number => ('0' <= c && c <= '9') || c == '.',
        RunClass::Word => is_alphanumeric(c),
        RunClass::Comment => c != '\n',
    }
}

fn pair_token_of(c: char, n: char) -> (r: Option<TokenType>)
    ensures
        r == pair_token(c, n),
{
    if c == ':' && n == ':' {
        Some(TokenType::DoubleColon)
    } else if c == '.' && n == '.' {
        Some(TokenType::DoubleDot)
    } else if c == '=' && n == '=' {
        Some(TokenType::DoubleEqual)
    } else if c == '>' && n == '=' {
        Some(TokenType::GreaterThanOrEqual)
    } else if c == '<' && n == '=' {
        Some(TokenType::LessThanOrEqual)
    } else if c == '-' && n == '>' {
        Some(TokenType::Arrow)
    } else if c == '!' && n == '=' {
        Some(TokenType::NotEqual)
    } else {
        None
    }
}

fn single_token_of(c: char) -> (r: Option<TokenType>)
    ensures
        r == single_token(c),
{
    match c {
        ':' => Some(TokenType::Colon),
        '.' => Some(TokenType::Dot),
        '=' => Some(TokenType::Equal),
        '>' => Some(TokenType::GreaterThan),
        '<' => Some(TokenType::LessThan),
        '(' => Some(TokenType::OpenParen),
        ')' => Some(TokenType::CloseParen),
        '[' => Some(TokenType::OpenBracket),
        ']' => Some(TokenType::CloseBracket),
        '{' => Some(TokenType::OpenBrace),
        '}' => Some(TokenType::CloseBrace),
        '+' => Some(TokenType::Plus),
        '-' => Some(TokenType::Minus),
        '*' => Some(TokenType::Star),
        '/' => Some(TokenType::Slash),
        '%' => Some(TokenType::Percent),
        '$' => Some(TokenType::Dollar),
        '&' => Some(TokenType::Ampersand),
        '^' => Some(TokenType::Caret),
        '\\' => Some(TokenType::Backslash),
        '`' => Some(TokenType::Grave),
        '~' => Some(TokenType::Tilde),
        ';' => Some(TokenType::Semicolon),
        ',' => Some(TokenType::Comma),
        '#' => Some(TokenType::Hash),
        '@' => Some(TokenType::At),
        '!' => Some(TokenType::Exclamation),
        '?' => Some(TokenType::QuestionMark),
        '|' => Some(TokenType::VerticalLine),
        '\n' => Some(TokenType::NewLine),
        _ => None,
    }
}

fn escape_of(e: char) -> (r: Option<char>)
    ensures
        r == escaped(e),
{
    if e == '\\' {
        Some('\\')
    } else if e == 'n' {
        Some('\n')
    } else if e == 't' {
        Some('\t')
    } else if e == '0' {
        Some('\0')
    } else {
        None
    }
}

impl Lexer {
    /// Reads the run of characters of `class` that follows, appending them to `content`.
    fn read_run(&mut self, content: &mut String, class: RunClass, Ghost(base): Ghost<int>)
        requires
            old(self).wf(),
            0 <= base <= old(self).character_offset <= old(self).length,
            old(content)@ == old(self).file_contents@.subrange(base, old(self).character_offset as int),
        ensures
            final(self).wf(),
            final(self).character_offset as int == run_end(
                old(self).file_contents@,
                old(self).character_offset as int,
                class_pred(class),
            ),
            final(self).character_offset <= final(self).length,
            final(self).cursor() == advance(
                old(self).file_contents@,
                old(self).cursor(),
                final(self).character_offset - old(self).character_offset,
            ),
            final(content)@ == old(self).file_contents@.subrange(base, final(self).character_offset as int),
            final(self).file_contents == old(self).file_contents,
            final(self).file_name == old(self).file_name,
            final(self).tokens == old(self).tokens,
    {
        let ghost s = self.file_contents@;
        let ghost c0 = self.cursor();
        let ghost o0 = self.character_offset as int;
        proof {
            lemma_run_end(s, o0, class_pred(class));
        }
        while self.character_offset < self.length && in_class(&class, self.peek_char())
            invariant
                self.wf(),
                s == self.file_contents@,
                self.file_contents == old(self).file_contents,
                self.file_name == old(self).file_name,
                self.tokens == old(self).tokens,
                o0 <= self.character_offset <= self.length,
                0 <= base <= o0,
                c0 == old(self).cursor(),
                o0 == old(self).character_offset,
                content@ == s.subrange(base, self.character_offset as int),
                self.cursor() == advance(s, c0, self.character_offset - o0),
                run_end(s, o0, class_pred(class)) == run_end(s, self.character_offset as int, class_pred(class)),
            decreases self.length - self.character_offset,
        {
            proof {
                lemma_advance_step(s, c0, self.character_offset - o0);
            }
            let ch = self.read_char();
            content.push(ch);
            assert(content@ =~= s.subrange(base, self.character_offset as int));
        }
    }

    /// Reads the rest of a string whose opening `quote` stands at `open`, through the
    /// closing quote, resolving escapes.
    fn read_string_body(&mut self, quote: char, Ghost(open): Ghost<int>) -> (r: Result<String, LexError>)
        requires
            old(self).wf(),
            old(self).character_offset as int == open + 1,
            0 <= open < old(self).length,
        ensures
            final(self).wf(),
            final(self).file_contents == old(self).file_contents,
            final(self).file_name == old(self).file_name,
            final(self).tokens == old(self).tokens,
            match string_body(old(self).file_contents@, open + 1, quote) {
                None => r is Err,
                Some((text, end)) => r matches Ok(t) && t@ == text && final(self).cursor() == advance(
                    old(self).file_contents@,
                    old(self).cursor(),
                    end + 1 - (open + 1),
                ) && final(self).character_offset <= final(self).length,
            },
    {
        let ghost s = self.file_contents@;
        let ghost c0 = self.cursor();
        let mut content = String::new();
        loop
            invariant
                self.wf(),
                s == self.file_contents@,
                self.file_contents == old(self).file_contents,
                self.file_name == old(self).file_name,
                self.tokens == old(self).tokens,
                open + 1 <= self.character_offset <= self.length,
                c0 == old(self).cursor(),
                self.cursor() == advance(s, c0, self.character_offset - (open + 1)),
                string_body(s, open + 1, quote) == prepend_text(
                    content@,
                    string_body(s, self.character_offset as int, quote),
                ),
            decreases self.length - self.character_offset,
        {
            let ghost j = self.character_offset as int;
            if self.character_offset >= self.length {
                return Err(LexError::UnterminatedString { span: self.generate_span() });
            }
            let ch = self.peek_char();
            proof {
                lemma_advance_step(s, c0, j - (open + 1));
            }
            if ch == quote {
                let ghost cur = self.cursor();
                assert(cur == advance(s, c0, j - (open + 1)));
                self.read_char();
                assert(self.cursor() == read(s, cur));
                assert(advance(s, c0, j - (open + 1) + 1) == read(s, advance(s, c0, j - (open + 1))));
                assert(self.cursor() == advance(s, c0, j + 1 - (open + 1)));
                assert(string_body(s, j, quote) == Some((Seq::<char>::empty(), j)));
                assert(content@ + seq![] =~= content@);
                assert(string_body(s, open + 1, quote) == Some((content@, j)));
                return Ok(content);
            }
            if ch == '\\' {
                if self.character_offset + 1 >= self.length {
                    return Err(LexError::UnterminatedString { span: self.generate_span() });
                }
                self.read_char();
                proof {
                    lemma_advance_step(s, c0, j + 1 - (open + 1));
                }
                let e = self.read_char();
                match escape_of(e) {
                    None => {
                        return Err(LexError::UnknownEscape { character: e, span: self.generate_span() });
                    },
                    Some(x) => {
                        content.push(x);
                        assert(string_body(s, open + 1, quote) == prepend_text(
                            content@,
                            string_body(s, self.character_offset as int, quote),
                        )) by {
                            let before = content@.drop_last();
                            assert(before.push(x) == content@);
                            match string_body(s, j + 2, quote) {
                                Some((rest, end)) => {
                                    assert(before + (seq![x] + rest) =~= content@ + rest);
                                },
                                None => {},
                            }
                        }
                    },
                }
            } else {
                let c = self.read_char();
                let ghost before = content@;
                content.push(c);
                assert(string_body(s, open + 1, quote) == prepend_text(
                    content@,
                    string_body(s, self.character_offset as int, quote),
                )) by {
                    match string_body(s, j + 1, quote) {
                        Some((rest, end)) => {
                            assert(before + (seq![c] + rest) =~= content@ + rest);
                        },
                        None => {},
                    }
                }
            }
        }
    }
}

impl Lexer {
    /// Reads one step of the text, as `step` says: returns whether the text ended here.
    fn lex_step(&mut self) -> (r: Result<bool, LexError>)
        requires
            old(self).wf(),
            old(self).character_offset <= old(self).length,
        ensures
            final(self).wf(),
            final(self).file_contents == old(self).file_contents,
            final(self).file_name == old(self).file_name,
            old(self).spans_ok() ==> final(self).spans_ok(),
            match step(old(self).file_contents@, old(self).cursor()) {
                Step::End => r == Ok::<bool, LexError>(true) && final(self).tokens == old(self).tokens,
                Step::Skip(c2) => r == Ok::<bool, LexError>(false) && final(self).cursor() == c2 && final(self).tokens
                    == old(self).tokens,
                Step::Emit(t, c2) => r == Ok::<bool, LexError>(false) && final(self).cursor() == c2
                    && final(self).token_models() == old(self).token_models().push(t),
                Step::Fail => r is Err,
            },
    {
        let ghost s = self.file_contents@;
        let ghost c0 = self.cursor();
        let ghost o = self.character_offset as int;
        let c = self.read_char();
        if c == '\0' {
            return Ok(true);
        }
        let ghost c1 = self.cursor();
        proof {
            lemma_step_advances(s, c0);
        }
        if '0' <= c && c <= '9' {
            let mut content = String::new();
            content.push(c);
            assert(content@ =~= s.subrange(o, o + 1));
            self.read_run(&mut content, RunClass::Number, Ghost(o));
            self.push_token(TokenType::Number { content });
            proof {
                assert(self.tokens@.drop_last() =~= old(self).tokens@);
                self.lemma_pushed(old(self).tokens@);
            }
            return Ok(false);
        }
        if c == '"' || c == '\'' {
            match self.read_string_body(c, Ghost(o)) {
                Ok(content) => {
                    self.push_token(TokenType::StringValue { content });
                    proof {
                        assert(self.tokens@.drop_last() =~= old(self).tokens@);
                self.lemma_pushed(old(self).tokens@);
                    }
                    return Ok(false);
                },
                Err(e) => {
                    return Err(e);
                },
            }
        }
        if ('a' <= c && c <= 'z') || ('A' <= c && c <= 'Z') {
            let mut content = String::new();
            content.push(c);
            assert(content@ =~= s.subrange(o, o + 1));
            self.read_run(&mut content, RunClass::Word, Ghost(o));
            let token_type = word_token(content);
            self.push_token(token_type);
            proof {
                assert(self.tokens@.drop_last() =~= old(self).tokens@);
                self.lemma_pushed(old(self).tokens@);
            }
            return Ok(false);
        }
        if c == ' ' || c == '\t' || c == '\r' {
            return Ok(false);
        }
        let next = self.peek_char();
        if c == '/' && next == '/' {
            let mut content = String::new();
            assert(content@ =~= s.subrange(o + 1, o + 1));
            self.read_run(&mut content, RunClass::Comment, Ghost(o + 1));
            self.push_token(TokenType::Comment { content });
            proof {
                assert(self.tokens@.drop_last() =~= old(self).tokens@);
                self.lemma_pushed(old(self).tokens@);
            }
            return Ok(false);
        }
        match pair_token_of(c, next) {
            Some(t) => {
                self.read_char();
                self.push_token(t);
                proof {
                    assert(self.tokens@.drop_last() =~= old(self).tokens@);
                self.lemma_pushed(old(self).tokens@);
                }
                Ok(false)
            },
            None => match single_token_of(c) {
                Some(t) => {
                    self.push_token(t);
                    proof {
                        assert(self.tokens@.drop_last() =~= old(self).tokens@);
                self.lemma_pushed(old(self).tokens@);
                    }
                    Ok(false)
                },
                None => Err(LexError::UnknownCharacter { character: c, span: self.generate_span() }),
            },
        }
    }

    proof fn lemma_pushed(&self, before: Seq<Token>)
        requires
            self.tokens@.len() == before.len() + 1,
            self.tokens@.drop_last() == before,
        ensures
            self.token_models() == before.map_values(
                |t: Token| (t.token_type@, t.span.row_start as int, t.span.column_start as int),
            ).push(
                (
                    self.tokens@.last().token_type@,
                    self.tokens@.last().span.row_start as int,
                    self.tokens@.last().span.column_start as int,
                ),
            ),
    {
        assert(self.token_models() =~= before.map_values(
            |t: Token| (t.token_type@, t.span.row_start as int, t.span.column_start as int),
        ).push(
            (
                self.tokens@.last().token_type@,
                self.tokens@.last().span.row_start as int,
                self.tokens@.last().span.column_start as int,
            ),
        ));
    }

    /// Splits the text from the current position on into tokens, which replace those read
    /// before. Succeeds exactly when `scan` does, with its tokens, each spanning the point
    /// in this file where it ended.
    pub fn lex(&mut self) -> (r: Result<(), LexError>)
        requires
            old(self).wf(),
            old(self).character_offset <= old(self).length,
        ensures
            final(self).file_contents == old(self).file_contents,
            final(self).file_name == old(self).file_name,
            (r is Ok) == (scan(old(self).file_contents@, old(self).cursor()) is Some),
            r is Ok ==> final(self).token_models() == scan(old(self).file_contents@, old(self).cursor())->0
                && final(self).spans_ok(),
    {
        let ghost s = self.file_contents@;
        let ghost c0 = self.cursor();
        self.tokens = Vec::new();
        assert(self.token_models() =~= Seq::<TokenModel>::empty());
        assert(prepend_all(self.token_models(), scan(s, c0)) =~= scan(s, c0));
        loop
            invariant
                self.wf(),
                self.character_offset <= self.length,
                s == self.file_contents@,
                self.file_contents == old(self).file_contents,
                self.file_name == old(self).file_name,
                c0 == old(self).cursor(),
                self.spans_ok(),
                scan(s, c0) == prepend_all(self.token_models(), scan(s, self.cursor())),
            decreases self.length - self.character_offset,
        {
            let ghost before = self.token_models();
            let ghost c = self.cursor();
            proof {
                lemma_step_advances(s, c);
            }
            match self.lex_step() {
                Ok(true) => {
                    assert(before + seq![] =~= before);
                    return Ok(());
                },
                Ok(false) => {
                    proof {
                        match step(s, c) {
                            Step::Emit(t, c2) => {
                                match scan(s, c2) {
                                    Some(rest) => {
                                        assert(before + (seq![t] + rest) =~= before.push(t) + rest);
                                    },
                                    None => {},
                                }
                            },
                            _ => {},
                        }
                    }
                },
                Err(e) => {
                    return Err(e);
                },
            }
        }
    }
}

} // verus!
