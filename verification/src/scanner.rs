//! The lexer: turns a character sequence into tokens.
//!
//! Dispatch looks at one character: a decimal digit starts an unsigned
//! integer literal, an alphabetic character starts a keyword or identifier,
//! and anything else must be one of the eight punctuation characters.
//! Any other character, and an integer literal that does not fit in 32 bits,
//! are reported as errors rather than panics.

use vstd::prelude::*;
use vstd::string::StrSliceExecFns;

verus! {

/// The closed keyword set. Matching against it is case-insensitive.
#[derive(Debug, PartialEq, Eq, Clone, Copy, Structural)]
pub enum KeywordToken {
    CREATE,
    TABLE,
    SELECT,
    FROM,
    AS,
    INSERT,
    INTO,
    VALUES,
    INT,
    TEXT,
}

/// A lexical token. `Identifier` keeps the original casing; keywords are
/// recognized case-insensitively.
#[derive(Debug, Clone)]
pub enum Token {
    U32(u32),
    SemiColon,
    Keyword(KeywordToken),
    Space,
    Identifier(String),
    Assignment,
    NewLine,
    LeftBracket,
    RightBracket,
    Comma,
    Apostrophe,
    Asterisk,
}

/// The mathematical model of a token: identifiers as character sequences.
pub enum TokenV {
    U32(u32),
    SemiColon,
    Keyword(KeywordToken),
    Space,
    Identifier(Seq<char>),
    Assignment,
    NewLine,
    LeftBracket,
    RightBracket,
    Comma,
    Apostrophe,
    Asterisk,
}

impl View for Token {
    type V = TokenV;

    open spec fn view(&self) -> TokenV {
        match self {
            Token::U32(v) => TokenV::U32(*v),
            Token::SemiColon => TokenV::SemiColon,
            Token::Keyword(k) => TokenV::Keyword(*k),
            Token::Space => TokenV::Space,
            Token::Identifier(s) => TokenV::Identifier(s@),
            Token::Assignment => TokenV::Assignment,
            Token::NewLine => TokenV::NewLine,
            Token::LeftBracket => TokenV::LeftBracket,
            Token::RightBracket => TokenV::RightBracket,
            Token::Comma => TokenV::Comma,
            Token::Apostrophe => TokenV::Apostrophe,
            Token::Asterisk => TokenV::Asterisk,
        }
    }
}

impl PartialEq for Token {
    fn eq(&self, other: &Token) -> (r: bool) {
        match (self, other) {
            (Token::U32(a), Token::U32(b)) => *a == *b,
            (Token::SemiColon, Token::SemiColon) => true,
            (Token::Keyword(a), Token::Keyword(b)) => *a == *b,
            (Token::Space, Token::Space) => true,
            (Token::Identifier(a), Token::Identifier(b)) => *a == *b,
            (Token::Assignment, Token::Assignment) => true,
            (Token::NewLine, Token::NewLine) => true,
            (Token::LeftBracket, Token::LeftBracket) => true,
            (Token::RightBracket, Token::RightBracket) => true,
            (Token::Comma, Token::Comma) => true,
            (Token::Apostrophe, Token::Apostrophe) => true,
            (Token::Asterisk, Token::Asterisk) => true,
            _ => false,
        }
    }
}

impl vstd::std_specs::cmp::PartialEqSpecImpl for Token {
    open spec fn obeys_eq_spec() -> bool {
        true
    }

    open spec fn eq_spec(&self, other: &Token) -> bool {
        self@ == other@
    }
}

impl Token {
    /// An owned copy of the token, with the same view.
    pub fn duplicate(&self) -> (r: Token)
        ensures
            r@ == self@,
    {
        match self {
            Token::U32(v) => Token::U32(*v),
            Token::SemiColon => Token::SemiColon,
            Token::Keyword(k) => Token::Keyword(*k),
            Token::Space => Token::Space,
            Token::Identifier(s) => Token::Identifier(s.clone()),
            Token::Assignment => Token::Assignment,
            Token::NewLine => Token::NewLine,
            Token::LeftBracket => Token::LeftBracket,
            Token::RightBracket => Token::RightBracket,
            Token::Comma => Token::Comma,
            Token::Apostrophe => Token::Apostrophe,
            Token::Asterisk => Token::Asterisk,
        }
    }
}

/// A lexical error. Both variants are fatal for the statement stream.
#[derive(Debug, PartialEq, Eq, Clone, Copy, Structural)]
pub enum ScannerError {
    UnrecognizedCharacter(char),
    IntegerLiteralOverflow,
}

/// A decimal digit.
pub open spec fn is_digit_char(c: char) -> bool {
    48 <= c as u32 <= 57
}

/// The numeric value of a decimal digit.
pub open spec fn digit_of(c: char) -> int {
    c as u32 - 48
}

/// Relies on `char::is_alphabetic`: the result depends on the character alone.
pub uninterp spec fn is_alpha_char(c: char) -> bool;

/// Relies on `char::is_alphanumeric`: the result depends on the character alone.
pub uninterp spec fn is_alnum_char(c: char) -> bool;

/// Relies on `char::is_alphabetic` to classify a character as it does,
/// and on its documentation: an alphabetic character is alphanumeric.
#[verifier::external_body]
fn char_is_alphabetic(c: char) -> (r: bool)
    ensures
        r == is_alpha_char(c),
        r ==> is_alnum_char(c),
{
    c.is_alphabetic()
}

/// Relies on `char::is_alphanumeric` to classify a character as it does.
#[verifier::external_body]
fn char_is_alphanumeric(c: char) -> (r: bool)
    ensures
        r == is_alnum_char(c),
{
    c.is_alphanumeric()
}

/// Relies on `String::push`: appends the character at the end of the string.
#[verifier::external_body]
fn push_char(s: &mut String, c: char)
    ensures
        final(s)@ == old(s)@.push(c),
{
    s.push(c);
}

/// The end of the run of decimal digits that starts at `pos`.
pub open spec fn digits_end(s: Seq<char>, pos: int) -> int
    decreases s.len() - pos,
{
    if pos >= s.len() || !is_digit_char(s[pos]) {
        pos
    } else {
        digits_end(s, pos + 1)
    }
}

/// The value of the digits `s[pos..end]` read as a decimal number.
pub open spec fn digits_val(s: Seq<char>, pos: int, end: int) -> int
    decreases end - pos,
{
    if end <= pos {
        0
    } else {
        digits_val(s, pos, end - 1) * 10 + digit_of(s[end - 1])
    }
}

/// The end of the run of alphanumeric characters that starts at `pos`.
pub open spec fn word_end(s: Seq<char>, pos: int) -> int
    decreases s.len() - pos,
{
    if pos >= s.len() || !is_alnum_char(s[pos]) {
        pos
    } else {
        word_end(s, pos + 1)
    }
}

/// ASCII upper-casing of one character; other characters are unchanged.
/// The keyword set is ASCII, so this is all that keyword matching needs.
pub open spec fn upper_char(c: char) -> char {
    if 97 <= c as u32 <= 122 {
        (c as u32 - 32) as char
    } else {
        c
    }
}

/// ASCII upper-casing of a character sequence.
pub open spec fn upper_seq(w: Seq<char>) -> Seq<char> {
    w.map_values(|c: char| upper_char(c))
}

/// The keyword that a word denotes, if any; matching is case-insensitive.
pub open spec fn kw_of(w: Seq<char>) -> Option<KeywordToken> {
    let u = upper_seq(w);
    if u == "SELECT"@ {
        Some(KeywordToken::SELECT)
    } else if u == "FROM"@ {
        Some(KeywordToken::FROM)
    } else if u == "AS"@ {
        Some(KeywordToken::AS)
    } else if u == "TABLE"@ {
        Some(KeywordToken::TABLE)
    } else if u == "CREATE"@ {
        Some(KeywordToken::CREATE)
    } else if u == "INSERT"@ {
        Some(KeywordToken::INSERT)
    } else if u == "INTO"@ {
        Some(KeywordToken::INTO)
    } else if u == "VALUES"@ {
        Some(KeywordToken::VALUES)
    } else if u == "INT"@ {
        Some(KeywordToken::INT)
    } else if u == "TEXT"@ {
        Some(KeywordToken::TEXT)
    } else {
        None
    }
}


proof fn lemma_upper_idempotent(c: char)
    ensures
        upper_char(upper_char(c)) == upper_char(c),
{
    if 97 <= c as u32 <= 122 {
        assert(upper_char(c) as u32 == c as u32 - 32);
    }
}

/// Keyword matching is case-insensitive: a word and its upper-cased form
/// denote the same keyword, or none at all.
pub proof fn lemma_keyword_case_insensitive(w: Seq<char>)
    ensures
        kw_of(w) == kw_of(upper_seq(w)),
{
    assert(upper_seq(upper_seq(w)) =~= upper_seq(w)) by {
        assert forall|i: int| 0 <= i < w.len() implies upper_seq(upper_seq(w))[i] == upper_seq(
            w,
        )[i] by {
            lemma_upper_idempotent(w[i]);
        }
    }
}

/// The token that a single punctuation character stands for, if any.
pub open spec fn symbol_token(c: char) -> Option<TokenV> {
    if c == ';' {
        Some(TokenV::SemiColon)
    } else if c == '\n' {
        Some(TokenV::NewLine)
    } else if c == ' ' {
        Some(TokenV::Space)
    } else if c == '(' {
        Some(TokenV::LeftBracket)
    } else if c == ')' {
        Some(TokenV::RightBracket)
    } else if c == ',' {
        Some(TokenV::Comma)
    } else if c == '\'' {
        Some(TokenV::Apostrophe)
    } else if c == '*' {
        Some(TokenV::Asterisk)
    } else {
        None
    }
}

/// One step of the lexer: the token found at `pos` and the position after
/// it, the end of the input, or a lexical error.
pub enum LexStepV {
    End,
    Tok(TokenV, int),
    Error(ScannerError),
}

/// What the lexer produces at position `pos` of input `s`.
pub open spec fn lex_step(s: Seq<char>, pos: int) -> LexStepV {
    if pos >= s.len() {
        LexStepV::End
    } else if is_digit_char(s[pos]) {
        let e = digits_end(s, pos);
        let v = digits_val(s, pos, e);
        if v <= u32::MAX {
            LexStepV::Tok(TokenV::U32(v as u32), e)
        } else {
            LexStepV::Error(ScannerError::IntegerLiteralOverflow)
        }
    } else if is_alpha_char(s[pos]) {
        let e = word_end(s, pos);
        let w = s.subrange(pos, e);
        match kw_of(w) {
            Some(k) => LexStepV::Tok(TokenV::Keyword(k), e),
            None => LexStepV::Tok(TokenV::Identifier(w), e),
        }
    } else {
        match symbol_token(s[pos]) {
            Some(t) => LexStepV::Tok(t, pos + 1),
            None => LexStepV::Error(ScannerError::UnrecognizedCharacter(s[pos])),
        }
    }
}

proof fn lemma_digits_end(s: Seq<char>, pos: int)
    requires
        0 <= pos <= s.len(),
    ensures
        pos <= digits_end(s, pos) <= s.len(),
        forall|i: int| pos <= i < digits_end(s, pos) ==> is_digit_char(s[i]),
        digits_end(s, pos) < s.len() ==> !is_digit_char(s[digits_end(s, pos)]),
    decreases s.len() - pos,
{
    if pos < s.len() && is_digit_char(s[pos]) {
        lemma_digits_end(s, pos + 1);
    }
}

proof fn lemma_word_end(s: Seq<char>, pos: int)
    requires
        0 <= pos <= s.len(),
    ensures
        pos <= word_end(s, pos) <= s.len(),
        forall|i: int| pos <= i < word_end(s, pos) ==> is_alnum_char(s[i]),
        word_end(s, pos) < s.len() ==> !is_alnum_char(s[word_end(s, pos)]),
    decreases s.len() - pos,
{
    if pos < s.len() && is_alnum_char(s[pos]) {
        lemma_word_end(s, pos + 1);
    }
}

proof fn lemma_digits_val_monotone(s: Seq<char>, pos: int, e1: int, e2: int)
    requires
        pos <= e1 <= e2,
        forall|i: int| pos <= i < e2 ==> is_digit_char(s[i]),
    ensures
        0 <= digits_val(s, pos, e1) <= digits_val(s, pos, e2),
    decreases e2 - pos,
{
    if e2 <= pos {
    } else if e1 == e2 {
        lemma_digits_val_monotone(s, pos, e2 - 1, e2 - 1);
    } else {
        lemma_digits_val_monotone(s, pos, e1, e2 - 1);
    }
}

/// The lexer as a cursor over a character sequence.
pub struct TokenIterator {
    chars: Vec<char>,
    pos: usize,
}

/// The model of the lexer: the input and the cursor position.
pub struct TokenIteratorV {
    pub chars: Seq<char>,
    pub pos: int,
}

impl View for TokenIterator {
    type V = TokenIteratorV;

    closed spec fn view(&self) -> TokenIteratorV {
        TokenIteratorV { chars: self.chars@, pos: self.pos as int }
    }
}

impl TokenIterator {
    fn new(chars: Vec<char>) -> (r: TokenIterator)
        ensures
            r@.chars == chars@,
            r@.pos == 0,
    {
        TokenIterator { chars, pos: 0 }
    }

    /// A lexer over the given characters, positioned at the start.
    pub fn new_iterator(chars: Vec<char>) -> (r: TokenIterator)
        ensures
            r@.chars == chars@,
            r@.pos == 0,
    {
        TokenIterator::new(chars)
    }

    /// The next token, `None` at the end of the input, or the lexical
    /// error found at the cursor, exactly as `lex_step` describes.
    pub fn next(&mut self) -> (r: Result<Option<Token>, ScannerError>)
        requires
            old(self)@.pos <= old(self)@.chars.len(),
        ensures
            final(self)@.chars == old(self)@.chars,
            old(self)@.pos <= final(self)@.pos <= final(self)@.chars.len(),
            match lex_step(old(self)@.chars, old(self)@.pos) {
                LexStepV::End => r == Ok::<Option<Token>, ScannerError>(None::<Token>)
                    && final(self)@.pos == old(self)@.pos,
                LexStepV::Tok(tv, e) => final(self)@.pos == e
                    && old(self)@.pos < e
                    && (r matches Ok(o) && o matches Some(t) && t@ == tv),
                LexStepV::Error(err) => r == Err::<Option<Token>, ScannerError>(err),
            },
    {
        if self.pos >= self.chars.len() {
            return Ok(None);
        }
        let c = self.chars[self.pos];
        if is_digit_x(c) {
            proof {
                lemma_digits_end(self@.chars, self@.pos + 1);
            }
            match self.read_int_lit_token() {
                Ok(t) => Ok(Some(t)),
                Err(e) => Err(e),
            }
        } else if char_is_alphabetic(c) {
            proof {
                lemma_word_end(self@.chars, self@.pos + 1);
            }
            Ok(Some(self.read_alphabetic_token()))
        } else {
            match self.read_symbol() {
                Ok(t) => Ok(Some(t)),
                Err(e) => Err(e),
            }
        }
    }

    /// Reads the digit run at the cursor as an unsigned 32-bit literal,
    /// reporting an overflow as an error.
    fn read_int_lit_token(&mut self) -> (r: Result<Token, ScannerError>)
        requires
            old(self)@.pos < old(self)@.chars.len(),
            is_digit_char(old(self)@.chars[old(self)@.pos]),
        ensures
            final(self)@.chars == old(self)@.chars,
            old(self)@.pos <= final(self)@.pos <= final(self)@.chars.len(),
            ({
                let e = digits_end(old(self)@.chars, old(self)@.pos);
                let v = digits_val(old(self)@.chars, old(self)@.pos, e);
                if v <= u32::MAX {
                    final(self)@.pos == e
                        && (r matches Ok(t) && t@ == TokenV::U32(v as u32))
                } else {
                    r == Err::<Token, ScannerError>(ScannerError::IntegerLiteralOverflow)
                }
            }),
    {
        let ghost s = self.chars@;
        let ghost start = self.pos as int;
        let ghost e = digits_end(s, start);
        proof {
            lemma_digits_end(s, start);
        }
        let mut acc: u32 = 0;
        while self.pos < self.chars.len() && is_digit_x(self.chars[self.pos])
            invariant
                s == old(self)@.chars,
                start == old(self)@.pos,
                e == digits_end(s, start),
                self.chars@ == s,
                start <= self.pos as int <= e <= s.len(),
                acc as int == digits_val(s, start, self.pos as int),
                forall|i: int| start <= i < e ==> is_digit_char(s[i]),
                e < s.len() ==> !is_digit_char(s[e]),
            decreases s.len() - self.pos,
        {
            let c = self.chars[self.pos];
            let d: u32 = c as u32 - 48;
            let wide: u64 = acc as u64 * 10 + d as u64;
            if wide > 0xffff_ffff {
                proof {
                    assert(self.pos < e) by {
                        if self.pos as int == e {
                            assert(e < s.len());
                            assert(is_digit_char(s[e]));
                        }
                    }
                    assert(wide as int == digits_val(s, start, self.pos + 1));
                    lemma_digits_val_monotone(s, start, self.pos + 1, e);
                }
                return Err(ScannerError::IntegerLiteralOverflow);
            }
            proof {
                assert(self.pos < e) by {
                    if self.pos as int == e {
                        assert(e < s.len());
                        assert(is_digit_char(s[e]));
                    }
                }
            }
            acc = wide as u32;
            self.pos = self.pos + 1;
        }
        proof {
            assert(self.pos as int == e) by {
                if (self.pos as int) < e {
                    assert(is_digit_char(s[self.pos as int]));
                }
            }
            lemma_digits_val_monotone(s, start, e, e);
        }
        Ok(Token::U32(acc))
    }

    /// Reads the alphanumeric run at the cursor; a case-insensitive match
    /// against the keyword set decides keyword or identifier.
    fn read_alphabetic_token(&mut self) -> (r: Token)
        requires
            old(self)@.pos < old(self)@.chars.len(),
        ensures
            final(self)@.chars == old(self)@.chars,
            old(self)@.pos <= final(self)@.pos <= final(self)@.chars.len(),
            ({
                let e = word_end(old(self)@.chars, old(self)@.pos);
                let w = old(self)@.chars.subrange(old(self)@.pos, e);
                final(self)@.pos == e
                    && r@ == (match kw_of(w) {
                        Some(k) => TokenV::Keyword(k),
                        None => TokenV::Identifier(w),
                    })
            }),
    {
        let ghost s = self.chars@;
        let ghost start = self.pos as int;
        let ghost e = word_end(s, start);
        proof {
            lemma_word_end(s, start);
        }
        let mut wvec: Vec<char> = Vec::new();
        let mut wstr: String = String::new();
        while self.pos < self.chars.len() && char_is_alphanumeric(self.chars[self.pos])
            invariant
                s == old(self)@.chars,
                start == old(self)@.pos,
                e == word_end(s, start),
                self.chars@ == s,
                start <= self.pos as int <= e <= s.len(),
                wvec@ == s.subrange(start, self.pos as int),
                wstr@ == wvec@,
                forall|i: int| start <= i < e ==> is_alnum_char(s[i]),
                e < s.len() ==> !is_alnum_char(s[e]),
            decreases s.len() - self.pos,
        {
            proof {
                assert(self.pos < e) by {
                    if self.pos as int == e {
                        assert(e < s.len());
                        assert(is_alnum_char(s[e]));
                    }
                }
            }
            let ghost p0 = self.pos as int;
            let c = self.chars[self.pos];
            wvec.push(c);
            push_char(&mut wstr, c);
            self.pos = self.pos + 1;
            proof {
                assert(s.subrange(start, p0 + 1) =~= s.subrange(start, p0).push(s[p0]));
            }
        }
        proof {
            assert(self.pos as int == e) by {
                if (self.pos as int) < e {
                    assert(is_alnum_char(s[self.pos as int]));
                }
            }
        }
        match keyword_token_of(&wvec) {
            Some(k) => Token::Keyword(k),
            None => Token::Identifier(wstr),
        }
    }

    /// Reads the single punctuation character at the cursor, or reports it
    /// as unrecognized.
    fn read_symbol(&mut self) -> (r: Result<Token, ScannerError>)
        requires
            old(self)@.pos < old(self)@.chars.len(),
        ensures
            final(self)@.chars == old(self)@.chars,
            old(self)@.pos <= final(self)@.pos <= final(self)@.chars.len(),
            (match symbol_token(old(self)@.chars[old(self)@.pos]) {
                Some(tv) => final(self)@.pos == old(self)@.pos + 1
                    && (r matches Ok(t) && t@ == tv),
                None => r == Err::<Token, ScannerError>(ScannerError::UnrecognizedCharacter(
                    old(self)@.chars[old(self)@.pos],
                )),
            }),
    {
        let n = self.chars.len();
        proof {
            assert(self.pos < n);
        }
        let c = self.chars[self.pos];
        if c == ';' {
            self.pos = self.pos + 1;
            Ok(Token::SemiColon)
        } else if c == '\n' {
            self.pos = self.pos + 1;
            Ok(Token::NewLine)
        } else if c == ' ' {
            self.pos = self.pos + 1;
            Ok(Token::Space)
        } else if c == '(' {
            self.pos = self.pos + 1;
            Ok(Token::LeftBracket)
        } else if c == ')' {
            self.pos = self.pos + 1;
            Ok(Token::RightBracket)
        } else if c == ',' {
            self.pos = self.pos + 1;
            Ok(Token::Comma)
        } else if c == '\'' {
            self.pos = self.pos + 1;
            Ok(Token::Apostrophe)
        } else if c == '*' {
            self.pos = self.pos + 1;
            Ok(Token::Asterisk)
        } else {
            Err(ScannerError::UnrecognizedCharacter(c))
        }
    }
}

/// A decimal digit, as `is_digit_char` describes.
fn is_digit_x(c: char) -> (r: bool)
    ensures
        r == is_digit_char(c),
{
    c as u32 >= 48 && c as u32 <= 57
}

/// ASCII upper-casing of one character, as `upper_char` describes.
fn upper_char_x(c: char) -> (r: char)
    ensures
        r == upper_char(c),
{
    let u = c as u32;
    if 97 <= u && u <= 122 {
        ((u - 32) as u8) as char
    } else {
        c
    }
}

/// ASCII upper-casing of a word.
fn to_upper_vec(w: &Vec<char>) -> (r: Vec<char>)
    ensures
        r@ == upper_seq(w@),
{
    let mut out: Vec<char> = Vec::new();
    let mut i: usize = 0;
    while i < w.len()
        invariant
            i <= w.len(),
            out@ =~= upper_seq(w@).take(i as int),
        decreases w@.len() - i,
    {
        out.push(upper_char_x(w[i]));
        i = i + 1;
        proof {
            assert(upper_seq(w@).take(i as int) =~= upper_seq(w@).take(i - 1).push(
                upper_char(w@[i - 1]),
            ));
        }
    }
    proof {
        assert(upper_seq(w@).take(w@.len() as int) =~= upper_seq(w@));
    }
    out
}

/// Whether a word equals a string, character for character.
fn chars_eq_str(w: &Vec<char>, s: &str) -> (r: bool)
    ensures
        r == (w@ == s@),
{
    let n = s.unicode_len();
    if w.len() != n {
        return false;
    }
    let mut i: usize = 0;
    while i < n
        invariant
            i <= n,
            n == s@.len(),
            w@.len() == n,
            forall|j: int| 0 <= j < i ==> w@[j] == s@[j],
        decreases n - i,
    {
        if w[i] != s.get_char(i) {
            return false;
        }
        i = i + 1;
    }
    proof {
        assert(w@ =~= s@);
    }
    true
}

/// The keyword that a word denotes, if any, as `kw_of` describes.
fn keyword_token_of(w: &Vec<char>) -> (r: Option<KeywordToken>)
    ensures
        r == kw_of(w@),
{
    let up = to_upper_vec(w);
    if chars_eq_str(&up, "SELECT") {
        Some(KeywordToken::SELECT)
    } else if chars_eq_str(&up, "FROM") {
        Some(KeywordToken::FROM)
    } else if chars_eq_str(&up, "AS") {
        Some(KeywordToken::AS)
    } else if chars_eq_str(&up, "TABLE") {
        Some(KeywordToken::TABLE)
    } else if chars_eq_str(&up, "CREATE") {
        Some(KeywordToken::CREATE)
    } else if chars_eq_str(&up, "INSERT") {
        Some(KeywordToken::INSERT)
    } else if chars_eq_str(&up, "INTO") {
        Some(KeywordToken::INTO)
    } else if chars_eq_str(&up, "VALUES") {
        Some(KeywordToken::VALUES)
    } else if chars_eq_str(&up, "INT") {
        Some(KeywordToken::INT)
    } else if chars_eq_str(&up, "TEXT") {
        Some(KeywordToken::TEXT)
    } else {
        None
    }
}

/// The views of a sequence of tokens.
pub open spec fn views_of(q: Seq<Token>) -> Seq<TokenV> {
    q.map_values(|t: Token| t@)
}

/// The whole input lexed from `pos` on: the remaining tokens in order, or
/// the first lexical error.
pub open spec fn spec_tokenize_from(s: Seq<char>, pos: int) -> Result<Seq<TokenV>, ScannerError>
    decreases s.len() - pos,
{
    match lex_step(s, pos) {
        LexStepV::End => Ok(Seq::empty()),
        LexStepV::Error(e) => Err(e),
        LexStepV::Tok(t, e) => if pos < e <= s.len() {
            match spec_tokenize_from(s, e) {
                Ok(rest) => Ok(seq![t] + rest),
                Err(er) => Err(er),
            }
        } else {
            Ok(Seq::empty())
        },
    }
}

/// Lexes the whole input into tokens, or reports the first lexical error,
/// exactly as `spec_tokenize_from` describes from position zero.
#[verifier::loop_isolation(false)]
pub fn tokenize(chars: Vec<char>) -> (r: Result<Vec<Token>, ScannerError>)
    ensures
        match spec_tokenize_from(chars@, 0) {
            Ok(ts) => r matches Ok(v) && views_of(v@) == ts,
            Err(e) => r == Err::<Vec<Token>, ScannerError>(e),
        },
{
    let ghost s = chars@;
    let mut it = TokenIterator::new_iterator(chars);
    let mut out: Vec<Token> = Vec::new();
    loop
        invariant
            it@.chars == s,
            0 <= it@.pos <= s.len(),
            (match spec_tokenize_from(s, it@.pos) {
                Ok(rest) => spec_tokenize_from(s, 0) == Ok::<Seq<TokenV>, ScannerError>(
                    views_of(out@) + rest,
                ),
                Err(e) => spec_tokenize_from(s, 0) == Err::<Seq<TokenV>, ScannerError>(e),
            }),
        decreases s.len() - it@.pos,
    {
        let ghost p = it@.pos;
        let ghost out0 = out@;
        match it.next() {
            Ok(Some(t)) => {
                let ghost tv = t@;
                out.push(t);
                proof {
                    assert(views_of(out@) =~= views_of(out0) + seq![tv]);
                    assert(lex_step(s, p) matches LexStepV::Tok(t2, e2) && t2 == tv && e2
                        == it@.pos);
                    if spec_tokenize_from(s, it@.pos) is Ok {
                        assert((views_of(out0) + (seq![tv]
                            + spec_tokenize_from(s, it@.pos)->Ok_0)) =~= (views_of(out@)
                            + spec_tokenize_from(s, it@.pos)->Ok_0));
                    }
                }
            },
            Ok(None) => {
                proof {
                    assert(views_of(out@) + Seq::<TokenV>::empty() =~= views_of(out@));
                }
                return Ok(out);
            },
            Err(e) => {
                return Err(e);
            },
        }
    }
}

/// The token sequence with the `Space` tokens removed; the lexer's caller
/// strips them before parsing, since whitespace has no syntactic meaning.
pub open spec fn drop_spaces(q: Seq<TokenV>) -> Seq<TokenV>
    decreases q.len(),
{
    if q.len() == 0 {
        Seq::empty()
    } else {
        drop_spaces(q.drop_last()) + (if q.last() is Space {
            Seq::<TokenV>::empty()
        } else {
            seq![q.last()]
        })
    }
}

/// Removes the `Space` tokens, keeping everything else in order.
#[verifier::loop_isolation(false)]
pub fn strip_spaces(toks: Vec<Token>) -> (r: Vec<Token>)
    ensures
        views_of(r@) == drop_spaces(views_of(toks@)),
{
    let ghost orig = toks@;
    let mut rest = toks;
    let mut out: Vec<Token> = Vec::new();
    let ghost k: int = 0;
    loop
        invariant
            0 <= k <= orig.len(),
            rest@ == orig.subrange(k, orig.len() as int),
            views_of(out@) == drop_spaces(views_of(orig.subrange(0, k))),
        decreases orig.len() - k,
    {
        if rest.len() == 0 {
            proof {
                assert(orig.subrange(0, k) =~= orig);
            }
            return out;
        }
        let t = rest.remove(0);
        let ghost out0 = out@;
        let keep = match &t {
            Token::Space => false,
            _ => true,
        };
        let ghost tv = t@;
        if keep {
            out.push(t);
        }
        proof {
            let pre = orig.subrange(0, k);
            let pre1 = orig.subrange(0, k + 1);
            assert(pre1.drop_last() =~= pre);
            assert(pre1.last() == orig[k]);
            assert(views_of(pre1).drop_last() =~= views_of(pre));
            assert(views_of(pre1).last() == tv);
            assert(views_of(pre1).len() > 0);
            if keep {
                assert(views_of(out@) =~= views_of(out0) + seq![tv]);
                assert(!(tv is Space));
                assert(views_of(out@) =~= drop_spaces(views_of(pre1)));
            } else {
                assert(tv is Space);
                assert(views_of(out@) + Seq::<TokenV>::empty() =~= views_of(out@));
                assert(views_of(out@) =~= drop_spaces(views_of(pre1)));
            }
            assert(rest@ =~= orig.subrange(k + 1, orig.len() as int));
        }
        proof {
            k = k + 1;
        }
    }
}

} // verus!
