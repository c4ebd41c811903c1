//! Token model: kinds, source locations, and the classification of lexemes.

use crate::text::{chars_of, text_is};
use vstd::prelude::*;
use vstd::string::*;

verus! {

/// The families of literal values. The value itself is read later, from the lexeme.
#[derive(Clone, Copy, Debug, PartialEq, Eq, Structural)]
pub enum Literal {
    Int,
    Float,
    Bool,
    Str,
}

/// The reserved words.
#[derive(Clone, Copy, Debug, PartialEq, Eq, Structural)]
pub enum Keyword {
    UnitType,
    IntType,
    FloatType,
    BoolType,
    StrType,
    Match,
    If,
    Then,
    Else,
    Data,
}

/// What a token stands for.
#[derive(Clone, Copy, Debug, PartialEq, Eq, Structural)]
pub enum TokenKind {
    TokenLiteral(Literal),
    TokenKeyword(Keyword),
    TokenIdentifier,
    TokenComment,
    /// `' '`
    TokenSpace,
    /// `'\t'`
    TokenTab,
    /// `'\n'`
    TokenNewLine,
    /// `.`
    TokenDot,
    /// `:`
    TokenColon,
    /// `;`
    TokenSemicolon,
    /// `=`
    TokenAssign,
    /// `'`
    TokenSingleQuote,
    /// `"`
    TokenDoubleQuote,
    /// `(`
    TokenOpenParen,
    /// `)`
    TokenCloseParen,
    /// `{`
    TokenOpenBrace,
    /// `}`
    TokenCloseBrace,
    /// `[`
    TokenOpenBracket,
    /// `]`
    TokenCloseBracket,
    /// `,`
    TokenComma,
    /// `>`
    TokenGreater,
    /// `->`
    TokenRightArrow,
    /// `=>`
    TokenRightDoubleArrow,
    /// `++`
    TokenPlusPlus,
    /// `_`
    TokenUnderscore,
    /// `|`
    TokenPipe,
    /// End of input.
    TokenEOF,
    /// `+`
    TokenPlus,
    /// `-`
    TokenMinus,
    /// `*`
    TokenStar,
    /// `/`
    TokenSlash,
    /// Anything the lexer does not recognise.
    TokenUnknown,
}

/// Whether `c` is one of the decimal digits `0` to `9`.
pub open spec fn is_digit(c: char) -> bool {
    '0' <= c <= '9'
}

/// Whether `c` may be followed by another character of the same symbol.
pub open spec fn is_symbol_prefix(c: char) -> bool {
    c == '-' || c == '=' || c == '+'
}

/// Whether `c` belongs to the punctuation table.
pub open spec fn is_symbol_char(c: char) -> bool {
    ||| c == ':'
    ||| c == '.'
    ||| c == ';'
    ||| c == '='
    ||| c == '\''
    ||| c == '"'
    ||| c == '('
    ||| c == ')'
    ||| c == '{'
    ||| c == '}'
    ||| c == '['
    ||| c == ']'
    ||| c == '_'
    ||| c == '|'
    ||| c == ','
    ||| c == '-'
    ||| c == '+'
    ||| c == '*'
    ||| c == '/'
    ||| c == '>'
    ||| c == '\n'
}

/// The kind of a reserved word or boolean literal, if `lexeme` is one.
pub open spec fn keyword_kind(lexeme: Seq<char>) -> Option<TokenKind> {
    if lexeme == "true"@ || lexeme == "false"@ {
        Some(TokenKind::TokenLiteral(Literal::Bool))
    } else if lexeme == "unit"@ {
        Some(TokenKind::TokenKeyword(Keyword::UnitType))
    } else if lexeme == "int"@ {
        Some(TokenKind::TokenKeyword(Keyword::IntType))
    } else if lexeme == "float"@ {
        Some(TokenKind::TokenKeyword(Keyword::FloatType))
    } else if lexeme == "bool"@ {
        Some(TokenKind::TokenKeyword(Keyword::BoolType))
    } else if lexeme == "str"@ {
        Some(TokenKind::TokenKeyword(Keyword::StrType))
    } else if lexeme == "match"@ {
        Some(TokenKind::TokenKeyword(Keyword::Match))
    } else if lexeme == "if"@ {
        Some(TokenKind::TokenKeyword(Keyword::If))
    } else if lexeme == "then"@ {
        Some(TokenKind::TokenKeyword(Keyword::Then))
    } else if lexeme == "else"@ {
        Some(TokenKind::TokenKeyword(Keyword::Else))
    } else if lexeme == "data"@ {
        Some(TokenKind::TokenKeyword(Keyword::Data))
    } else {
        None
    }
}

/// The kind of a punctuation or operator symbol, if `lexeme` is one.
pub open spec fn separator_kind(lexeme: Seq<char>) -> Option<TokenKind> {
    if lexeme == "."@ {
        Some(TokenKind::TokenDot)
    } else if lexeme == ":"@ {
        Some(TokenKind::TokenColon)
    } else if lexeme == ";"@ {
        Some(TokenKind::TokenSemicolon)
    } else if lexeme == "="@ {
        Some(TokenKind::TokenAssign)
    } else if lexeme == "'"@ {
        Some(TokenKind::TokenSingleQuote)
    } else if lexeme == "\""@ {
        Some(TokenKind::TokenDoubleQuote)
    } else if lexeme == "("@ {
        Some(TokenKind::TokenOpenParen)
    } else if lexeme == ")"@ {
        Some(TokenKind::TokenCloseParen)
    } else if lexeme == "{"@ {
        Some(TokenKind::TokenOpenBrace)
    } else if lexeme == "}"@ {
        Some(TokenKind::TokenCloseBrace)
    } else if lexeme == "["@ {
        Some(TokenKind::TokenOpenBracket)
    } else if lexeme == "]"@ {
        Some(TokenKind::TokenCloseBracket)
    } else if lexeme == "_"@ {
        Some(TokenKind::TokenUnderscore)
    } else if lexeme == ","@ {
        Some(TokenKind::TokenComma)
    } else if lexeme == "+"@ {
        Some(TokenKind::TokenPlus)
    } else if lexeme == "-"@ {
        Some(TokenKind::TokenMinus)
    } else if lexeme == "*"@ {
        Some(TokenKind::TokenStar)
    } else if lexeme == "/"@ {
        Some(TokenKind::TokenSlash)
    } else if lexeme == ">"@ {
        Some(TokenKind::TokenGreater)
    } else if lexeme == "->"@ {
        Some(TokenKind::TokenRightArrow)
    } else if lexeme == "=>"@ {
        Some(TokenKind::TokenRightDoubleArrow)
    } else if lexeme == "++"@ {
        Some(TokenKind::TokenPlusPlus)
    } else if lexeme == "|"@ {
        Some(TokenKind::TokenPipe)
    } else {
        None
    }
}

/// Whether every character of `lexeme` is a decimal digit.
pub open spec fn all_digits(lexeme: Seq<char>) -> bool {
    forall|i: int| 0 <= i < lexeme.len() ==> is_digit(#[trigger] lexeme[i])
}

/// The kind of a numeric literal, if `lexeme` reads as one: an integer when it
/// holds digits only, a float when it holds a decimal point.
pub open spec fn number_kind(lexeme: Seq<char>) -> Option<TokenKind> {
    if all_digits(lexeme) {
        Some(TokenKind::TokenLiteral(Literal::Int))
    } else if lexeme.contains('.') {
        Some(TokenKind::TokenLiteral(Literal::Float))
    } else {
        None
    }
}

/// The kind of the token whose text is `lexeme`.
///
/// White space first, then the keyword and punctuation tables, then the
/// numeric test; whatever is left is an identifier.
pub open spec fn classify(lexeme: Seq<char>) -> TokenKind {
    if lexeme == "\n"@ {
        TokenKind::TokenNewLine
    } else if lexeme == "\t"@ {
        TokenKind::TokenTab
    } else if lexeme == " "@ {
        TokenKind::TokenSpace
    } else if keyword_kind(lexeme) is Some {
        keyword_kind(lexeme)->0
    } else if separator_kind(lexeme) is Some {
        separator_kind(lexeme)->0
    } else if number_kind(lexeme) is Some {
        number_kind(lexeme)->0
    } else {
        TokenKind::TokenIdentifier
    }
}

/// Whether `c` is one of the decimal digits `0` to `9`.
pub fn is_ascii_digit(c: char) -> (digit: bool)
    ensures
        digit == is_digit(c),
{
    '0' <= c && c <= '9'
}

impl TokenKind {
    /// Whether the one-character text `c` may be followed by another
    /// character of the same symbol: `-`, `=` or `+`.
    pub fn can_be_followed_by_another_symbol(c: &str) -> (prefix: bool)
        ensures
            prefix == (c@.len() == 1 && is_symbol_prefix(c@[0])),
    {
        c.unicode_len() == 1 && Self::is_symbol_prefix_char(c.get_char(0))
    }

    /// Whether the character `c` may be followed by another character of the
    /// same symbol.
    pub fn is_symbol_prefix_char(c: char) -> (prefix: bool)
        ensures
            prefix == is_symbol_prefix(c),
    {
        c == '-' || c == '=' || c == '+'
    }

    /// Whether the one-character text `c` belongs to the punctuation table.
    pub fn is_symbol(c: &str) -> (symbol: bool)
        ensures
            symbol == (c@.len() == 1 && is_symbol_char(c@[0])),
    {
        c.unicode_len() == 1 && Self::is_symbol_char(c.get_char(0))
    }

    /// Whether the character `c` belongs to the punctuation table.
    pub fn is_symbol_char(c: char) -> (symbol: bool)
        ensures
            symbol == is_symbol_char(c),
    {
        match c {
            ':' | '.' | ';' | '=' | '\'' | '"' | '(' | ')' | '{' | '}' | '[' | ']' | '_' | '|'
            | ',' | '-' | '+' | '*' | '/' | '>' | '\n' => true,
            _ => false,
        }
    }

    fn match_keyword(chars: &Vec<char>, from: usize, to: usize) -> (kind: Option<TokenKind>)
        requires
            from <= to <= chars.len(),
        ensures
            kind == keyword_kind(chars@.subrange(from as int, to as int)),
    {
        if text_is(chars, from, to, "true") || text_is(chars, from, to, "false") {
            Some(TokenKind::TokenLiteral(Literal::Bool))
        } else if text_is(chars, from, to, "unit") {
            Some(TokenKind::TokenKeyword(Keyword::UnitType))
        } else if text_is(chars, from, to, "int") {
            Some(TokenKind::TokenKeyword(Keyword::IntType))
        } else if text_is(chars, from, to, "float") {
            Some(TokenKind::TokenKeyword(Keyword::FloatType))
        } else if text_is(chars, from, to, "bool") {
            Some(TokenKind::TokenKeyword(Keyword::BoolType))
        } else if text_is(chars, from, to, "str") {
            Some(TokenKind::TokenKeyword(Keyword::StrType))
        } else if text_is(chars, from, to, "match") {
            Some(TokenKind::TokenKeyword(Keyword::Match))
        } else if text_is(chars, from, to, "if") {
            Some(TokenKind::TokenKeyword(Keyword::If))
        } else if text_is(chars, from, to, "then") {
            Some(TokenKind::TokenKeyword(Keyword::Then))
        } else if text_is(chars, from, to, "else") {
            Some(TokenKind::TokenKeyword(Keyword::Else))
        } else if text_is(chars, from, to, "data") {
            Some(TokenKind::TokenKeyword(Keyword::Data))
        } else {
            None
        }
    }

    fn match_separator(chars: &Vec<char>, from: usize, to: usize) -> (kind: Option<TokenKind>)
        requires
            from <= to <= chars.len(),
        ensures
            kind == separator_kind(chars@.subrange(from as int, to as int)),
    {
        if text_is(chars, from, to, ".") {
            Some(TokenKind::TokenDot)
        } else if text_is(chars, from, to, ":") {
            Some(TokenKind::TokenColon)
        } else if text_is(chars, from, to, ";") {
            Some(TokenKind::TokenSemicolon)
        } else if text_is(chars, from, to, "=") {
            Some(TokenKind::TokenAssign)
        } else if text_is(chars, from, to, "'") {
            Some(TokenKind::TokenSingleQuote)
        } else if text_is(chars, from, to, "\"") {
            Some(TokenKind::TokenDoubleQuote)
        } else if text_is(chars, from, to, "(") {
            Some(TokenKind::TokenOpenParen)
        } else if text_is(chars, from, to, ")") {
            Some(TokenKind::TokenCloseParen)
        } else if text_is(chars, from, to, "{") {
            Some(TokenKind::TokenOpenBrace)
        } else if text_is(chars, from, to, "}") {
            Some(TokenKind::TokenCloseBrace)
        } else if text_is(chars, from, to, "[") {
            Some(TokenKind::TokenOpenBracket)
        } else if text_is(chars, from, to, "]") {
            Some(TokenKind::TokenCloseBracket)
        } else if text_is(chars, from, to, "_") {
            Some(TokenKind::TokenUnderscore)
        } else if text_is(chars, from, to, ",") {
            Some(TokenKind::TokenComma)
        } else if text_is(chars, from, to, "+") {
            Some(TokenKind::TokenPlus)
        } else if text_is(chars, from, to, "-") {
            Some(TokenKind::TokenMinus)
        } else if text_is(chars, from, to, "*") {
            Some(TokenKind::TokenStar)
        } else if text_is(chars, from, to, "/") {
            Some(TokenKind::TokenSlash)
        } else if text_is(chars, from, to, ">") {
            Some(TokenKind::TokenGreater)
        } else if text_is(chars, from, to, "->") {
            Some(TokenKind::TokenRightArrow)
        } else if text_is(chars, from, to, "=>") {
            Some(TokenKind::TokenRightDoubleArrow)
        } else if text_is(chars, from, to, "++") {
            Some(TokenKind::TokenPlusPlus)
        } else if text_is(chars, from, to, "|") {
            Some(TokenKind::TokenPipe)
        } else {
            None
        }
    }

    fn match_number(chars: &Vec<char>, from: usize, to: usize) -> (kind: Option<TokenKind>)
        requires
            from <= to <= chars.len(),
        ensures
            kind == number_kind(chars@.subrange(from as int, to as int)),
    {
        let ghost lexeme = chars@.subrange(from as int, to as int);
        let mut digits = true;
        let mut point = false;
        let mut i: usize = from;
        while i < to
            invariant
                from <= i <= to <= chars.len(),
                lexeme == chars@.subrange(from as int, to as int),
                digits == all_digits(lexeme.subrange(0, i - from)),
                point == lexeme.subrange(0, i - from).contains('.'),
            decreases to - i,
        {
            let c = chars[i];
            proof {
                let before = lexeme.subrange(0, i - from);
                let after = lexeme.subrange(0, i - from + 1);
                assert(after == before.push(c));
                assert(after[i - from] == c);
                if all_digits(after) {
                    assert forall|k: int| 0 <= k < before.len() implies is_digit(
                        #[trigger] before[k],
                    ) by {
                        assert(before[k] == after[k]);
                    }
                }
                if before.contains('.') {
                    let k = choose|k: int| 0 <= k < before.len() && before[k] == '.';
                    assert(after[k] == '.');
                }
                if after.contains('.') && c != '.' {
                    let k = choose|k: int| 0 <= k < after.len() && after[k] == '.';
                    assert(before[k] == '.');
                }
            }
            if !is_ascii_digit(c) {
                digits = false;
            }
            if c == '.' {
                point = true;
            }
            i += 1;
        }
        assert(lexeme.subrange(0, to - from) == lexeme);
        if digits {
            Some(TokenKind::TokenLiteral(Literal::Int))
        } else if point {
            Some(TokenKind::TokenLiteral(Literal::Float))
        } else {
            None
        }
    }

    /// The kind of the token whose text is `chars[from..to]`.
    pub fn of_chars(chars: &Vec<char>, from: usize, to: usize) -> (kind: TokenKind)
        requires
            from <= to <= chars.len(),
        ensures
            kind == classify(chars@.subrange(from as int, to as int)),
    {
        if text_is(chars, from, to, "\n") {
            return TokenKind::TokenNewLine;
        }
        if text_is(chars, from, to, "\t") {
            return TokenKind::TokenTab;
        }
        if text_is(chars, from, to, " ") {
            return TokenKind::TokenSpace;
        }
        if let Some(keyword) = Self::match_keyword(chars, from, to) {
            return keyword;
        }
        if let Some(separator) = Self::match_separator(chars, from, to) {
            return separator;
        }
        if let Some(number) = Self::match_number(chars, from, to) {
            return number;
        }
        TokenKind::TokenIdentifier
    }
}

impl<'a> vstd::std_specs::convert::FromSpecImpl<&'a String> for TokenKind {
    open spec fn obeys_from_spec() -> bool {
        true
    }

    open spec fn from_spec(lexeme: &'a String) -> Self {
        classify(lexeme@)
    }
}

impl<'a> From<&'a String> for TokenKind {
    /// The kind of the token whose text is `lexeme`.
    fn from(lexeme: &'a String) -> (kind: TokenKind) {
        let chars = chars_of(lexeme.as_str());
        assert(chars@.subrange(0, chars@.len() as int) == chars@);
        TokenKind::of_chars(&chars, 0, chars.len())
    }
}

/// Where a token sits in its source file: a line, and a span of columns on it.
///
/// Lines and columns count characters and start at zero; `column_start` is
/// inclusive and `column_end` exclusive.
#[derive(Debug, PartialEq, Eq)]
pub struct TokenLocation {
    pub file_path: String,
    pub line: usize,
    pub column_start: usize,
    pub column_end: usize,
}

/// A [`TokenLocation`] as plain values.
pub struct LocationView {
    pub file_path: Seq<char>,
    pub line: nat,
    pub column_start: nat,
    pub column_end: nat,
}

impl LocationView {
    /// The first column of the next line.
    pub open spec fn advance_line(self) -> LocationView {
        LocationView { line: self.line + 1, column_start: 0, column_end: 0, ..self }
    }

    /// The same span, starting one column later.
    pub open spec fn advance_column_start(self) -> LocationView {
        LocationView { column_start: self.column_start + 1, ..self }
    }

    /// The same span, ending one column later.
    pub open spec fn advance_column_end(self) -> LocationView {
        LocationView { column_end: self.column_end + 1, ..self }
    }

    /// The same span, starting at `column_start`.
    pub open spec fn set_column_start(self, column_start: nat) -> LocationView {
        LocationView { column_start, ..self }
    }

    /// The empty span that begins where this one ends.
    pub open spec fn align(self) -> LocationView {
        self.set_column_start(self.column_end)
    }
}

impl View for TokenLocation {
    type V = LocationView;

    open spec fn view(&self) -> LocationView {
        LocationView {
            file_path: self.file_path@,
            line: self.line as nat,
            column_start: self.column_start as nat,
            column_end: self.column_end as nat,
        }
    }
}

impl Clone for TokenLocation {
    fn clone(&self) -> (copy: Self)
        ensures
            copy == *self,
    {
        TokenLocation {
            file_path: self.file_path.clone(),
            line: self.line,
            column_start: self.column_start,
            column_end: self.column_end,
        }
    }
}

impl TokenLocation {
    pub fn new(file_path: String, line: usize, column_start: usize, column_end: usize) -> (location:
        TokenLocation)
        ensures
            location == (TokenLocation { file_path, line, column_start, column_end }),
    {
        TokenLocation { file_path, line, column_start, column_end }
    }

    /// The line, counted from zero.
    pub fn line(&self) -> (line: usize)
        ensures
            line == self.line,
    {
        self.line
    }

    /// The first column of the span.
    pub fn column_start(&self) -> (column: usize)
        ensures
            column == self.column_start,
    {
        self.column_start
    }

    /// The column just past the span.
    pub fn column_end(&self) -> (column: usize)
        ensures
            column == self.column_end,
    {
        self.column_end
    }

    /// Moves to the first column of the next line.
    pub fn advance_line(&mut self)
        requires
            old(self).line < usize::MAX,
        ensures
            final(self)@ == old(self)@.advance_line(),
    {
        self.line += 1;
        self.column_start = 0;
        self.column_end = 0;
    }

    /// Moves the start of the span one column to the right.
    pub fn advance_column_start(&mut self)
        requires
            old(self).column_start < usize::MAX,
        ensures
            final(self)@ == old(self)@.advance_column_start(),
    {
        self.column_start += 1;
    }

    /// Moves the end of the span one column to the right.
    pub fn advance_column_end(&mut self)
        requires
            old(self).column_end < usize::MAX,
        ensures
            final(self)@ == old(self)@.advance_column_end(),
    {
        self.column_end += 1;
    }

    /// Sets the start of the span.
    pub fn set_column_start(&mut self, new_column_start: usize)
        ensures
            final(self)@ == old(self)@.set_column_start(new_column_start as nat),
    {
        self.column_start = new_column_start;
    }

    /// The same line and span in the file `file_path`.
    pub fn with_file_path(&self, file_path: &str) -> (location: TokenLocation)
        ensures
            location@ == (LocationView { file_path: file_path@, ..self@ }),
    {
        TokenLocation {
            file_path: file_path.to_owned(),
            line: self.line,
            column_start: self.column_start,
            column_end: self.column_end,
        }
    }

    /// The same span on line `line`.
    pub fn with_line(&self, line: usize) -> (location: TokenLocation)
        ensures
            location@ == (LocationView { line: line as nat, ..self@ }),
    {
        TokenLocation {
            file_path: self.file_path.clone(),
            line,
            column_start: self.column_start,
            column_end: self.column_end,
        }
    }

    /// The same location, with the span starting at `column_start`.
    pub fn with_column_start(&self, column_start: usize) -> (location: TokenLocation)
        ensures
            location@ == (LocationView { column_start: column_start as nat, ..self@ }),
    {
        TokenLocation {
            file_path: self.file_path.clone(),
            line: self.line,
            column_start,
            column_end: self.column_end,
        }
    }

    /// The same location, with the span ending at `column_end`.
    pub fn with_column_end(&self, column_end: usize) -> (location: TokenLocation)
        ensures
            location@ == (LocationView { column_end: column_end as nat, ..self@ }),
    {
        TokenLocation {
            file_path: self.file_path.clone(),
            line: self.line,
            column_start: self.column_start,
            column_end,
        }
    }
}

impl<'a> vstd::std_specs::convert::FromSpecImpl<&'a String> for TokenLocation {
    open spec fn obeys_from_spec() -> bool {
        true
    }

    open spec fn from_spec(file_path: &'a String) -> Self {
        TokenLocation { file_path: *file_path, line: 0, column_start: 0, column_end: 0 }
    }
}

impl<'a> From<&'a String> for TokenLocation {
    /// The start of the file `file_path`: line zero, an empty span at column zero.
    fn from(file_path: &'a String) -> (location: TokenLocation) {
        TokenLocation { file_path: file_path.clone(), line: 0, column_start: 0, column_end: 0 }
    }
}

/// A piece of source text with its kind and place.
#[derive(Debug, PartialEq, Eq)]
pub struct Token {
    /// What the token stands for.
    pub kind: TokenKind,
    /// The exact text the token covers; empty for the end-of-file token.
    pub lexeme: String,
    /// Where the text sits in the source.
    pub location: TokenLocation,
}

/// A [`Token`] as plain values.
pub struct TokenView {
    pub kind: TokenKind,
    pub lexeme: Seq<char>,
    pub location: LocationView,
}

impl View for Token {
    type V = TokenView;

    open spec fn view(&self) -> TokenView {
        TokenView { kind: self.kind, lexeme: self.lexeme@, location: self.location@ }
    }
}

impl Clone for Token {
    fn clone(&self) -> (copy: Self)
        ensures
            copy == *self,
    {
        Token { kind: self.kind, lexeme: self.lexeme.clone(), location: self.location.clone() }
    }
}

impl Token {
    pub fn new(kind: TokenKind, lexeme: String, location: TokenLocation) -> (token: Token)
        ensures
            token == (Token { kind, lexeme, location }),
    {
        Token { kind, lexeme, location }
    }
}

/// Whether `lexeme` begins with a character that is neither a digit nor a
/// decimal point.
spec fn starts_plain(lexeme: Seq<char>) -> bool {
    lexeme.len() > 0 && !is_digit(lexeme[0]) && lexeme[0] != '.'
}

/// No entry of the keyword and punctuation tables begins with a digit, and
/// the only one that begins with a decimal point is the point itself.
proof fn lemma_tables_start_plain(lexeme: Seq<char>)
    ensures
        lexeme == "\n"@ || lexeme == "\t"@ || lexeme == " "@ ==> starts_plain(lexeme),
        keyword_kind(lexeme) is Some ==> starts_plain(lexeme),
        separator_kind(lexeme) is Some ==> starts_plain(lexeme) || lexeme == seq!['.'],
{
    reveal_strlit("\n");
    reveal_strlit("\t");
    reveal_strlit(" ");
    reveal_strlit("true");
    reveal_strlit("false");
    reveal_strlit("unit");
    reveal_strlit("int");
    reveal_strlit("float");
    reveal_strlit("bool");
    reveal_strlit("str");
    reveal_strlit("match");
    reveal_strlit("if");
    reveal_strlit("then");
    reveal_strlit("else");
    reveal_strlit("data");
    reveal_strlit(".");
    reveal_strlit(":");
    reveal_strlit(";");
    reveal_strlit("=");
    reveal_strlit("'");
    reveal_strlit("\"");
    reveal_strlit("(");
    reveal_strlit(")");
    reveal_strlit("{");
    reveal_strlit("}");
    reveal_strlit("[");
    reveal_strlit("]");
    reveal_strlit("_");
    reveal_strlit(",");
    reveal_strlit("+");
    reveal_strlit("-");
    reveal_strlit("*");
    reveal_strlit("/");
    reveal_strlit(">");
    reveal_strlit("->");
    reveal_strlit("=>");
    reveal_strlit("++");
    reveal_strlit("|");
    if lexeme == "."@ {
        assert(lexeme =~= seq!['.']);
    }
}

/// A lexeme made of digits only is an integer literal.
pub proof fn lemma_digits_classify_as_int(lexeme: Seq<char>)
    requires
        all_digits(lexeme),
    ensures
        classify(lexeme) == TokenKind::TokenLiteral(Literal::Int),
{
    lemma_tables_start_plain(lexeme);
    if lexeme.len() > 0 {
        assert(is_digit(lexeme[0]));
    }
}

/// A lexeme made of digits and decimal points, with at least one of each, is
/// a float literal.
pub proof fn lemma_number_with_point_classifies_as_float(lexeme: Seq<char>)
    requires
        forall|i: int| 0 <= i < lexeme.len() ==> is_digit(#[trigger] lexeme[i]) || lexeme[i] == '.',
        lexeme.contains('.'),
        exists|i: int| 0 <= i < lexeme.len() && is_digit(#[trigger] lexeme[i]),
    ensures
        classify(lexeme) == TokenKind::TokenLiteral(Literal::Float),
{
    lemma_tables_start_plain(lexeme);
    assert(is_digit(lexeme[0]) || lexeme[0] == '.');
    let d = choose|i: int| 0 <= i < lexeme.len() && is_digit(#[trigger] lexeme[i]);
    let p = choose|i: int| 0 <= i < lexeme.len() && lexeme[i] == '.';
    assert(lexeme[p] == '.');
    assert(!is_digit(lexeme[p]));
    assert(!all_digits(lexeme));
    if lexeme == seq!['.'] {
        assert(lexeme[d] == '.');
    }
}

/// The tokens of `tokens` as plain values, in the same order.
pub open spec fn token_views(tokens: Seq<Token>) -> Seq<TokenView> {
    Seq::new(tokens.len(), |i: int| tokens[i]@)
}

} // verus!
