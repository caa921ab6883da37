//! The lexer: one pass over the characters of a source text, left to right,
//! producing the tokens the parser consumes.

use vstd::prelude::*;
use vstd::string::*;
use crate::parser::numeral::all_digits;
use crate::parser::numeral::is_number;
use crate::parser::numeral::numerals;
use crate::tokens::Token;
use crate::tokens::token_views;
use crate::tokens::TokenType;
use crate::tokens::TokenView;

verus! {

/// A decimal digit.
pub open spec fn is_digit(c: char) -> bool {
    '0' <= c <= '9'
}

/// A letter of the Latin alphabet, either case.
pub open spec fn is_letter(c: char) -> bool {
    ('a' <= c <= 'z') || ('A' <= c <= 'Z')
}

/// The number of consecutive digits of `text` from `pos` on.
pub open spec fn digit_run(text: Seq<char>, pos: int) -> nat
    decreases text.len() - pos,
{
    if 0 <= pos < text.len() && is_digit(text[pos]) {
        1 + digit_run(text, pos + 1)
    } else {
        0
    }
}

/// The number of consecutive letters and digits of `text` from `pos` on.
pub open spec fn word_run(text: Seq<char>, pos: int) -> nat
    decreases text.len() - pos,
{
    if 0 <= pos < text.len() && (is_letter(text[pos]) || is_digit(text[pos])) {
        1 + word_run(text, pos + 1)
    } else {
        0
    }
}

/// A run of digits ends within the text.
pub proof fn lemma_digit_run_bound(text: Seq<char>, pos: int)
    requires
        0 <= pos <= text.len(),
    ensures
        pos + digit_run(text, pos) <= text.len(),
        forall|i: int| pos <= i < pos + digit_run(text, pos) ==> is_digit(#[trigger] text[i]),
        pos + digit_run(text, pos) < text.len() ==> !is_digit(text[pos + digit_run(text, pos)]),
    decreases text.len() - pos,
{
    if pos < text.len() && is_digit(text[pos]) {
        lemma_digit_run_bound(text, pos + 1);
    }
}

/// A run of letters and digits ends within the text.
pub proof fn lemma_word_run_bound(text: Seq<char>, pos: int)
    requires
        0 <= pos <= text.len(),
    ensures
        pos + word_run(text, pos) <= text.len(),
        forall|i: int|
            pos <= i < pos + word_run(text, pos) ==> is_letter(#[trigger] text[i]) || is_digit(
                text[i],
            ),
        pos + word_run(text, pos) < text.len() ==> {
            let c = text[pos + word_run(text, pos)];
            !is_letter(c) && !is_digit(c)
        },
    decreases text.len() - pos,
{
    if pos < text.len() && (is_letter(text[pos]) || is_digit(text[pos])) {
        lemma_word_run_bound(text, pos + 1);
    }
}

/// Where the number that starts at `pos` ends: after its digits and, if a
/// decimal point follows them directly, after the point and the digits
/// behind it.
pub open spec fn number_end(text: Seq<char>, pos: int) -> int {
    let whole = pos + digit_run(text, pos);
    if whole < text.len() && text[whole] == '.' {
        whole + 1 + digit_run(text, whole + 1)
    } else {
        whole
    }
}

/// Where the word that starts at `pos` ends.
pub open spec fn word_end(text: Seq<char>, pos: int) -> int {
    pos + word_run(text, pos)
}

/// A number that starts with a digit is not empty and ends within the text.
pub proof fn lemma_number_end_bound(text: Seq<char>, pos: int)
    requires
        0 <= pos < text.len(),
        is_digit(text[pos]),
    ensures
        pos < number_end(text, pos) <= text.len(),
{
    lemma_digit_run_bound(text, pos);
    let whole = pos + digit_run(text, pos);
    if whole < text.len() {
        lemma_digit_run_bound(text, whole + 1);
    }
}

/// A word that starts with a letter is not empty and ends within the text.
pub proof fn lemma_word_end_bound(text: Seq<char>, pos: int)
    requires
        0 <= pos < text.len(),
        is_letter(text[pos]),
    ensures
        pos < word_end(text, pos) <= text.len(),
{
    lemma_word_run_bound(text, pos);
}

/// The kind of token a word stands for: a reserved word's own kind, or an
/// identifier.
pub open spec fn word_kind(word: Seq<char>) -> TokenType {
    if word == "let"@ {
        TokenType::TOKEN_LET
    } else if word == "print"@ {
        TokenType::TOKEN_PRINT
    } else if word == "newline"@ {
        TokenType::TOKEN_NEWLINE
    } else if word == "identity"@ {
        TokenType::TOKEN_IDENTITY
    } else if word == "ref"@ {
        TokenType::TOKEN_REF
    } else if word == "rref"@ {
        TokenType::TOKEN_RREF
    } else if word == "inverse"@ {
        TokenType::TOKEN_INVERSE
    } else {
        TokenType::TOKEN_IDENTIFIER
    }
}

/// The kind of the operator or punctuation mark that `c` is by itself, if
/// it is one.
pub open spec fn symbol_kind(c: char) -> Option<TokenType> {
    if c == '+' {
        Some(TokenType::TOKEN_PLUS)
    } else if c == '-' {
        Some(TokenType::TOKEN_MINUS)
    } else if c == '*' {
        Some(TokenType::TOKEN_STAR)
    } else if c == '/' {
        Some(TokenType::TOKEN_SLASH)
    } else if c == '^' {
        Some(TokenType::TOKEN_CARET)
    } else if c == '\'' {
        Some(TokenType::TOKEN_TRANSPOSE)
    } else if c == '=' {
        Some(TokenType::TOKEN_EQUAL)
    } else if c == '!' {
        Some(TokenType::TOKEN_BANG)
    } else if c == '<' {
        Some(TokenType::TOKEN_LESS)
    } else if c == '>' {
        Some(TokenType::TOKEN_GREATER)
    } else if c == '(' {
        Some(TokenType::TOKEN_LEFT_PAREN)
    } else if c == ')' {
        Some(TokenType::TOKEN_RIGHT_PAREN)
    } else if c == '{' {
        Some(TokenType::TOKEN_LEFT_BRACE)
    } else if c == '}' {
        Some(TokenType::TOKEN_RIGHT_BRACE)
    } else if c == '[' {
        Some(TokenType::TOKEN_LEFT_BRACKET)
    } else if c == ']' {
        Some(TokenType::TOKEN_RIGHT_BRACKET)
    } else if c == ',' {
        Some(TokenType::TOKEN_COMMA)
    } else if c == '.' {
        Some(TokenType::TOKEN_DOT)
    } else if c == ';' {
        Some(TokenType::TOKEN_SEMICOLON)
    } else if c == '|' {
        Some(TokenType::TOKEN_PIPE)
    } else {
        None
    }
}

/// The kind of the two-character operator made of `c` and `=`, if there
/// is one.
pub open spec fn pair_kind(c: char) -> Option<TokenType> {
    if c == '=' {
        Some(TokenType::TOKEN_EQUAL_EQUAL)
    } else if c == '!' {
        Some(TokenType::TOKEN_BANG_EQUAL)
    } else if c == '<' {
        Some(TokenType::TOKEN_LESS_EQUAL)
    } else if c == '>' {
        Some(TokenType::TOKEN_GREATER_EQUAL)
    } else {
        None
    }
}

/// Characters that separate tokens and are dropped.
pub open spec fn is_blank(c: char) -> bool {
    c == ' ' || c == '\t' || c == '\r'
}

/// The message an error token carries for a character that starts no token.
pub open spec fn unknown_message(c: char) -> Seq<char> {
    "Unknown token: "@.push(c)
}

/// The tokens of `text` from position `pos` on, where `line` is the line
/// that `pos` stands on.  The last token is always the end-of-input token.
pub open spec fn scan_from(text: Seq<char>, pos: int, line: nat) -> Seq<TokenView>
    decreases text.len() - pos,
{
    if pos < 0 || pos >= text.len() {
        seq![TokenView { token_type: TokenType::TOKEN_EOF, lexeme: Seq::empty(), line }]
    } else {
        let c = text[pos];
        if is_digit(c) {
            let end = number_end(text, pos);
            proof {
                lemma_number_end_bound(text, pos);
            }
            seq![
                TokenView {
                    token_type: TokenType::TOKEN_NUMBER,
                    lexeme: text.subrange(pos, end),
                    line,
                },
            ] + scan_from(text, end, line)
        } else if is_letter(c) {
            let end = word_end(text, pos);
            proof {
                lemma_word_end_bound(text, pos);
            }
            let word = text.subrange(pos, end);
            seq![TokenView { token_type: word_kind(word), lexeme: word, line }] + scan_from(
                text,
                end,
                line,
            )
        } else if c == '\n' {
            scan_from(text, pos + 1, line + 1)
        } else if is_blank(c) {
            scan_from(text, pos + 1, line)
        } else if pair_kind(c) is Some && pos + 1 < text.len() && text[pos + 1] == '=' {
            seq![
                TokenView {
                    token_type: pair_kind(c)->Some_0,
                    lexeme: text.subrange(pos, pos + 2),
                    line,
                },
            ] + scan_from(text, pos + 2, line)
        } else if symbol_kind(c) is Some {
            seq![
                TokenView {
                    token_type: symbol_kind(c)->Some_0,
                    lexeme: text.subrange(pos, pos + 1),
                    line,
                },
            ] + scan_from(text, pos + 1, line)
        } else {
            seq![
                TokenView {
                    token_type: TokenType::TOKEN_ERROR,
                    lexeme: unknown_message(c),
                    line,
                },
            ] + scan_from(text, pos + 1, line)
        }
    }
}

/// The tokens of a whole text: scanning starts at its first character, on
/// line 1.
pub open spec fn scan(text: Seq<char>) -> Seq<TokenView> {
    scan_from(text, 0, 1)
}

/// Every scan ends with the end-of-input token, and holds no other one.
pub proof fn lemma_scan_ends(text: Seq<char>, pos: int, line: nat)
    ensures
        scan_from(text, pos, line).len() >= 1,
        scan_from(text, pos, line).last().token_type == TokenType::TOKEN_EOF,
        forall|i: int|
            0 <= i < scan_from(text, pos, line).len() - 1 ==> (#[trigger] scan_from(
                text,
                pos,
                line,
            )[i]).token_type != TokenType::TOKEN_EOF,
    decreases text.len() - pos,
{
    if pos < 0 || pos >= text.len() {
    } else {
        let c = text[pos];
        if is_digit(c) {
            lemma_number_end_bound(text, pos);
            lemma_scan_ends(text, number_end(text, pos), line);
        } else if is_letter(c) {
            lemma_word_end_bound(text, pos);
            lemma_scan_ends(text, word_end(text, pos), line);
        } else if c == '\n' {
            lemma_scan_ends(text, pos + 1, line + 1);
        } else if is_blank(c) {
            lemma_scan_ends(text, pos + 1, line);
        } else if pair_kind(c) is Some && pos + 1 < text.len() && text[pos + 1] == '=' {
            lemma_scan_ends(text, pos + 2, line);
        } else {
            lemma_scan_ends(text, pos + 1, line);
        }
    }
}

/// A run of digits is as long as the digits that stand there.
pub proof fn lemma_digit_run_is(text: Seq<char>, pos: int, n: nat)
    requires
        0 <= pos,
        pos + n <= text.len(),
        forall|i: int| pos <= i < pos + n ==> is_digit(#[trigger] text[i]),
        pos + n < text.len() ==> !is_digit(text[pos + n]),
    ensures
        digit_run(text, pos) == n,
    decreases n,
{
    if n > 0 {
        assert(is_digit(text[pos]));
        lemma_digit_run_is(text, pos + 1, (n - 1) as nat);
    }
}

/// The text of a number that the lexer cuts out is a number as it is
/// written: digits, at least one, and behind them at most a decimal point
/// and more digits.
pub proof fn lemma_number_is_number(text: Seq<char>, pos: int)
    requires
        0 <= pos < text.len(),
        is_digit(text[pos]),
    ensures
        is_number(text.subrange(pos, number_end(text, pos))),
{
    lemma_number_end_bound(text, pos);
    lemma_digit_run_bound(text, pos);
    let whole = digit_run(text, pos) as int;
    let end = number_end(text, pos);
    let cut = text.subrange(pos, end);
    if pos + whole < text.len() {
        lemma_digit_run_bound(text, pos + whole + 1);
    }
    assert forall|i: int| 0 <= i < whole implies is_digit(#[trigger] cut[i]) by {
        assert(cut[i] == text[pos + i]);
    }
    if whole < cut.len() {
        assert(cut[whole] == text[pos + whole]);
    }
    lemma_digit_run_is(cut, 0, whole as nat);
    if whole < cut.len() {
        let rest = cut.subrange(whole + 1, cut.len() as int);
        assert forall|i: int| 0 <= i < rest.len() implies is_digit(#[trigger] rest[i]) by {
            assert(rest[i] == text[pos + whole + 1 + i]);
        }
        assert(all_digits(rest));
    }
}

/// Every number token of a scan holds a number as it is written.
pub proof fn lemma_scan_numbers(text: Seq<char>, pos: int, line: nat)
    ensures
        forall|i: int|
            0 <= i < scan_from(text, pos, line).len() && (#[trigger] scan_from(
                text,
                pos,
                line,
            )[i]).token_type == TokenType::TOKEN_NUMBER ==> is_number(
                scan_from(text, pos, line)[i].lexeme,
            ),
    decreases text.len() - pos,
{
    if pos < 0 || pos >= text.len() {
    } else {
        let c = text[pos];
        if is_digit(c) {
            lemma_number_end_bound(text, pos);
            lemma_number_is_number(text, pos);
            lemma_scan_numbers(text, number_end(text, pos), line);
        } else if is_letter(c) {
            lemma_word_end_bound(text, pos);
            lemma_scan_numbers(text, word_end(text, pos), line);
        } else if c == '\n' {
            lemma_scan_numbers(text, pos + 1, line + 1);
        } else if is_blank(c) {
            lemma_scan_numbers(text, pos + 1, line);
        } else if pair_kind(c) is Some && pos + 1 < text.len() && text[pos + 1] == '=' {
            lemma_scan_numbers(text, pos + 2, line);
        } else {
            lemma_scan_numbers(text, pos + 1, line);
        }
    }
}

/// The views of tokens with one more token behind them are the views of
/// the tokens with the view of that token behind them.
proof fn lemma_views_push(tokens: Seq<Token>, token: Token)
    ensures
        token_views(tokens.push(token)) == token_views(tokens).push(token@),
{
    assert(token_views(tokens.push(token)) =~= token_views(tokens).push(token@));
}

fn digit(c: char) -> (b: bool)
    ensures
        b == is_digit(c),
{
    '0' <= c && c <= '9'
}

fn letter(c: char) -> (b: bool)
    ensures
        b == is_letter(c),
{
    ('a' <= c && c <= 'z') || ('A' <= c && c <= 'Z')
}

/// The kind of the token a word stands for.
fn classify_word(word: &String) -> (kind: TokenType)
    ensures
        kind == word_kind(word@),
{
    if *word == String::from_str("let") {
        TokenType::TOKEN_LET
    } else if *word == String::from_str("print") {
        TokenType::TOKEN_PRINT
    } else if *word == String::from_str("newline") {
        TokenType::TOKEN_NEWLINE
    } else if *word == String::from_str("identity") {
        TokenType::TOKEN_IDENTITY
    } else if *word == String::from_str("ref") {
        TokenType::TOKEN_REF
    } else if *word == String::from_str("rref") {
        TokenType::TOKEN_RREF
    } else if *word == String::from_str("inverse") {
        TokenType::TOKEN_INVERSE
    } else {
        TokenType::TOKEN_IDENTIFIER
    }
}

/// A lexer over one source text.
pub struct Lexer {
    pub content: String,
}

impl Lexer {
    /// Reads the number that starts at `start`, appends its token and
    /// returns the position after it.
    fn number(&self, start: usize, line: usize, tokens: &mut Vec<Token>) -> (end: usize)
        requires
            start < self.content@.len() <= usize::MAX,
            is_digit(self.content@[start as int]),
        ensures
            end == number_end(self.content@, start as int),
            start < end <= self.content@.len(),
            final(tokens)@.len() == old(tokens)@.len() + 1,
            final(tokens)@ == old(tokens)@.push(final(tokens)@.last()),
            final(tokens)@.last()@ == (TokenView {
                token_type: TokenType::TOKEN_NUMBER,
                lexeme: self.content@.subrange(start as int, end as int),
                line: line as nat,
            }),
    {
        let text = self.content.as_str();
        let len = text.unicode_len();
        let mut i: usize = start;
        while i < len && digit(text.get_char(i))
            invariant
                start <= i <= len,
                len == text@.len(),
                text@ == self.content@,
                i - start <= digit_run(text@, start as int),
                digit_run(text@, start as int) == (i - start) + digit_run(text@, i as int),
            decreases len - i,
        {
            i += 1;
        }
        if i < len && text.get_char(i) == '.' {
            i += 1;
            let ghost from = i;
            while i < len && digit(text.get_char(i))
                invariant
                    from <= i <= len,
                    len == text@.len(),
                    text@ == self.content@,
                    digit_run(text@, from as int) == (i - from) + digit_run(text@, i as int),
                decreases len - i,
            {
                i += 1;
            }
        }
        let lexeme = text.substring_char(start, i).to_owned();
        tokens.push(Token::new(TokenType::TOKEN_NUMBER, lexeme, line));
        i
    }

    /// Reads the word that starts at `start`, appends its token (a reserved
    /// word's own kind, or an identifier) and returns the position after it.
    fn identifier(&self, start: usize, line: usize, tokens: &mut Vec<Token>) -> (end: usize)
        requires
            start < self.content@.len() <= usize::MAX,
            is_letter(self.content@[start as int]),
        ensures
            end == word_end(self.content@, start as int),
            start < end <= self.content@.len(),
            final(tokens)@.len() == old(tokens)@.len() + 1,
            final(tokens)@ == old(tokens)@.push(final(tokens)@.last()),
            final(tokens)@.last()@ == (TokenView {
                token_type: word_kind(self.content@.subrange(start as int, end as int)),
                lexeme: self.content@.subrange(start as int, end as int),
                line: line as nat,
            }),
    {
        let text = self.content.as_str();
        let len = text.unicode_len();
        let mut i: usize = start;
        while i < len && (letter(text.get_char(i)) || digit(text.get_char(i)))
            invariant
                start <= i <= len,
                len == text@.len(),
                text@ == self.content@,
                word_run(text@, start as int) == (i - start) + word_run(text@, i as int),
            decreases len - i,
        {
            i += 1;
        }
        let lexeme = text.substring_char(start, i).to_owned();
        let kind = classify_word(&lexeme);
        tokens.push(Token::new(kind, lexeme, line));
        i
    }

    /// A lexer over `content`.
    pub fn new(content: String) -> (lexer: Self)
        ensures
            lexer.content == content,
    {
        Lexer { content }
    }

    /// A lexer over the empty text.
    pub fn new_empty() -> (lexer: Self)
        ensures
            lexer.content@ == Seq::<char>::empty(),
    {
        Lexer { content: String::new() }
    }

    /// The tokens of the text, in order, ending with the end-of-input token.
    /// A character that starts no token gives an error token, and scanning
    /// goes on behind it.  Every number token holds a number as it is
    /// written.
    pub fn scan_tokens(&self) -> (tokens: Vec<Token>)
        requires
            self.content@.len() < usize::MAX,
        ensures
            token_views(tokens@) == scan(self.content@),
            tokens@.len() >= 1,
            tokens@.last().token_type == TokenType::TOKEN_EOF,
            numerals(token_views(tokens@)),
    {
        let text = self.content.as_str();
        let len = text.unicode_len();
        let mut tokens: Vec<Token> = Vec::new();
        let mut line: usize = 1;
        let mut index: usize = 0;
        assert(token_views(tokens@) =~= Seq::<TokenView>::empty());
        while index < len
            invariant
                index <= len,
                len == text@.len(),
                len < usize::MAX,
                text@ == self.content@,
                1 <= line <= index + 1,
                token_views(tokens@) + scan_from(text@, index as int, line as nat) == scan(text@),
            decreases len - index,
        {
            let c = text.get_char(index);
            let ghost before = tokens@;
            let ghost rest = scan_from(text@, index as int, line as nat);
            if digit(c) {
                index = self.number(index, line, &mut tokens);
            } else if letter(c) {
                index = self.identifier(index, line, &mut tokens);
            } else if c == '\n' {
                line += 1;
                index += 1;
            } else if c == ' ' || c == '\t' || c == '\r' {
                index += 1;
            } else {
                let followed = index + 1 < len && text.get_char(index + 1) == '=';
                let pair = pair_of(c);
                if followed && pair.is_some() {
                    let lexeme = text.substring_char(index, index + 2).to_owned();
                    tokens.push(Token::new(pair.unwrap(), lexeme, line));
                    index += 2;
                } else {
                    match symbol_of(c) {
                        Some(kind) => {
                            let lexeme = text.substring_char(index, index + 1).to_owned();
                            tokens.push(Token::new(kind, lexeme, line));
                        },
                        None => {
                            let message = String::from_str("Unknown token: ").concat(
                                text.substring_char(index, index + 1),
                            );
                            proof {
                                assert(message@ =~= unknown_message(c));
                            }
                            tokens.push(Token::new(TokenType::TOKEN_ERROR, message, line));
                        },
                    }
                    index += 1;
                }
            }
            proof {
                if tokens@.len() > before.len() {
                    lemma_views_push(before, tokens@.last());
                    assert(token_views(tokens@) + scan_from(text@, index as int, line as nat)
                        =~= token_views(before) + rest);
                }
            }
        }
        tokens.push(Token::new(TokenType::TOKEN_EOF, String::new(), line));
        proof {
            let all = tokens@;
            lemma_views_push(all.drop_last(), all.last());
            assert(all.drop_last().push(all.last()) =~= all);
            lemma_scan_ends(text@, 0, 1);
            lemma_scan_numbers(text@, 0, 1);
        }
        tokens
    }
}

/// The kind of the operator or punctuation mark that `c` is by itself.
fn symbol_of(c: char) -> (kind: Option<TokenType>)
    ensures
        kind == symbol_kind(c),
{
    if c == '+' {
        Some(TokenType::TOKEN_PLUS)
    } else if c == '-' {
        Some(TokenType::TOKEN_MINUS)
    } else if c == '*' {
        Some(TokenType::TOKEN_STAR)
    } else if c == '/' {
        Some(TokenType::TOKEN_SLASH)
    } else if c == '^' {
        Some(TokenType::TOKEN_CARET)
    } else if c == '\'' {
        Some(TokenType::TOKEN_TRANSPOSE)
    } else if c == '=' {
        Some(TokenType::TOKEN_EQUAL)
    } else if c == '!' {
        Some(TokenType::TOKEN_BANG)
    } else if c == '<' {
        Some(TokenType::TOKEN_LESS)
    } else if c == '>' {
        Some(TokenType::TOKEN_GREATER)
    } else if c == '(' {
        Some(TokenType::TOKEN_LEFT_PAREN)
    } else if c == ')' {
        Some(TokenType::TOKEN_RIGHT_PAREN)
    } else if c == '{' {
        Some(TokenType::TOKEN_LEFT_BRACE)
    } else if c == '}' {
        Some(TokenType::TOKEN_RIGHT_BRACE)
    } else if c == '[' {
        Some(TokenType::TOKEN_LEFT_BRACKET)
    } else if c == ']' {
        Some(TokenType::TOKEN_RIGHT_BRACKET)
    } else if c == ',' {
        Some(TokenType::TOKEN_COMMA)
    } else if c == '.' {
        Some(TokenType::TOKEN_DOT)
    } else if c == ';' {
        Some(TokenType::TOKEN_SEMICOLON)
    } else if c == '|' {
        Some(TokenType::TOKEN_PIPE)
    } else {
        None
    }
}

/// The kind of the two-character operator made of `c` and `=`.
fn pair_of(c: char) -> (kind: Option<TokenType>)
    ensures
        kind == pair_kind(c),
{
    if c == '=' {
        Some(TokenType::TOKEN_EQUAL_EQUAL)
    } else if c == '!' {
        Some(TokenType::TOKEN_BANG_EQUAL)
    } else if c == '<' {
        Some(TokenType::TOKEN_LESS_EQUAL)
    } else if c == '>' {
        Some(TokenType::TOKEN_GREATER_EQUAL)
    } else {
        None
    }
}

} // verus!
