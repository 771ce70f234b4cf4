use vstd::prelude::*;
use vstd::string::*;
use crate::number::{decimal_literal, digit, is_decimal_literal, is_digit};
use crate::text::{chars_of, string_of};

verus! {

/// One lexical unit of a document.
///
/// A `Number` holds the literal's text, which is always a decimal literal
/// of the 64-bit float grammar; a `Str` holds the text with its escapes
/// already resolved.
#[derive(Debug, PartialEq, Clone)]
pub enum Token {
    LeftBrace,
    RightBrace,
    LeftBracket,
    RightBracket,
    Quote,
    Comma,
    Colon,
    Str(String),
    Number(String),
    Bool(bool),
    Null,
    Eof,
}

/// What a `Token` stands for in contracts.
pub enum TokenView {
    LeftBrace,
    RightBrace,
    LeftBracket,
    RightBracket,
    Quote,
    Comma,
    Colon,
    Str(Seq<char>),
    Number(Seq<char>),
    Bool(bool),
    Null,
    Eof,
}

impl View for Token {
    type V = TokenView;

    open spec fn view(&self) -> TokenView {
        match *self {
            Token::LeftBrace => TokenView::LeftBrace,
            Token::RightBrace => TokenView::RightBrace,
            Token::LeftBracket => TokenView::LeftBracket,
            Token::RightBracket => TokenView::RightBracket,
            Token::Quote => TokenView::Quote,
            Token::Comma => TokenView::Comma,
            Token::Colon => TokenView::Colon,
            Token::Str(s) => TokenView::Str(s@),
            Token::Number(s) => TokenView::Number(s@),
            Token::Bool(b) => TokenView::Bool(b),
            Token::Null => TokenView::Null,
            Token::Eof => TokenView::Eof,
        }
    }
}

/// The views of a run of tokens, in order.
pub open spec fn token_views(tokens: Seq<Token>) -> Seq<TokenView> {
    tokens.map_values(|t: Token| t@)
}

/// Whether `c` has the Unicode property Alphabetic.
pub uninterp spec fn char_is_alphabetic(c: char) -> bool;

/// `char::is_alphabetic` tells whether the character has the Unicode
/// property Alphabetic; nothing more is claimed of it than that the answer
/// depends on the character alone.
pub assume_specification[ char::is_alphabetic ](c: char) -> (r: bool)
    ensures
        r == char_is_alphabetic(c),
;

/// A character that continues a number: a digit, `e`, `E`, a sign or a point.
pub open spec fn is_number_char(c: char) -> bool {
    is_digit(c) || c == 'e' || c == 'E' || c == '-' || c == '+' || c == '.'
}

/// How many alphabetic characters stand in `s` from index `i` on, without a gap.
pub open spec fn alpha_run_len(s: Seq<char>, i: int) -> nat
    decreases s.len() - i,
{
    if 0 <= i < s.len() && char_is_alphabetic(s[i]) {
        1 + alpha_run_len(s, i + 1)
    } else {
        0
    }
}

/// How many number characters stand in `s` from index `i` on, without a gap.
pub open spec fn number_run_len(s: Seq<char>, i: int) -> nat
    decreases s.len() - i,
{
    if 0 <= i < s.len() && is_number_char(s[i]) {
        1 + number_run_len(s, i + 1)
    } else {
        0
    }
}

/// What the character after a backslash contributes to a string: the
/// character it stands for, or nothing where the code is not a known one.
pub open spec fn escape_code(c: char) -> Seq<char> {
    if c == '"' {
        seq!['"']
    } else if c == '\\' {
        seq!['\\']
    } else if c == '/' {
        seq!['/']
    } else if c == 'b' {
        seq!['\u{0008}']
    } else if c == 'f' {
        seq!['\u{000c}']
    } else if c == 'n' {
        seq!['\u{000a}']
    } else if c == 'r' {
        seq!['\u{000d}']
    } else if c == 't' {
        seq!['\u{0009}']
    } else {
        Seq::empty()
    }
}

/// The rest of a string's text from index `i` on, and how many characters
/// of `s` it takes up. The text ends before the first quote that no
/// backslash precedes, or with `s`. `escaped` says that the character
/// before `i` was a backslash that is still to be resolved.
pub open spec fn text_run(s: Seq<char>, i: int, escaped: bool) -> (Seq<char>, nat)
    decreases s.len() - i,
{
    if i < 0 || i >= s.len() {
        (Seq::empty(), 0)
    } else if escaped {
        let rest = text_run(s, i + 1, false);
        (escape_code(s[i]) + rest.0, rest.1 + 1)
    } else if s[i] == '"' {
        (Seq::empty(), 0)
    } else if s[i] == '\\' {
        let rest = text_run(s, i + 1, true);
        (rest.0, rest.1 + 1)
    } else {
        let rest = text_run(s, i + 1, false);
        (seq![s[i]] + rest.0, rest.1 + 1)
    }
}

/// The string text that begins with the character at index `i`, and how
/// many characters after that one it takes up. The first character is
/// taken whatever it is, but a backslash, which opens an escape.
pub open spec fn text_at(s: Seq<char>, i: int) -> (Seq<char>, nat) {
    if s[i] == '\\' {
        text_run(s, i + 1, true)
    } else {
        let rest = text_run(s, i + 1, false);
        (seq![s[i]] + rest.0, rest.1)
    }
}

/// The character at index `i` and the alphabetic characters that follow it.
pub open spec fn word_at(s: Seq<char>, i: int) -> Seq<char> {
    s.subrange(i, i + 1 + alpha_run_len(s, i + 1))
}

/// The character at index `i` and the number characters that follow it.
pub open spec fn number_at(s: Seq<char>, i: int) -> Seq<char> {
    s.subrange(i, i + 1 + number_run_len(s, i + 1))
}

/// The token that a word is, where it is one of the keywords `true`,
/// `false` and `null`.
pub open spec fn keyword(word: Seq<char>) -> Option<TokenView> {
    if word == seq!['t', 'r', 'u', 'e'] {
        Some(TokenView::Bool(true))
    } else if word == seq!['f', 'a', 'l', 's', 'e'] {
        Some(TokenView::Bool(false))
    } else if word == seq!['n', 'u', 'l', 'l'] {
        Some(TokenView::Null)
    } else {
        None
    }
}

/// One step of the scan with the cursor on index `i`: the tokens it
/// emits (one or none), the index the cursor moves to, and the string
/// mode after it.
pub open spec fn lex_step(s: Seq<char>, i: int, in_string: bool) -> (Seq<TokenView>, int, bool) {
    let c = s[i];
    if in_string && c != '"' {
        let run = text_at(s, i);
        (seq![TokenView::Str(run.0)], i + 1 + run.1, in_string)
    } else if c == '{' {
        (seq![TokenView::LeftBrace], i + 1, in_string)
    } else if c == '}' {
        (seq![TokenView::RightBrace], i + 1, in_string)
    } else if c == '[' {
        (seq![TokenView::LeftBracket], i + 1, in_string)
    } else if c == ']' {
        (seq![TokenView::RightBracket], i + 1, in_string)
    } else if c == '"' {
        (seq![TokenView::Quote], i + 1, !in_string)
    } else if c == ',' {
        (seq![TokenView::Comma], i + 1, in_string)
    } else if c == ':' {
        (seq![TokenView::Colon], i + 1, in_string)
    } else if is_digit(c) || c == '-' {
        let lexeme = number_at(s, i);
        (
            if is_decimal_literal(lexeme) {
                seq![TokenView::Number(lexeme)]
            } else {
                Seq::empty()
            },
            i + 1 + number_run_len(s, i + 1),
            in_string,
        )
    } else if c == 't' || c == 'f' || c == 'n' {
        (
            match keyword(word_at(s, i)) {
                Some(token) => seq![token],
                None => Seq::empty(),
            },
            i + 1 + alpha_run_len(s, i + 1),
            in_string,
        )
    } else {
        (Seq::empty(), i + 1, in_string)
    }
}

/// What is left to scan with the cursor on index `i`.
pub open spec fn chars_left(s: Seq<char>, i: int) -> nat {
    if 0 <= i < s.len() {
        (s.len() - i) as nat
    } else {
        0
    }
}

/// The tokens of `s` from index `i` on, scanned in the given string mode,
/// with the end marker behind them.
pub open spec fn tokens_from(s: Seq<char>, i: int, in_string: bool) -> Seq<TokenView>
    decreases chars_left(s, i),
{
    if 0 <= i < s.len() {
        let step = lex_step(s, i, in_string);
        step.0 + tokens_from(s, step.1, step.2)
    } else {
        seq![TokenView::Eof]
    }
}

/// The string mode in which the scan of `s` from index `i` on ends.
pub open spec fn mode_after(s: Seq<char>, i: int, in_string: bool) -> bool
    decreases chars_left(s, i),
{
    if 0 <= i < s.len() {
        let step = lex_step(s, i, in_string);
        mode_after(s, step.1, step.2)
    } else {
        in_string
    }
}

/// The tokens of the whole document `s`.
pub open spec fn tokens_of(s: Seq<char>) -> Seq<TokenView> {
    tokens_from(s, 0, false)
}

/// A run of alphabetic characters ends inside `s`.
pub proof fn lemma_alpha_run_bound(s: Seq<char>, i: int)
    requires
        0 <= i <= s.len(),
    ensures
        i + alpha_run_len(s, i) <= s.len(),
    decreases s.len() - i,
{
    if i < s.len() && char_is_alphabetic(s[i]) {
        lemma_alpha_run_bound(s, i + 1);
    }
}

/// A run of number characters ends inside `s`.
pub proof fn lemma_number_run_bound(s: Seq<char>, i: int)
    requires
        0 <= i <= s.len(),
    ensures
        i + number_run_len(s, i) <= s.len(),
    decreases s.len() - i,
{
    if i < s.len() && is_number_char(s[i]) {
        lemma_number_run_bound(s, i + 1);
    }
}

/// A string's text ends inside `s`.
pub proof fn lemma_text_run_bound(s: Seq<char>, i: int, escaped: bool)
    requires
        0 <= i <= s.len(),
    ensures
        i + text_run(s, i, escaped).1 <= s.len(),
    decreases s.len() - i,
{
    if i < s.len() {
        if escaped {
            lemma_text_run_bound(s, i + 1, false);
        } else if s[i] == '"' {
        } else if s[i] == '\\' {
            lemma_text_run_bound(s, i + 1, true);
        } else {
            lemma_text_run_bound(s, i + 1, false);
        }
    }
}

/// Every scan ends with the end marker: the tokens are never empty, and
/// the last of them is the marker.
pub proof fn lemma_tokens_end_with_marker(s: Seq<char>, i: int, in_string: bool)
    ensures
        tokens_from(s, i, in_string).len() >= 1,
        tokens_from(s, i, in_string).last() == TokenView::Eof,
    decreases chars_left(s, i),
{
    if 0 <= i < s.len() {
        let step = lex_step(s, i, in_string);
        lemma_tokens_end_with_marker(s, step.1, step.2);
    }
}

/// Whether `c` continues a number.
pub fn number_char(c: char) -> (r: bool)
    ensures
        r == is_number_char(c),
{
    digit(c) || c == 'e' || c == 'E' || c == '-' || c == '+' || c == '.'
}

/// Appends to `text` what the character `c` stands for after a backslash.
pub fn push_escaped(text: &mut String, c: char)
    ensures
        final(text)@ == old(text)@ + escape_code(c),
{
    if c == '"' {
        text.push('"');
    } else if c == '\\' {
        text.push('\\');
    } else if c == '/' {
        text.push('/');
    } else if c == 'b' {
        text.push('\u{0008}');
    } else if c == 'f' {
        text.push('\u{000c}');
    } else if c == 'n' {
        text.push('\u{000a}');
    } else if c == 'r' {
        text.push('\u{000d}');
    } else if c == 't' {
        text.push('\u{0009}');
    }
    assert(final(text)@ =~= old(text)@ + escape_code(c));
}

/// The token that `word` is, where it is a keyword.
pub fn keyword_token(word: &Vec<char>) -> (token: Option<Token>)
    ensures
        match token {
            Some(t) => keyword(word@) == Some(t@),
            None => keyword(word@) is None,
        },
{
    let n: usize = word.len();
    if n == 4 && word[0] == 't' && word[1] == 'r' && word[2] == 'u' && word[3] == 'e' {
        assert(word@ =~= seq!['t', 'r', 'u', 'e']);
        Some(Token::Bool(true))
    } else if n == 5 && word[0] == 'f' && word[1] == 'a' && word[2] == 'l' && word[3] == 's'
        && word[4] == 'e' {
        assert(word@ =~= seq!['f', 'a', 'l', 's', 'e']);
        Some(Token::Bool(false))
    } else if n == 4 && word[0] == 'n' && word[1] == 'u' && word[2] == 'l' && word[3] == 'l' {
        assert(word@ =~= seq!['n', 'u', 'l', 'l']);
        Some(Token::Null)
    } else {
        None
    }
}

/// A scanner over the characters of one document.
///
/// `pos` is the index of the next character to read; `curr_char`, where
/// there is one, is the character before it.
pub struct Tokenizer {
    pub input: Vec<char>,
    pub pos: usize,
    pub string_mode: bool,
    pub curr_char: Option<char>,
}

impl Tokenizer {
    /// The cursor is inside the input, and the current character is the
    /// one that was read last.
    pub open spec fn wf(&self) -> bool {
        &&& self.pos <= self.input@.len()
        &&& self.curr_char matches Some(c) ==> self.pos >= 1 && self.input@[self.pos - 1] == c
    }

    /// A scanner at the start of `input`, outside string mode, with no
    /// character read yet.
    pub fn new(input: String) -> (t: Tokenizer)
        ensures
            t.wf(),
            t.input@ == input@,
            t.pos == 0,
            !t.string_mode,
            t.curr_char is None,
    {
        Tokenizer { input: chars_of(input.as_str()), pos: 0, string_mode: false, curr_char: None }
    }

    /// Reads the next character, if there is one, and makes it the current one.
    pub fn advance(&mut self)
        ensures
            final(self).input == old(self).input,
            final(self).string_mode == old(self).string_mode,
            old(self).pos < old(self).input@.len() ==> final(self).pos == old(self).pos + 1
                && final(self).curr_char == Some(old(self).input@[old(self).pos as int]),
            old(self).pos >= old(self).input@.len() ==> final(self).pos == old(self).pos
                && final(self).curr_char is None,
    {
        if self.pos < self.input.len() {
            self.curr_char = Some(self.input[self.pos]);
            self.pos = self.pos + 1;
        } else {
            self.curr_char = None;
        }
    }

    /// Gathers the current character and the run that follows it.
    ///
    /// With `is_not_string` the run is made of alphabetic characters. Without
    /// it the run is a string's text: it ends before the next quote that no
    /// backslash precedes, and each escape in it is resolved. The cursor is
    /// left on the last character of the run.
    pub fn make_string(&mut self, is_not_string: bool) -> (ident: String)
        requires
            old(self).wf(),
            old(self).curr_char is Some,
        ensures
            final(self).wf(),
            final(self).input == old(self).input,
            final(self).string_mode == old(self).string_mode,
            final(self).curr_char is Some,
            is_not_string ==> ident@ == word_at(old(self).input@, old(self).pos - 1)
                && final(self).pos == old(self).pos + alpha_run_len(
                old(self).input@,
                old(self).pos as int,
            ),
            !is_not_string ==> ident@ == text_at(old(self).input@, old(self).pos - 1).0
                && final(self).pos == old(self).pos + text_at(
                old(self).input@,
                old(self).pos - 1,
            ).1,
    {
        let ghost s = self.input@;
        let ghost start = self.pos - 1;
        let mut ident = String::new();
        let first = self.curr_char.unwrap();
        if is_not_string {
            ident.push(first);
            assert(ident@ =~= s.subrange(start, start + 1));
            while self.pos < self.input.len() && self.input[self.pos].is_alphabetic()
                invariant
                    self.wf(),
                    self.input == old(self).input,
                    self.input@ == s,
                    self.string_mode == old(self).string_mode,
                    self.curr_char is Some,
                    0 <= start < self.pos,
                    ident@ == s.subrange(start, self.pos as int),
                    self.pos + alpha_run_len(s, self.pos as int) == start + 1 + alpha_run_len(
                        s,
                        start + 1,
                    ),
                decreases s.len() - self.pos,
            {
                let c = self.input[self.pos];
                ident.push(c);
                assert(ident@ =~= s.subrange(start, self.pos + 1));
                self.advance();
            }
        } else {
            let mut escape_mode = first == '\\';
            if !escape_mode {
                ident.push(first);
            }
            assert(ident@ + text_run(s, start + 1, escape_mode).0 =~= text_at(s, start).0);
            while self.pos < self.input.len() && (escape_mode || self.input[self.pos] != '"')
                invariant
                    self.wf(),
                    self.input == old(self).input,
                    self.input@ == s,
                    self.string_mode == old(self).string_mode,
                    self.curr_char is Some,
                    0 <= start < self.pos,
                    ident@ + text_run(s, self.pos as int, escape_mode).0 == text_at(s, start).0,
                    self.pos + text_run(s, self.pos as int, escape_mode).1 == start + 1 + text_at(
                        s,
                        start,
                    ).1,
                decreases s.len() - self.pos,
            {
                let c = self.input[self.pos];
                let ghost before = ident@;
                let ghost was_escaped = escape_mode;
                if escape_mode {
                    push_escaped(&mut ident, c);
                    escape_mode = false;
                } else if c == '\\' {
                    escape_mode = true;
                } else {
                    ident.push(c);
                }
                assert(ident@ + text_run(s, self.pos + 1, escape_mode).0 =~= before + text_run(
                    s,
                    self.pos as int,
                    was_escaped,
                ).0);
                self.advance();
            }
        }
        ident
    }

    /// Gathers the current character and the number characters that follow
    /// it. The cursor is left on the last of them.
    pub fn make_number(&mut self) -> (lexeme: Vec<char>)
        requires
            old(self).wf(),
            old(self).curr_char is Some,
        ensures
            final(self).wf(),
            final(self).input == old(self).input,
            final(self).string_mode == old(self).string_mode,
            final(self).curr_char is Some,
            lexeme@ == number_at(old(self).input@, old(self).pos - 1),
            final(self).pos == old(self).pos + number_run_len(
                old(self).input@,
                old(self).pos as int,
            ),
    {
        let ghost s = self.input@;
        let ghost start = self.pos - 1;
        let mut lexeme: Vec<char> = Vec::new();
        lexeme.push(self.curr_char.unwrap());
        assert(lexeme@ =~= s.subrange(start, start + 1));
        while self.pos < self.input.len() && number_char(self.input[self.pos])
            invariant
                self.wf(),
                self.input == old(self).input,
                self.input@ == s,
                self.string_mode == old(self).string_mode,
                self.curr_char is Some,
                0 <= start < self.pos,
                lexeme@ == s.subrange(start, self.pos as int),
                self.pos + number_run_len(s, self.pos as int) == start + 1 + number_run_len(
                    s,
                    start + 1,
                ),
            decreases s.len() - self.pos,
        {
            let c = self.input[self.pos];
            lexeme.push(c);
            assert(lexeme@ =~= s.subrange(start, self.pos + 1));
            self.advance();
        }
        lexeme
    }

    /// The index of the character that the scan looks at.
    pub open spec fn cursor(&self) -> int {
        if self.curr_char is Some {
            self.pos - 1
        } else {
            self.pos as int
        }
    }

    /// Scans what is left of the input, from the next character on, into
    /// tokens, and puts the end marker behind them. Nothing is left to read
    /// afterwards.
    pub fn generate(&mut self) -> (tokens: Vec<Token>)
        requires
            old(self).wf(),
        ensures
            final(self).wf(),
            final(self).input == old(self).input,
            final(self).pos == old(self).input@.len(),
            final(self).curr_char is None,
            final(self).string_mode == mode_after(
                old(self).input@,
                old(self).pos as int,
                old(self).string_mode,
            ),
            token_views(tokens@) == tokens_from(
                old(self).input@,
                old(self).pos as int,
                old(self).string_mode,
            ),
            tokens@.len() >= 1,
            tokens@.last() == Token::Eof,
    {
        let ghost s = self.input@;
        let ghost total = tokens_from(s, self.pos as int, self.string_mode);
        let ghost last_mode = mode_after(s, self.pos as int, self.string_mode);
        self.advance();
        let mut tokens: Vec<Token> = Vec::new();
        assert(token_views(tokens@) + total =~= total);
        while self.curr_char.is_some()
            invariant
                self.wf(),
                self.input == old(self).input,
                self.input@ == s,
                self.curr_char is None ==> self.pos == s.len(),
                token_views(tokens@) + tokens_from(s, self.cursor(), self.string_mode) == total,
                mode_after(s, self.cursor(), self.string_mode) == last_mode,
            decreases chars_left(s, self.cursor()),
        {
            let ch = self.curr_char.unwrap();
            let ghost i = self.pos - 1;
            let ghost mode = self.string_mode;
            let ghost step = lex_step(s, i, mode);
            let ghost before = token_views(tokens@);
            proof {
                lemma_alpha_run_bound(s, i + 1);
                lemma_number_run_bound(s, i + 1);
                lemma_text_run_bound(s, i + 1, true);
                lemma_text_run_bound(s, i + 1, false);
            }
            if self.string_mode && ch != '"' {
                let text = self.make_string(false);
                tokens.push(Token::Str(text));
            } else if ch == '{' {
                tokens.push(Token::LeftBrace);
            } else if ch == '}' {
                tokens.push(Token::RightBrace);
            } else if ch == '[' {
                tokens.push(Token::LeftBracket);
            } else if ch == ']' {
                tokens.push(Token::RightBracket);
            } else if ch == '"' {
                self.string_mode = !self.string_mode;
                tokens.push(Token::Quote);
            } else if ch == ',' {
                tokens.push(Token::Comma);
            } else if ch == ':' {
                tokens.push(Token::Colon);
            } else if digit(ch) || ch == '-' {
                let lexeme = self.make_number();
                if decimal_literal(&lexeme) {
                    tokens.push(Token::Number(string_of(&lexeme)));
                }
            } else if ch == 't' || ch == 'f' || ch == 'n' {
                let ident = self.make_string(true);
                let word = chars_of(ident.as_str());
                match keyword_token(&word) {
                    Some(token) => {
                        tokens.push(token);
                    },
                    None => {},
                }
            }
            assert(token_views(tokens@) =~= before + step.0);
            assert(self.pos == step.1);
            assert(self.string_mode == step.2);
            self.advance();
            assert(self.cursor() == step.1);
            assert((before + step.0) + tokens_from(s, step.1, step.2) =~= before + tokens_from(
                s,
                i,
                mode,
            ));
        }
        tokens.push(Token::Eof);
        assert(token_views(tokens@) =~= total);
        tokens
    }
}

} // verus!
