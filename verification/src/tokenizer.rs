//! The tokenizer: one pass over the characters of a line, with one character
//! of lookahead.

use vstd::prelude::*;
use crate::error::ReaderError;

verus! {

/// The model of a token: a token whose text is a sequence of characters.
pub enum Tok {
    OpenParen,
    CloseParen,
    OpenBracket,
    CloseBracket,
    OpenCurly,
    CloseCurly,
    Quote,
    BackQuote,
    Caret,
    Tilde,
    AtSign,
    TildeAtSign,
    Str(Seq<char>),
    Comment(Seq<char>),
    Atom(Seq<char>),
}

/// One lexical unit of a line.
#[derive(Debug, PartialEq, Eq)]
pub enum Token {
    OpenParen,
    CloseParen,
    OpenBracket,
    CloseBracket,
    OpenCurly,
    CloseCurly,
    Quote,
    BackQuote,
    Caret,
    Tilde,
    AtSign,
    TildeAtSign,
    /// A string literal: its text with the quotes around it, escapes resolved.
    Str(String),
    /// A comment: its text from the `;` up to the end of the line.
    Comment(String),
    /// A run of ordinary characters, not yet classified.
    Atom(String),
}

impl View for Token {
    type V = Tok;

    open spec fn view(&self) -> Tok {
        match self {
            Token::OpenParen => Tok::OpenParen,
            Token::CloseParen => Tok::CloseParen,
            Token::OpenBracket => Tok::OpenBracket,
            Token::CloseBracket => Tok::CloseBracket,
            Token::OpenCurly => Tok::OpenCurly,
            Token::CloseCurly => Tok::CloseCurly,
            Token::Quote => Tok::Quote,
            Token::BackQuote => Tok::BackQuote,
            Token::Caret => Tok::Caret,
            Token::Tilde => Tok::Tilde,
            Token::AtSign => Tok::AtSign,
            Token::TildeAtSign => Tok::TildeAtSign,
            Token::Str(s) => Tok::Str(s@),
            Token::Comment(s) => Tok::Comment(s@),
            Token::Atom(s) => Tok::Atom(s@),
        }
    }
}

/// The text of a token: a delimiter or a marker as it is written, any other
/// token the text it carries.
pub open spec fn tok_text(t: Tok) -> Seq<char> {
    match t {
        Tok::OpenParen => "("@,
        Tok::CloseParen => ")"@,
        Tok::OpenBracket => "["@,
        Tok::CloseBracket => "]"@,
        Tok::OpenCurly => "{"@,
        Tok::CloseCurly => "}"@,
        Tok::Quote => "'"@,
        Tok::BackQuote => "`"@,
        Tok::Caret => "^"@,
        Tok::Tilde => "~"@,
        Tok::AtSign => "@"@,
        Tok::TildeAtSign => "~@"@,
        Tok::Str(s) => s,
        Tok::Comment(s) => s,
        Tok::Atom(s) => s,
    }
}

impl Token {
    /// The text of the token.
    pub fn to_text(&self) -> (text: String)
        ensures
            text@ == tok_text(self@),
    {
        let fixed: &str = match self {
            Token::OpenParen => "(",
            Token::CloseParen => ")",
            Token::OpenBracket => "[",
            Token::CloseBracket => "]",
            Token::OpenCurly => "{",
            Token::CloseCurly => "}",
            Token::Quote => "'",
            Token::BackQuote => "`",
            Token::Caret => "^",
            Token::Tilde => "~",
            Token::AtSign => "@",
            Token::TildeAtSign => "~@",
            Token::Str(s) => {
                return s.clone();
            },
            Token::Comment(s) => {
                return s.clone();
            },
            Token::Atom(s) => {
                return s.clone();
            },
        };
        String::from_str(fixed)
    }
}

/// The models of a run of tokens, in order.
pub open spec fn token_views(tokens: Seq<Token>) -> Seq<Tok> {
    tokens.map_values(|t: Token| t@)
}

/// Whether `c` is white space in the sense of `char::is_whitespace`.
pub uninterp spec fn white_space(c: char) -> bool;

/// `char::is_whitespace` of std: whether the character has the Unicode
/// property White_Space. The contract only gives that answer its name.
pub assume_specification[ char::is_whitespace ](c: char) -> (r: bool)
    ensures
        r == white_space(c),
;

/// `String::push` of std: appends one character to the end of the string.
pub assume_specification[ String::push ](s: &mut String, ch: char)
    ensures
        final(s)@ == old(s)@.push(ch),
;

/// Characters that are a token, or open one, by themselves.
pub open spec fn is_special(c: char) -> bool {
    c == '(' || c == ')' || c == '[' || c == ']' || c == '{' || c == '}' || c == '\'' || c == '`'
        || c == '^' || c == '@' || c == '~' || c == '"' || c == ';'
}

/// Characters between tokens: a space, a comma, any other white space. A
/// character with a token of its own is never one of them.
pub open spec fn is_separator(c: char) -> bool {
    !is_special(c) && (c == ' ' || c == ',' || white_space(c))
}

/// Characters that an atom cannot hold: they end the atom before them.
pub open spec fn ends_atom(c: char) -> bool {
    is_separator(c) || c == '[' || c == ']' || c == '{' || c == '}' || c == '(' || c == ')'
        || c == '\'' || c == '"' || c == '`' || c == ';'
}

/// The first position from `i` on whose character ends an atom, or the end
/// of the text.
pub open spec fn atom_end(s: Seq<char>, i: int) -> int
    decreases s.len() - i,
{
    if i < 0 || i >= s.len() || ends_atom(s[i]) {
        i
    } else {
        atom_end(s, i + 1)
    }
}

/// The position of the first newline from `i` on, or the end of the text.
pub open spec fn comment_end(s: Seq<char>, i: int) -> int
    decreases s.len() - i,
{
    if i < 0 || i >= s.len() || s[i] == '\n' {
        i
    } else {
        comment_end(s, i + 1)
    }
}

/// Reads the rest of a string literal from `i`, with `acc` the text read so
/// far. A backslash before a double quote stands for that quote; any other
/// backslash stands for itself. Gives the text, closing quote included, and
/// the position behind the literal; nothing if the text ends first.
pub open spec fn scan_string(s: Seq<char>, i: int, acc: Seq<char>) -> Option<(Seq<char>, int)>
    decreases s.len() - i,
{
    if i < 0 || i >= s.len() {
        None
    } else if s[i] == '\\' {
        if i + 1 < s.len() && s[i + 1] == '"' {
            scan_string(s, i + 2, acc.push('"'))
        } else {
            scan_string(s, i + 1, acc.push('\\'))
        }
    } else if s[i] == '"' {
        Some((acc.push('"'), i + 1))
    } else {
        scan_string(s, i + 1, acc.push(s[i]))
    }
}

/// The token that starts at `i`, where a character that is no separator
/// stands, and the position behind it; nothing for a string left open.
pub open spec fn token_at(s: Seq<char>, i: int) -> Option<(Tok, int)>
    recommends
        0 <= i < s.len(),
        !is_separator(s[i]),
{
    let c = s[i];
    if c == '(' {
        Some((Tok::OpenParen, i + 1))
    } else if c == ')' {
        Some((Tok::CloseParen, i + 1))
    } else if c == '[' {
        Some((Tok::OpenBracket, i + 1))
    } else if c == ']' {
        Some((Tok::CloseBracket, i + 1))
    } else if c == '{' {
        Some((Tok::OpenCurly, i + 1))
    } else if c == '}' {
        Some((Tok::CloseCurly, i + 1))
    } else if c == '\'' {
        Some((Tok::Quote, i + 1))
    } else if c == '`' {
        Some((Tok::BackQuote, i + 1))
    } else if c == '^' {
        Some((Tok::Caret, i + 1))
    } else if c == '@' {
        Some((Tok::AtSign, i + 1))
    } else if c == '~' {
        if i + 1 < s.len() && s[i + 1] == '@' {
            Some((Tok::TildeAtSign, i + 2))
        } else {
            Some((Tok::Tilde, i + 1))
        }
    } else if c == '"' {
        match scan_string(s, i + 1, seq!['"']) {
            Some((text, next)) => Some((Tok::Str(text), next)),
            None => None,
        }
    } else if c == ';' {
        let end = comment_end(s, i + 1);
        Some((Tok::Comment(s.subrange(i, end)), if end < s.len() { end + 1 } else { end }))
    } else {
        let end = atom_end(s, i + 1);
        Some((Tok::Atom(s.subrange(i, end)), end))
    }
}

/// `done` followed by what `rest` holds; nothing where `rest` is nothing.
pub open spec fn tokens_then(done: Seq<Tok>, rest: Option<Seq<Tok>>) -> Option<Seq<Tok>> {
    match rest {
        Some(r) => Some(done + r),
        None => None,
    }
}

/// The tokens of the text from position `i` on; nothing if a string literal
/// is left open. Every token ends behind its start and inside the text
/// (`lemma_token_at_bounds`), so the test on `next` never fails.
pub open spec fn lex(s: Seq<char>, i: int) -> Option<Seq<Tok>>
    decreases s.len() - i,
{
    if i < 0 || i >= s.len() {
        Some(Seq::empty())
    } else if is_separator(s[i]) {
        lex(s, i + 1)
    } else {
        match token_at(s, i) {
            Some((t, next)) => if i < next <= s.len() {
                tokens_then(seq![t], lex(s, next))
            } else {
                None
            },
            None => None,
        }
    }
}

/// An atom or a comment ends at or behind the position it was looked for
/// from, and inside the text.
pub proof fn lemma_end_bounds(s: Seq<char>, i: int)
    requires
        0 <= i <= s.len(),
    ensures
        i <= atom_end(s, i) <= s.len(),
        i <= comment_end(s, i) <= s.len(),
    decreases s.len() - i,
{
    if i < s.len() {
        lemma_end_bounds(s, i + 1);
    }
}

/// A string literal ends behind the position it was read from.
pub proof fn lemma_scan_string_bounds(s: Seq<char>, i: int, acc: Seq<char>)
    requires
        0 <= i <= s.len(),
    ensures
        scan_string(s, i, acc) matches Some((text, next)) ==> i < next <= s.len(),
    decreases s.len() - i,
{
    if i < s.len() {
        if s[i] == '\\' {
            if i + 1 < s.len() && s[i + 1] == '"' {
                lemma_scan_string_bounds(s, i + 2, acc.push('"'));
            } else {
                lemma_scan_string_bounds(s, i + 1, acc.push('\\'));
            }
        } else if s[i] != '"' {
            lemma_scan_string_bounds(s, i + 1, acc.push(s[i]));
        }
    }
}

/// Every token takes at least one character, and none reaches past the text.
pub proof fn lemma_token_at_bounds(s: Seq<char>, i: int)
    requires
        0 <= i < s.len(),
    ensures
        token_at(s, i) matches Some((t, next)) ==> i < next <= s.len(),
{
    lemma_end_bounds(s, i + 1);
    lemma_scan_string_bounds(s, i + 1, seq!['"']);
}

/// Where `~` stands directly before `@`, the two are read as the one token
/// `~@`, never as `~` and then `@`.
pub proof fn lemma_splice_unquote_is_one_token(s: Seq<char>, i: int)
    requires
        0 <= i,
        i + 1 < s.len(),
        s[i] == '~',
        s[i + 1] == '@',
    ensures
        token_at(s, i) == Some((Tok::TildeAtSign, i + 2)),
        lex(s, i) == tokens_then(seq![Tok::TildeAtSign], lex(s, i + 2)),
{
}

/// The scanner's state: the characters of the line and the position of the
/// next one to read.
pub struct Tokenizer {
    pub data: Vec<char>,
    pub index: usize,
}

/// Whether `c` is a token, or opens one, by itself.
pub fn is_special_char(c: char) -> (r: bool)
    ensures
        r == is_special(c),
{
    c == '(' || c == ')' || c == '[' || c == ']' || c == '{' || c == '}' || c == '\'' || c == '`'
        || c == '^' || c == '@' || c == '~' || c == '"' || c == ';'
}

/// Whether `c` separates tokens.
pub fn is_separator_char(c: char) -> (r: bool)
    ensures
        r == is_separator(c),
{
    !is_special_char(c) && (c == ' ' || c == ',' || c.is_whitespace())
}

/// Whether `c` ends the atom before it.
pub fn ends_atom_char(c: char) -> (r: bool)
    ensures
        r == ends_atom(c),
{
    is_separator_char(c) || c == '[' || c == ']' || c == '{' || c == '}' || c == '(' || c == ')'
        || c == '\'' || c == '"' || c == '`' || c == ';'
}

impl Tokenizer {
    /// The state is sound: the position is in the text or at its end.
    pub open spec fn wf(&self) -> bool {
        self.index <= self.data.len()
    }

    /// A scanner at the start of `data`.
    pub fn new(data: String) -> (t: Tokenizer)
        ensures
            t.data@ == data@,
            t.index == 0,
    {
        let text = data.as_str();
        let n: usize = text.unicode_len();
        let mut chars: Vec<char> = Vec::new();
        let mut i: usize = 0;
        while i < n
            invariant
                i <= n,
                n == text@.len(),
                chars@ == text@.subrange(0, i as int),
            decreases n - i,
        {
            let c = text.get_char(i);
            chars.push(c);
            i += 1;
            assert(chars@ =~= text@.subrange(0, i as int));
        }
        assert(chars@ =~= text@);
        Tokenizer { data: chars, index: 0 }
    }

    /// The next character, if any; the position stays.
    pub fn peek(&self) -> (c: Option<char>)
        ensures
            c == (if self.index < self.data.len() {
                Some(self.data@[self.index as int])
            } else {
                None
            }),
    {
        if self.index < self.data.len() {
            Some(self.data[self.index])
        } else {
            None
        }
    }

    /// The next character, if any; the position moves behind it.
    pub fn consume(&mut self) -> (c: Option<char>)
        ensures
            final(self).data == old(self).data,
            c == old(self).peek_spec(),
            final(self).index == (if old(self).index < old(self).data.len() {
                old(self).index + 1
            } else {
                old(self).index as int
            }),
    {
        if self.index < self.data.len() {
            let c = self.data[self.index];
            self.index += 1;
            Some(c)
        } else {
            None
        }
    }

    /// What `peek` returns.
    pub open spec fn peek_spec(&self) -> Option<char> {
        if self.index < self.data.len() {
            Some(self.data@[self.index as int])
        } else {
            None
        }
    }

    /// Reads a string literal whose opening quote has just been consumed.
    fn read_string(&mut self) -> (r: Option<String>)
        requires
            old(self).wf(),
        ensures
            final(self).wf(),
            final(self).data == old(self).data,
            match scan_string(old(self).data@, old(self).index as int, seq!['"']) {
                Some((text, next)) => r matches Some(s) && s@ == text && final(self).index == next,
                None => r is None,
            },
    {
        let mut s = String::new();
        s.push('"');
        loop
            invariant
                self.wf(),
                self.data == old(self).data,
                scan_string(old(self).data@, old(self).index as int, seq!['"']) == scan_string(
                    self.data@,
                    self.index as int,
                    s@,
                ),
            decreases self.data.len() - self.index,
        {
            match self.consume() {
                None => {
                    return None;
                },
                Some(c) => {
                    if c == '\\' {
                        if self.peek() == Some('"') {
                            self.consume();
                            s.push('"');
                        } else {
                            s.push('\\');
                        }
                    } else {
                        s.push(c);
                        if c == '"' {
                            return Some(s);
                        }
                    }
                },
            }
        }
    }

    /// Reads a comment whose `;` has just been consumed, and the newline that
    /// ends it, if there is one.
    fn read_comment(&mut self) -> (s: String)
        requires
            old(self).wf(),
            old(self).index >= 1,
        ensures
            final(self).wf(),
            final(self).data == old(self).data,
            s@ == old(self).data@.subrange(
                old(self).index - 1,
                comment_end(old(self).data@, old(self).index as int),
            ),
            final(self).index == ({
                let end = comment_end(old(self).data@, old(self).index as int);
                if end < old(self).data.len() {
                    end + 1
                } else {
                    end
                }
            }),
    {
        let ghost start = self.index as int;
        let mut s = String::new();
        s.push(self.data[self.index - 1]);
        assert(s@ =~= self.data@.subrange(start - 1, start));
        loop
            invariant
                self.wf(),
                self.data == old(self).data,
                start == old(self).index,
                1 <= start <= self.index,
                comment_end(self.data@, start) == comment_end(self.data@, self.index as int),
                s@ == self.data@.subrange(start - 1, self.index as int),
            decreases self.data.len() - self.index,
        {
            match self.consume() {
                None => {
                    return s;
                },
                Some(c) => {
                    if c == '\n' {
                        assert(s@ == self.data@.subrange(start - 1, self.index - 1));
                        return s;
                    }
                    s.push(c);
                    assert(s@ =~= self.data@.subrange(start - 1, self.index as int));
                },
            }
        }
    }

    /// Reads an atom whose first character has just been consumed.
    fn read_atom(&mut self) -> (s: String)
        requires
            old(self).wf(),
            old(self).index >= 1,
        ensures
            final(self).wf(),
            final(self).data == old(self).data,
            s@ == old(self).data@.subrange(
                old(self).index - 1,
                atom_end(old(self).data@, old(self).index as int),
            ),
            final(self).index == atom_end(old(self).data@, old(self).index as int),
    {
        let ghost start = self.index as int;
        let mut s = String::new();
        s.push(self.data[self.index - 1]);
        assert(s@ =~= self.data@.subrange(start - 1, start));
        loop
            invariant
                self.wf(),
                self.data == old(self).data,
                start == old(self).index,
                1 <= start <= self.index,
                atom_end(self.data@, start) == atom_end(self.data@, self.index as int),
                s@ == self.data@.subrange(start - 1, self.index as int),
            decreases self.data.len() - self.index,
        {
            match self.peek() {
                None => {
                    return s;
                },
                Some(c) => {
                    if ends_atom_char(c) {
                        return s;
                    }
                    self.consume();
                    s.push(c);
                    assert(s@ =~= self.data@.subrange(start - 1, self.index as int));
                },
            }
        }
    }

    /// Tokenizes the text from the current position to its end. The tokens
    /// are those that `lex` gives; the one failure is a string left open.
    pub fn tokenize(&mut self) -> (r: Result<Vec<Token>, ReaderError>)
        requires
            old(self).wf(),
        ensures
            final(self).wf(),
            final(self).data == old(self).data,
            match r {
                Ok(tokens) => lex(old(self).data@, old(self).index as int) == Some(
                    token_views(tokens@),
                ) && final(self).index == old(self).data.len(),
                Err(e) => e == ReaderError::UnbalancedString && lex(
                    old(self).data@,
                    old(self).index as int,
                ) is None,
            },
    {
        let mut tokens: Vec<Token> = Vec::new();
        assert(token_views(tokens@) =~= Seq::<Tok>::empty());
        loop
            invariant
                self.wf(),
                self.data == old(self).data,
                lex(old(self).data@, old(self).index as int) == tokens_then(
                    token_views(tokens@),
                    lex(self.data@, self.index as int),
                ),
            decreases self.data.len() - self.index,
        {
            let ghost at = self.index as int;
            let ghost before = token_views(tokens@);
            let c = match self.consume() {
                None => {
                    assert(before + Seq::<Tok>::empty() =~= before);
                    return Ok(tokens);
                },
                Some(c) => c,
            };
            if is_separator_char(c) {
                continue;
            }
            proof {
                lemma_token_at_bounds(self.data@, at);
            }
            let token = if c == '(' {
                Token::OpenParen
            } else if c == ')' {
                Token::CloseParen
            } else if c == '[' {
                Token::OpenBracket
            } else if c == ']' {
                Token::CloseBracket
            } else if c == '{' {
                Token::OpenCurly
            } else if c == '}' {
                Token::CloseCurly
            } else if c == '\'' {
                Token::Quote
            } else if c == '`' {
                Token::BackQuote
            } else if c == '^' {
                Token::Caret
            } else if c == '@' {
                Token::AtSign
            } else if c == '~' {
                // The pair `~@` is one token: look ahead before settling on `~`.
                if self.peek() == Some('@') {
                    self.consume();
                    Token::TildeAtSign
                } else {
                    Token::Tilde
                }
            } else if c == '"' {
                match self.read_string() {
                    Some(s) => Token::Str(s),
                    None => {
                        return Err(ReaderError::UnbalancedString);
                    },
                }
            } else if c == ';' {
                Token::Comment(self.read_comment())
            } else {
                Token::Atom(self.read_atom())
            };
            proof {
                let s = self.data@;
                assert(token_at(s, at) == Some((token@, self.index as int)));
                let rest = lex(s, self.index as int);
                assert(lex(s, at) == tokens_then(seq![token@], rest));
                assert(token_views(tokens@.push(token)) =~= before.push(token@));
                if let Some(r) = rest {
                    assert(before + (seq![token@] + r) =~= before.push(token@) + r);
                }
            }
            tokens.push(token);
        }
    }
}

/// Tokenizes a line of text.
pub fn tokenize(text: &str) -> (r: Result<Vec<Token>, ReaderError>)
    ensures
        match r {
            Ok(tokens) => lex(text@, 0) == Some(token_views(tokens@)),
            Err(e) => e == ReaderError::UnbalancedString && lex(text@, 0) is None,
        },
{
    let mut tokenizer = Tokenizer::new(String::from_str(text));
    tokenizer.tokenize()
}

} // verus!
