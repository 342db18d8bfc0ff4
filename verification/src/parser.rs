//! The parser: recursive descent over the tokens of a line, which builds the
//! forms, rewrites the reader macros and checks that delimiters balance.

use vstd::prelude::*;
use crate::error::ReaderError;
use crate::tokenizer::{lex, token_views, Tok, Token, Tokenizer};
use crate::types::{AtomValue, Form, ListValue, MalValue};

verus! {

/// The three kinds of collection, each with its pair of delimiters.
#[derive(Debug, Clone, Copy, PartialEq, Eq, Structural)]
pub enum Delim {
    Paren,
    Bracket,
    Curly,
}

/// The kind of collection that `t` opens, if it opens one.
pub open spec fn opener(t: Tok) -> Option<Delim> {
    match t {
        Tok::OpenParen => Some(Delim::Paren),
        Tok::OpenBracket => Some(Delim::Bracket),
        Tok::OpenCurly => Some(Delim::Curly),
        _ => None,
    }
}

/// The kind of collection that `t` closes, if it closes one.
pub open spec fn closer(t: Tok) -> Option<Delim> {
    match t {
        Tok::CloseParen => Some(Delim::Paren),
        Tok::CloseBracket => Some(Delim::Bracket),
        Tok::CloseCurly => Some(Delim::Curly),
        _ => None,
    }
}

/// The symbol that a reader macro of one argument stands for.
pub open spec fn macro_symbol(t: Tok) -> Option<Seq<char>> {
    match t {
        Tok::Quote => Some("quote"@),
        Tok::BackQuote => Some("quasiquote"@),
        Tok::Tilde => Some("unquote"@),
        Tok::TildeAtSign => Some("splice-unquote"@),
        Tok::AtSign => Some("deref"@),
        _ => None,
    }
}

/// The error for a collection of kind `d` whose delimiters do not balance.
pub open spec fn unbalanced(d: Delim) -> ReaderError {
    match d {
        Delim::Paren => ReaderError::UnbalancedList,
        Delim::Bracket => ReaderError::UnbalancedVector,
        Delim::Curly => ReaderError::UnbalancedMap,
    }
}

/// The collection of kind `d` that holds `items`.
pub open spec fn collection(d: Delim, items: Seq<Form>) -> Form {
    match d {
        Delim::Paren => Form::List(items),
        Delim::Bracket => Form::Vector(items),
        Delim::Curly => Form::Dict(items),
    }
}

/// The list that a reader macro of one argument is rewritten to.
pub open spec fn unary_form(name: Seq<char>, x: Form) -> Form {
    Form::List(seq![Form::Symbol(name), x])
}

/// The list that `^meta target` is rewritten to: the target comes first.
pub open spec fn with_meta_form(meta: Form, target: Form) -> Form {
    Form::List(seq![Form::Symbol("with-meta"@), target, meta])
}

/// The form that starts at token `i`, comments before it skipped, and the
/// position behind it; or the error that reading it ends in. A form ends
/// behind its start and inside the tokens (`lemma_read_bounds`), so the tests
/// on the position behind a form, here and below, never fail.
pub open spec fn read_form(ts: Seq<Tok>, i: int) -> Result<(Form, int), ReaderError>
    decreases ts.len() - i, 0nat,
{
    if i < 0 || i >= ts.len() {
        Err(ReaderError::UnexpectedEndOfInput)
    } else if ts[i] is Comment {
        read_form(ts, i + 1)
    } else if let Some(d) = opener(ts[i]) {
        match read_items(ts, i + 1, Seq::empty(), d) {
            Ok((items, next)) => Ok((collection(d, items), next)),
            Err(e) => Err(e),
        }
    } else if let Some(d) = closer(ts[i]) {
        Err(unbalanced(d))
    } else if let Some(name) = macro_symbol(ts[i]) {
        match read_form(ts, i + 1) {
            Ok((x, next)) => Ok((unary_form(name, x), next)),
            Err(e) => Err(e),
        }
    } else if ts[i] is Caret {
        match read_form(ts, i + 1) {
            Ok((meta, mid)) => if i < mid <= ts.len() {
                match read_form(ts, mid) {
                    Ok((target, next)) => Ok((with_meta_form(meta, target), next)),
                    Err(e) => Err(e),
                }
            } else {
                Err(ReaderError::UnexpectedEndOfInput)
            },
            Err(e) => Err(e),
        }
    } else {
        match ts[i] {
            Tok::Str(s) => Ok((Form::Str(s), i + 1)),
            Tok::Atom(s) => Ok((Form::Symbol(s), i + 1)),
            _ => Err(ReaderError::UnexpectedEndOfInput),
        }
    }
}

/// The items of a collection of kind `d` from token `i` up to the closing
/// delimiter, behind the items `acc` read before, and the position behind
/// that delimiter; or the error that reading them ends in.
pub open spec fn read_items(ts: Seq<Tok>, i: int, acc: Seq<Form>, d: Delim) -> Result<
    (Seq<Form>, int),
    ReaderError,
>
    decreases ts.len() - i, 1nat,
{
    if i < 0 || i >= ts.len() {
        Err(unbalanced(d))
    } else if ts[i] is Comment {
        read_items(ts, i + 1, acc, d)
    } else if closer(ts[i]) == Some(d) {
        Ok((acc, i + 1))
    } else {
        match read_form(ts, i) {
            Ok((x, next)) => if i < next <= ts.len() {
                read_items(ts, next, acc.push(x), d)
            } else {
                Err(unbalanced(d))
            },
            Err(e) => Err(e),
        }
    }
}

/// The forms from token `i` to the end, behind the forms `acc` read before;
/// or the error that reading them ends in.
pub open spec fn read_all(ts: Seq<Tok>, i: int, acc: Seq<Form>) -> Result<Seq<Form>, ReaderError>
    decreases ts.len() - i, 1nat,
{
    if i < 0 || i >= ts.len() {
        Ok(acc)
    } else if ts[i] is Comment {
        read_all(ts, i + 1, acc)
    } else {
        match read_form(ts, i) {
            Ok((x, next)) => if i < next <= ts.len() {
                read_all(ts, next, acc.push(x))
            } else {
                Err(ReaderError::UnexpectedEndOfInput)
            },
            Err(e) => Err(e),
        }
    }
}

/// The forms of a line of text, or the error that reading it ends in.
pub open spec fn read_text(s: Seq<char>) -> Result<Seq<Form>, ReaderError> {
    match lex(s, 0) {
        Some(ts) => read_all(ts, 0, Seq::empty()),
        None => Err(ReaderError::UnbalancedString),
    }
}

/// The models of a run of values, in order.
pub open spec fn value_views(values: Seq<MalValue>) -> Seq<Form> {
    values.map_values(|v: MalValue| v@)
}

/// A form, and a collection's items, end behind the position they start at,
/// and inside the tokens.
pub proof fn lemma_read_bounds(ts: Seq<Tok>, i: int, acc: Seq<Form>, d: Delim)
    requires
        0 <= i <= ts.len(),
    ensures
        read_form(ts, i) matches Ok((x, next)) ==> i < next <= ts.len(),
        read_items(ts, i, acc, d) matches Ok((items, next)) ==> i < next <= ts.len(),
    decreases ts.len() - i, 2nat,
{
    if i < ts.len() {
        lemma_read_bounds(ts, i + 1, acc, d);
        if ts[i] is Comment {
        } else {
            if let Some(d2) = opener(ts[i]) {
                lemma_read_bounds(ts, i + 1, Seq::empty(), d2);
            } else if ts[i] is Caret {
                if let Ok((meta, mid)) = read_form(ts, i + 1) {
                    lemma_read_bounds(ts, mid, acc, d);
                }
            }
            if let Ok((x, next)) = read_form(ts, i) {
                lemma_read_bounds(ts, next, acc.push(x), d);
            }
        }
    }
}

/// Comments hold no form: where every token from `i` on is a comment,
/// nothing is added to what was read before.
pub proof fn lemma_comments_hold_no_form(ts: Seq<Tok>, i: int, acc: Seq<Form>)
    requires
        0 <= i,
        forall|k: int| i <= k < ts.len() ==> #[trigger] ts[k] is Comment,
    ensures
        read_all(ts, i, acc) == Ok::<Seq<Form>, ReaderError>(acc),
    decreases ts.len() - i,
{
    if i < ts.len() {
        lemma_comments_hold_no_form(ts, i + 1, acc);
    }
}

/// A text whose tokens are all comments, or that has no token at all, reads
/// as no form, and not as an error.
pub proof fn lemma_comment_text_reads_empty(s: Seq<char>)
    requires
        lex(s, 0) matches Some(ts) && forall|k: int| 0 <= k < ts.len() ==> #[trigger] ts[k] is Comment,
    ensures
        read_text(s) == Ok::<Seq<Form>, ReaderError>(Seq::empty()),
{
    lemma_comments_hold_no_form(lex(s, 0)->0, 0, Seq::empty());
}

/// The parser's state: the tokens of the line and the position of the next
/// one to read.
pub struct Parser {
    pub tokens: Vec<Token>,
    pub index: usize,
}

impl Parser {
    /// The state is sound: the position is in the tokens or at their end.
    pub open spec fn wf(&self) -> bool {
        self.index <= self.tokens.len()
    }

    /// The models of the tokens.
    pub open spec fn toks(&self) -> Seq<Tok> {
        token_views(self.tokens@)
    }

    /// A parser at the start of `tokens`.
    pub fn new(tokens: Vec<Token>) -> (p: Parser)
        ensures
            p.tokens == tokens,
            p.index == 0,
    {
        Parser { tokens, index: 0 }
    }

    /// The next token, if any; the position stays.
    pub fn peek(&self) -> (t: Option<&Token>)
        ensures
            match t {
                Some(token) => self.index < self.tokens.len() && *token
                    == self.tokens@[self.index as int],
                None => self.index >= self.tokens.len(),
            },
    {
        if self.index < self.tokens.len() {
            Some(&self.tokens[self.index])
        } else {
            None
        }
    }

    /// Moves the position behind the next token, if there is one, and says
    /// whether there was.
    pub fn consume(&mut self) -> (moved: bool)
        ensures
            final(self).tokens == old(self).tokens,
            moved == (old(self).index < old(self).tokens.len()),
            final(self).index == (if moved {
                old(self).index + 1
            } else {
                old(self).index as int
            }),
    {
        if self.index < self.tokens.len() {
            self.index += 1;
            true
        } else {
            false
        }
    }

    /// Reads every form from the current position to the end of the tokens.
    pub fn parse(&mut self) -> (r: Result<Vec<MalValue>, ReaderError>)
        requires
            old(self).wf(),
        ensures
            final(self).wf(),
            final(self).tokens == old(self).tokens,
            match read_all(old(self).toks(), old(self).index as int, Seq::empty()) {
                Ok(forms) => r matches Ok(values) && value_views(values@) == forms,
                Err(e) => r == Err::<Vec<MalValue>, ReaderError>(e),
            },
    {
        let mut forms: Vec<MalValue> = Vec::new();
        assert(value_views(forms@) =~= Seq::<Form>::empty());
        loop
            invariant
                self.wf(),
                self.tokens == old(self).tokens,
                read_all(old(self).toks(), old(self).index as int, Seq::empty()) == read_all(
                    self.toks(),
                    self.index as int,
                    value_views(forms@),
                ),
            decreases self.tokens.len() - self.index,
        {
            let ghost at = self.index as int;
            let ghost before = value_views(forms@);
            match self.peek() {
                None => {
                    return Ok(forms);
                },
                Some(Token::Comment(_)) => {
                    self.consume();
                },
                Some(_) => {
                    proof {
                        lemma_read_bounds(self.toks(), at, before, Delim::Paren);
                    }
                    match self.parse_form() {
                        Ok(value) => {
                            assert(value_views(forms@.push(value)) =~= before.push(value@));
                            forms.push(value);
                        },
                        Err(e) => {
                            return Err(e);
                        },
                    }
                },
            }
        }
    }

    /// Reads the next form: a collection, a reader macro with its
    /// arguments, or a literal.
    pub fn parse_form(&mut self) -> (r: Result<MalValue, ReaderError>)
        requires
            old(self).wf(),
        ensures
            final(self).wf(),
            final(self).tokens == old(self).tokens,
            match read_form(old(self).toks(), old(self).index as int) {
                Ok((form, next)) => r matches Ok(value) && value@ == form && final(self).index
                    == next,
                Err(e) => r == Err::<MalValue, ReaderError>(e),
            },
        decreases old(self).tokens.len() - old(self).index, 0nat,
    {
        loop
            invariant
                self.wf(),
                self.tokens == old(self).tokens,
                self.index >= old(self).index,
                read_form(old(self).toks(), old(self).index as int) == read_form(
                    self.toks(),
                    self.index as int,
                ),
            ensures
                self.index < self.tokens.len() ==> !(self.tokens@[self.index as int] is Comment),
            decreases self.tokens.len() - self.index,
        {
            match self.peek() {
                Some(Token::Comment(_)) => {
                    self.consume();
                },
                _ => {
                    break ;
                },
            }
        }
        let ghost at = self.index as int;
        let ghost ts = self.toks();
        let unary: &str = match self.peek() {
            None => {
                return Err(ReaderError::UnexpectedEndOfInput);
            },
            Some(Token::OpenParen) => {
                self.consume();
                return match self.read_list(Delim::Paren) {
                    Ok(items) => Ok(MalValue::List(items)),
                    Err(e) => Err(e),
                };
            },
            Some(Token::OpenBracket) => {
                self.consume();
                return match self.read_list(Delim::Bracket) {
                    Ok(items) => Ok(MalValue::Vector(items)),
                    Err(e) => Err(e),
                };
            },
            Some(Token::OpenCurly) => {
                self.consume();
                return match self.read_list(Delim::Curly) {
                    Ok(items) => Ok(MalValue::Dict(items)),
                    Err(e) => Err(e),
                };
            },
            Some(Token::CloseParen) => {
                return Err(ReaderError::UnbalancedList);
            },
            Some(Token::CloseBracket) => {
                return Err(ReaderError::UnbalancedVector);
            },
            Some(Token::CloseCurly) => {
                return Err(ReaderError::UnbalancedMap);
            },
            Some(Token::Str(s)) => {
                let text = s.clone();
                self.consume();
                return Ok(MalValue::Str(text));
            },
            Some(Token::Atom(s)) => {
                let text = s.clone();
                self.consume();
                return Ok(MalValue::Symbol(AtomValue(text)));
            },
            Some(Token::Comment(_)) => {
                return Err(ReaderError::UnexpectedEndOfInput);
            },
            Some(Token::Caret) => {
                self.consume();
                proof {
                    lemma_read_bounds(ts, at + 1, Seq::empty(), Delim::Paren);
                }
                let meta = match self.parse_form() {
                    Ok(value) => value,
                    Err(e) => {
                        return Err(e);
                    },
                };
                let target = match self.parse_form() {
                    Ok(value) => value,
                    Err(e) => {
                        return Err(e);
                    },
                };
                let mut list = ListValue::new();
                list.push(MalValue::Symbol(AtomValue(String::from_str("with-meta"))));
                list.push(target);
                list.push(meta);
                assert(list@ =~= seq![Form::Symbol("with-meta"@), target@, meta@]);
                return Ok(MalValue::List(list));
            },
            Some(Token::Quote) => "quote",
            Some(Token::BackQuote) => "quasiquote",
            Some(Token::Tilde) => "unquote",
            Some(Token::TildeAtSign) => "splice-unquote",
            Some(Token::AtSign) => "deref",
        };
        self.consume();
        let x = match self.parse_form() {
            Ok(value) => value,
            Err(e) => {
                return Err(e);
            },
        };
        let mut list = ListValue::new();
        list.push(MalValue::Symbol(AtomValue(String::from_str(unary))));
        list.push(x);
        assert(list@ =~= seq![Form::Symbol(unary@), x@]);
        Ok(MalValue::List(list))
    }

    /// Reads the items of a collection of kind `kind` whose opening
    /// delimiter has just been consumed, up to and with its closing one.
    pub fn read_list(&mut self, kind: Delim) -> (r: Result<ListValue, ReaderError>)
        requires
            old(self).wf(),
        ensures
            final(self).wf(),
            final(self).tokens == old(self).tokens,
            match read_items(old(self).toks(), old(self).index as int, Seq::empty(), kind) {
                Ok((items, next)) => r matches Ok(list) && list@ == items && final(self).index
                    == next,
                Err(e) => r == Err::<ListValue, ReaderError>(e),
            },
        decreases old(self).tokens.len() - old(self).index, 1nat,
    {
        let mut list = ListValue::new();
        loop
            invariant
                self.wf(),
                self.tokens == old(self).tokens,
                self.index >= old(self).index,
                read_items(old(self).toks(), old(self).index as int, Seq::empty(), kind)
                    == read_items(self.toks(), self.index as int, list@, kind),
            decreases self.tokens.len() - self.index,
        {
            let ghost at = self.index as int;
            let closes = match self.peek() {
                None => {
                    return Err(
                        match kind {
                            Delim::Paren => ReaderError::UnbalancedList,
                            Delim::Bracket => ReaderError::UnbalancedVector,
                            Delim::Curly => ReaderError::UnbalancedMap,
                        },
                    );
                },
                Some(Token::Comment(_)) => {
                    self.consume();
                    continue ;
                },
                Some(Token::CloseParen) => kind == Delim::Paren,
                Some(Token::CloseBracket) => kind == Delim::Bracket,
                Some(Token::CloseCurly) => kind == Delim::Curly,
                Some(_) => false,
            };
            if closes {
                self.consume();
                return Ok(list);
            }
            proof {
                lemma_read_bounds(self.toks(), at, list@, kind);
            }
            match self.parse_form() {
                Ok(value) => {
                    list.push(value);
                },
                Err(e) => {
                    return Err(e);
                },
            }
        }
    }
}

/// Parses the tokens of a line into its top-level forms.
pub fn read(tokens: Vec<Token>) -> (r: Result<Vec<MalValue>, ReaderError>)
    ensures
        match read_all(token_views(tokens@), 0, Seq::empty()) {
            Ok(forms) => r matches Ok(values) && value_views(values@) == forms,
            Err(e) => r == Err::<Vec<MalValue>, ReaderError>(e),
        },
{
    let mut parser = Parser::new(tokens);
    parser.parse()
}

/// Reads a line of text: tokenizes it and parses the tokens.
pub fn parse_line(input: String) -> (r: Result<Vec<MalValue>, ReaderError>)
    ensures
        match read_text(input@) {
            Ok(forms) => r matches Ok(values) && value_views(values@) == forms,
            Err(e) => r == Err::<Vec<MalValue>, ReaderError>(e),
        },
{
    let mut tokenizer = Tokenizer::new(input);
    match tokenizer.tokenize() {
        Ok(tokens) => read(tokens),
        Err(e) => Err(e),
    }
}

} // verus!
