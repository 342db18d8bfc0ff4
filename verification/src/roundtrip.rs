//! Reading back what was rendered: the text of a form that the reader built
//! reads as that form again.

use vstd::prelude::*;
use crate::error::ReaderError;
use crate::parser::{
    closer, collection, lemma_read_bounds, opener, read_all, read_form, read_items, read_text,
    Delim,
};
use crate::tokenizer::{
    atom_end, ends_atom, is_separator, is_special, lemma_end_bounds, lemma_token_at_bounds, lex,
    scan_string, token_at, tokens_then, Tok,
};
use crate::types::{render, render_rest, Form};

verus! {

/// `part` stands in `s` from position `i` on.
pub open spec fn holds_at<T>(s: Seq<T>, i: int, part: Seq<T>) -> bool {
    0 <= i && i + part.len() <= s.len() && s.subrange(i, i + part.len()) == part
}

/// What stands at a position stands there piece by piece.
pub proof fn lemma_holds_at_split<T>(s: Seq<T>, i: int, a: Seq<T>, b: Seq<T>)
    requires
        holds_at(s, i, a + b),
    ensures
        holds_at(s, i, a),
        holds_at(s, i + a.len(), b),
{
    let whole = s.subrange(i, i + (a + b).len());
    assert(s.subrange(i, i + a.len()) =~= whole.subrange(0, a.len() as int));
    assert((a + b).subrange(0, a.len() as int) =~= a);
    assert(s.subrange(i + a.len(), i + a.len() + b.len()) =~= whole.subrange(
        a.len() as int,
        (a + b).len() as int,
    ));
    assert((a + b).subrange(a.len() as int, (a + b).len() as int) =~= b);
}

/// Text that the tokenizer reads as one atom: it starts with a character
/// that is neither special nor a separator, and holds none that ends an atom.
pub open spec fn atom_text(a: Seq<char>) -> bool {
    &&& a.len() > 0
    &&& !is_special(a[0])
    &&& !is_separator(a[0])
    &&& forall|k: int| 1 <= k < a.len() ==> !ends_atom(#[trigger] a[k])
}

/// Text between double quotes, with no backslash before the closing one.
pub open spec fn quoted(t: Seq<char>) -> bool {
    &&& t.len() >= 2
    &&& t[0] == '"'
    &&& t[t.len() - 1] == '"'
    &&& t[t.len() - 2] != '\\'
}

/// No double quote stands between the first and the last character.
pub open spec fn no_inner_quote(t: Seq<char>) -> bool {
    forall|k: int| 1 <= k < t.len() - 1 ==> #[trigger] t[k] != '"'
}

/// Text of a string literal that needs no escape: a double quote at either
/// end and none between them, and no backslash before the closing one.
pub open spec fn string_text(t: Seq<char>) -> bool {
    quoted(t) && no_inner_quote(t)
}

/// The kind and the items of a collection.
pub open spec fn parts(f: Form) -> Option<(Delim, Seq<Form>)> {
    match f {
        Form::List(items) => Some((Delim::Paren, items)),
        Form::Vector(items) => Some((Delim::Bracket, items)),
        Form::Dict(items) => Some((Delim::Curly, items)),
        _ => None,
    }
}

/// Forms that are made of symbols, string literals without escapes, and
/// collections of such forms.
pub open spec fn plain(f: Form) -> bool
    decreases f,
{
    match f {
        Form::Symbol(a) => atom_text(a),
        Form::Str(t) => string_text(t),
        Form::List(items) => forall|k: int| 0 <= k < items.len() ==> plain(#[trigger] items[k]),
        Form::Vector(items) => forall|k: int| 0 <= k < items.len() ==> plain(#[trigger] items[k]),
        Form::Dict(items) => forall|k: int| 0 <= k < items.len() ==> plain(#[trigger] items[k]),
        _ => false,
    }
}

/// The token that opens a collection of kind `d`.
pub open spec fn open_tok(d: Delim) -> Tok {
    match d {
        Delim::Paren => Tok::OpenParen,
        Delim::Bracket => Tok::OpenBracket,
        Delim::Curly => Tok::OpenCurly,
    }
}

/// The token that closes a collection of kind `d`.
pub open spec fn close_tok(d: Delim) -> Tok {
    match d {
        Delim::Paren => Tok::CloseParen,
        Delim::Bracket => Tok::CloseBracket,
        Delim::Curly => Tok::CloseCurly,
    }
}

/// The tokens that a plain form is written with.
pub open spec fn tokens_of(f: Form) -> Seq<Tok>
    decreases f, 0nat,
{
    match f {
        Form::Symbol(a) => seq![Tok::Atom(a)],
        Form::Str(t) => seq![Tok::Str(t)],
        Form::List(items) => seq![Tok::OpenParen] + tokens_rest(items, 0) + seq![Tok::CloseParen],
        Form::Vector(items) => seq![Tok::OpenBracket] + tokens_rest(items, 0) + seq![
            Tok::CloseBracket,
        ],
        Form::Dict(items) => seq![Tok::OpenCurly] + tokens_rest(items, 0) + seq![Tok::CloseCurly],
        _ => Seq::empty(),
    }
}

/// The tokens of the items from the `k`-th on.
pub open spec fn tokens_rest(items: Seq<Form>, k: nat) -> Seq<Tok>
    decreases items, items.len() - k,
{
    if k >= items.len() {
        Seq::empty()
    } else {
        tokens_of(items[k as int]) + tokens_rest(items, k + 1)
    }
}

/// The parser reads the tokens of a plain form as that form, and stops
/// behind them.
pub proof fn lemma_read_tokens_of(ts: Seq<Tok>, i: int, f: Form)
    requires
        plain(f),
        holds_at(ts, i, tokens_of(f)),
    ensures
        tokens_of(f).len() >= 1,
        !(ts[i] is Comment),
        closer(ts[i]) is None,
        read_form(ts, i) == Ok::<(Form, int), ReaderError>((f, i + tokens_of(f).len())),
    decreases f, 0nat,
{
    let own = tokens_of(f);
    assert(own.len() >= 1);
    assert(ts[i] == ts.subrange(i, i + own.len())[0]);
    assert(ts[i] == own[0]);
    if let Some((d, items)) = parts(f) {
        let inner = tokens_rest(items, 0);
        assert(own == seq![open_tok(d)] + inner + seq![close_tok(d)]);
        lemma_holds_at_split(ts, i, seq![open_tok(d)] + inner, seq![close_tok(d)]);
        lemma_holds_at_split(ts, i, seq![open_tok(d)], inner);
        let end = i + 1 + inner.len();
        assert(ts[end] == ts.subrange(end, end + 1)[0]);
        assert(ts[end] == close_tok(d));
        lemma_read_tokens_rest(ts, i + 1, items, 0, Seq::empty(), d);
        assert(Seq::<Form>::empty() + items.subrange(0, items.len() as int) =~= items);
        assert(collection(d, items) == f);
        assert(opener(ts[i]) == Some(d));
    }
}

/// The parser reads the tokens of plain items, up to the delimiter that
/// closes their collection, as those items.
pub proof fn lemma_read_tokens_rest(
    ts: Seq<Tok>,
    i: int,
    items: Seq<Form>,
    k: nat,
    acc: Seq<Form>,
    d: Delim,
)
    requires
        forall|j: int| 0 <= j < items.len() ==> plain(#[trigger] items[j]),
        k <= items.len(),
        holds_at(ts, i, tokens_rest(items, k)),
        i + tokens_rest(items, k).len() < ts.len(),
        ts[i + tokens_rest(items, k).len()] == close_tok(d),
    ensures
        read_items(ts, i, acc, d) == Ok::<(Seq<Form>, int), ReaderError>(
            (acc + items.subrange(k as int, items.len() as int), i + tokens_rest(items, k).len() + 1),
        ),
    decreases items, items.len() - k,
{
    if k >= items.len() {
        assert(acc + items.subrange(k as int, items.len() as int) =~= acc);
    } else {
        let first = tokens_of(items[k as int]);
        let rest = tokens_rest(items, k + 1);
        lemma_holds_at_split(ts, i, first, rest);
        lemma_read_tokens_of(ts, i, items[k as int]);
        lemma_read_tokens_rest(ts, i + first.len(), items, k + 1, acc.push(items[k as int]), d);
        assert(acc.push(items[k as int]) + items.subrange(k as int + 1, items.len() as int) =~= acc
            + items.subrange(k as int, items.len() as int));
    }
}

/// A place where an atom ends: the end of the text, or a character that
/// ends an atom.
pub open spec fn boundary(s: Seq<char>, i: int) -> bool {
    i >= s.len() || ends_atom(s[i])
}

/// The character that opens a collection of kind `d`.
pub open spec fn open_char(d: Delim) -> char {
    match d {
        Delim::Paren => '(',
        Delim::Bracket => '[',
        Delim::Curly => '{',
    }
}

/// The character that closes a collection of kind `d`.
pub open spec fn close_char(d: Delim) -> char {
    match d {
        Delim::Paren => ')',
        Delim::Bracket => ']',
        Delim::Curly => '}',
    }
}

/// Tokens in front of tokens in front of a rest are their concatenation in
/// front of that rest.
pub proof fn lemma_tokens_then_twice(a: Seq<Tok>, b: Seq<Tok>, rest: Option<Seq<Tok>>)
    ensures
        tokens_then(a, tokens_then(b, rest)) == tokens_then(a + b, rest),
{
    if let Some(r) = rest {
        assert(a + (b + r) =~= (a + b) + r);
    }
}

/// An atom runs up to the first boundary.
pub proof fn lemma_atom_end_run(s: Seq<char>, j: int, e: int)
    requires
        0 <= j <= e <= s.len(),
        forall|k: int| j <= k < e ==> !ends_atom(#[trigger] s[k]),
        boundary(s, e),
    ensures
        atom_end(s, j) == e,
    decreases e - j,
{
    if j < e {
        lemma_atom_end_run(s, j + 1, e);
    }
}

/// A string literal without escapes is read as it stands, up to and with
/// its closing quote.
pub proof fn lemma_scan_plain(s: Seq<char>, j: int, acc: Seq<char>, e: int)
    requires
        0 <= j <= e < s.len(),
        s[e] == '"',
        forall|k: int| j <= k < e ==> #[trigger] s[k] != '"',
        e > j ==> s[e - 1] != '\\',
    ensures
        scan_string(s, j, acc) == Some((acc + s.subrange(j, e + 1), e + 1)),
    decreases e - j,
{
    if j == e {
        assert(acc + s.subrange(j, e + 1) =~= acc.push('"'));
    } else {
        assert(s[j] != '"');
        lemma_scan_plain(s, j + 1, acc.push(s[j]), e);
        assert(acc.push(s[j]) + s.subrange(j + 1, e + 1) =~= acc + s.subrange(j, e + 1));
        if s[j] == '\\' {
            assert(j + 1 <= e);
            assert(s[j + 1] != '"');
        }
    }
}

/// The tokenizer reads the text of a plain form as the tokens of that form,
/// and goes on behind it.
pub proof fn lemma_lex_form(s: Seq<char>, i: int, f: Form)
    requires
        plain(f),
        holds_at(s, i, render(f)),
        boundary(s, i + render(f).len()),
    ensures
        render(f).len() >= 1,
        lex(s, i) == tokens_then(tokens_of(f), lex(s, i + render(f).len())),
    decreases f, 0nat,
{
    let text = render(f);
    let n = text.len() as int;
    assert(forall|k: int| 0 <= k < n ==> s[i + k] == #[trigger] s.subrange(i, i + n)[k]);
    match f {
        Form::Symbol(a) => {
            assert(s[i] == a[0]);
            assert forall|k: int| i + 1 <= k < i + n implies !ends_atom(#[trigger] s[k]) by {
                assert(s[k] == a[k - i]);
            }
            lemma_atom_end_run(s, i + 1, i + n);
            assert(token_at(s, i) == Some((Tok::Atom(a), i + n)));
        },
        Form::Str(t) => {
            assert(s[i] == t[0]);
            let e = i + n - 1;
            assert(s[e] == t[n - 1]);
            assert forall|k: int| i + 1 <= k < e implies #[trigger] s[k] != '"' by {
                assert(s[k] == t[k - i]);
            }
            if e > i + 1 {
                assert(s[e - 1] == t[n - 2]);
            }
            lemma_scan_plain(s, i + 1, seq!['"'], e);
            assert(seq!['"'] + s.subrange(i + 1, e + 1) =~= s.subrange(i, i + n));
            assert(token_at(s, i) == Some((Tok::Str(t), i + n)));
        },
        _ => {
            let (d, items) = parts(f)->0;
            let inner = render_rest(items, 0);
            let m = inner.len() as int;
            assert(text == seq![open_char(d)] + inner + seq![close_char(d)]);
            lemma_holds_at_split(s, i, seq![open_char(d)] + inner, seq![close_char(d)]);
            lemma_holds_at_split(s, i, seq![open_char(d)], inner);
            assert(s[i] == s.subrange(i, i + 1)[0]);
            assert(s[i] == open_char(d));
            let end = i + 1 + m;
            assert(s[end] == s.subrange(end, end + 1)[0]);
            assert(s[end] == close_char(d));
            lemma_lex_rest(s, i + 1, items, 0);
            assert(token_at(s, i) == Some((open_tok(d), i + 1)));
            assert(token_at(s, end) == Some((close_tok(d), end + 1)));
            assert(lex(s, end) == tokens_then(seq![close_tok(d)], lex(s, end + 1)));
            assert(lex(s, i) == tokens_then(seq![open_tok(d)], lex(s, i + 1)));
            lemma_tokens_then_twice(tokens_rest(items, 0), seq![close_tok(d)], lex(s, end + 1));
            lemma_tokens_then_twice(
                seq![open_tok(d)],
                tokens_rest(items, 0) + seq![close_tok(d)],
                lex(s, end + 1),
            );
            assert(seq![open_tok(d)] + (tokens_rest(items, 0) + seq![close_tok(d)]) =~= tokens_of(
                f,
            ));
        },
    }
}

/// The tokenizer reads the text of plain items as the tokens of those items,
/// and goes on behind them.
pub proof fn lemma_lex_rest(s: Seq<char>, i: int, items: Seq<Form>, k: nat)
    requires
        forall|j: int| 0 <= j < items.len() ==> plain(#[trigger] items[j]),
        k <= items.len(),
        holds_at(s, i, render_rest(items, k)),
        boundary(s, i + render_rest(items, k).len()),
    ensures
        lex(s, i) == tokens_then(tokens_rest(items, k), lex(s, i + render_rest(items, k).len())),
    decreases items, items.len() - k,
{
    if k >= items.len() {
        if let Some(r) = lex(s, i) {
            assert(Seq::<Tok>::empty() + r =~= r);
        }
    } else {
        let gap: Seq<char> = if k > 0 {
            seq![' ']
        } else {
            Seq::empty()
        };
        let item = render(items[k as int]);
        let rest = render_rest(items, k + 1);
        lemma_holds_at_split(s, i, gap + item, rest);
        lemma_holds_at_split(s, i, gap, item);
        let from = i + gap.len();
        let to = from + item.len();
        if k > 0 {
            assert(s[i] == s.subrange(i, i + 1)[0]);
            assert(is_separator(s[i]));
            assert(lex(s, i) == lex(s, from));
        }
        if k + 1 < items.len() {
            assert(rest =~= seq![' '] + render(items[k as int + 1]) + render_rest(items, k + 2));
            assert(rest[0] == ' ');
            assert(s[to] == s.subrange(to, to + rest.len())[0]);
            assert(is_separator(s[to]));
        } else {
            assert(rest.len() == 0);
        }
        lemma_lex_form(s, from, items[k as int]);
        lemma_lex_rest(s, to, items, k + 1);
        lemma_tokens_then_twice(
            tokens_of(items[k as int]),
            tokens_rest(items, k + 1),
            lex(s, to + rest.len()),
        );
    }
}

/// The text of a plain form reads as that form, and as nothing else.
pub proof fn lemma_plain_reads_back(f: Form)
    requires
        plain(f),
    ensures
        read_text(render(f)) == Ok::<Seq<Form>, ReaderError>(seq![f]),
{
    let s = render(f);
    let ts = tokens_of(f);
    assert(s.subrange(0, s.len() as int) =~= s);
    lemma_lex_form(s, 0, f);
    assert(ts + Seq::<Tok>::empty() =~= ts);
    assert(lex(s, 0) == Some(ts));
    assert(ts.subrange(0, ts.len() as int) =~= ts);
    lemma_read_tokens_of(ts, 0, f);
    assert(Seq::<Form>::empty().push(f) =~= seq![f]);
    assert(read_all(ts, ts.len() as int, seq![f]) == Ok::<Seq<Form>, ReaderError>(seq![f]));
}

/// What every token of the tokenizer is like: an atom is text that reads as
/// one atom, a string literal stands between its quotes.
pub open spec fn lexed_tok(t: Tok) -> bool {
    match t {
        Tok::Atom(a) => atom_text(a),
        Tok::Str(x) => quoted(x),
        _ => true,
    }
}

/// The reader macros.
pub open spec fn is_sugar(t: Tok) -> bool {
    t is Quote || t is BackQuote || t is Tilde || t is TildeAtSign || t is AtSign || t is Caret
}

/// A string literal in which a quote was escaped.
pub open spec fn has_escaped_quote(t: Tok) -> bool {
    match t {
        Tok::Str(x) => !no_inner_quote(x),
        _ => false,
    }
}

/// Tokens from which only plain forms are read.
pub open spec fn plain_tok(t: Tok) -> bool {
    lexed_tok(t) && !is_sugar(t) && !has_escaped_quote(t)
}

/// No character of an atom ends an atom.
pub proof fn lemma_atom_run(s: Seq<char>, j: int)
    requires
        0 <= j <= s.len(),
    ensures
        forall|k: int| j <= k < atom_end(s, j) ==> !ends_atom(#[trigger] s[k]),
    decreases s.len() - j,
{
    if j < s.len() && !ends_atom(s[j]) {
        lemma_atom_run(s, j + 1);
    }
}

/// What the tokenizer reads as a string literal starts with what was read
/// before, ends in a double quote, and has no backslash before that quote
/// among the characters it added.
pub proof fn lemma_scan_shape(s: Seq<char>, i: int, acc: Seq<char>)
    requires
        0 <= i <= s.len(),
    ensures
        scan_string(s, i, acc) matches Some((text, next)) ==> {
            &&& text.len() >= acc.len() + 1
            &&& text.subrange(0, acc.len() as int) == acc
            &&& text[text.len() - 1] == '"'
            &&& (s[i] != '"' ==> text.len() >= acc.len() + 2)
            &&& (text.len() >= acc.len() + 2 ==> text[text.len() - 2] != '\\')
        },
    decreases s.len() - i,
{
    if i < s.len() {
        if let Some((text, next)) = scan_string(s, i, acc) {
            if s[i] == '"' {
                assert(text.subrange(0, acc.len() as int) =~= acc);
            } else {
                let (grown, from) = if s[i] == '\\' && i + 1 < s.len() && s[i + 1] == '"' {
                    (acc.push('"'), i + 2)
                } else {
                    (acc.push(s[i]), i + 1)
                };
                lemma_scan_shape(s, from, grown);
                assert(scan_string(s, i, acc) == scan_string(s, from, grown));
                assert(text.subrange(0, acc.len() as int) =~= text.subrange(
                    0,
                    grown.len() as int,
                ).subrange(0, acc.len() as int));
                assert(text.subrange(0, grown.len() as int)[acc.len() as int] == text[acc.len() as int]);
            }
        }
    }
}

/// Every token that the tokenizer finds is an atom that reads as one atom,
/// a string literal between its quotes, or a token without text of its own.
pub proof fn lemma_token_at_shape(s: Seq<char>, i: int)
    requires
        0 <= i < s.len(),
        !is_separator(s[i]),
    ensures
        token_at(s, i) matches Some((t, next)) ==> lexed_tok(t),
{
    lemma_end_bounds(s, i + 1);
    lemma_atom_run(s, i + 1);
    lemma_scan_shape(s, i + 1, seq!['"']);
    if let Some((t, next)) = token_at(s, i) {
        match t {
            Tok::Atom(a) => {
                assert(a == s.subrange(i, atom_end(s, i + 1)));
                assert(a[0] == s[i]);
                assert forall|k: int| 1 <= k < a.len() implies !ends_atom(#[trigger] a[k]) by {
                    assert(a[k] == s[i + k]);
                }
            },
            Tok::Str(x) => {
                assert(x.subrange(0, 1)[0] == x[0]);
            },
            _ => {},
        }
    }
}

/// Every token of a text is as `lexed_tok` says.
pub proof fn lemma_lex_shape(s: Seq<char>, i: int)
    requires
        0 <= i <= s.len(),
    ensures
        lex(s, i) matches Some(ts) ==> forall|k: int| 0 <= k < ts.len() ==> lexed_tok(#[trigger] ts[k]),
    decreases s.len() - i,
{
    if i < s.len() {
        if is_separator(s[i]) {
            lemma_lex_shape(s, i + 1);
        } else if let Some((t, next)) = token_at(s, i) {
            lemma_token_at_bounds(s, i);
            lemma_token_at_shape(s, i);
            lemma_lex_shape(s, next);
        }
    }
}

/// From plain tokens the parser reads plain forms only.
pub proof fn lemma_read_plain(ts: Seq<Tok>, i: int, acc: Seq<Form>, d: Delim)
    requires
        0 <= i <= ts.len(),
        forall|k: int| 0 <= k < ts.len() ==> plain_tok(#[trigger] ts[k]),
        forall|k: int| 0 <= k < acc.len() ==> plain(#[trigger] acc[k]),
    ensures
        read_form(ts, i) matches Ok((f, next)) ==> plain(f),
        read_items(ts, i, acc, d) matches Ok((items, next)) ==> forall|k: int|
            0 <= k < items.len() ==> plain(#[trigger] items[k]),
        read_all(ts, i, acc) matches Ok(forms) ==> forall|k: int|
            0 <= k < forms.len() ==> plain(#[trigger] forms[k]),
    decreases ts.len() - i,
{
    if i < ts.len() {
        assert(plain_tok(ts[i]));
        lemma_read_plain(ts, i + 1, acc, d);
        if !(ts[i] is Comment) {
            if let Some(inner) = opener(ts[i]) {
                lemma_read_plain(ts, i + 1, Seq::empty(), inner);
            }
            if let Ok((x, next)) = read_form(ts, i) {
                lemma_read_bounds(ts, i, acc, d);
                assert forall|k: int| 0 <= k < acc.push(x).len() implies plain(
                    #[trigger] acc.push(x)[k],
                ) by {
                    if k < acc.len() {
                        assert(acc.push(x)[k] == acc[k]);
                    }
                }
                lemma_read_plain(ts, next, acc.push(x), d);
            }
        }
    }
}

/// Rendering a form that was read, and reading the text again, gives that
/// form and nothing else: for every form of a text that holds no reader
/// macro and no string literal with an escaped quote.
pub proof fn lemma_rendered_form_reads_back(text: Seq<char>, k: int)
    requires
        lex(text, 0) matches Some(ts) && forall|j: int|
            0 <= j < ts.len() ==> !is_sugar(#[trigger] ts[j]) && !has_escaped_quote(ts[j]),
        read_text(text) matches Ok(forms) && 0 <= k < forms.len(),
    ensures
        read_text(render(read_text(text)->Ok_0[k])) == Ok::<Seq<Form>, ReaderError>(
            seq![read_text(text)->Ok_0[k]],
        ),
{
    let ts = lex(text, 0)->0;
    lemma_lex_shape(text, 0);
    lemma_read_plain(ts, 0, Seq::empty(), Delim::Paren);
    lemma_plain_reads_back(read_text(text)->Ok_0[k]);
}

} // verus!
