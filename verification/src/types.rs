//! The values that the reader builds, and their mathematical model.

use vstd::prelude::*;
use vstd::string::StringExecFns;

verus! {

/// The model of a value: what a parsed form is, apart from how it is stored.
pub enum Form {
    Symbol(Seq<char>),
    Str(Seq<char>),
    List(Seq<Form>),
    Vector(Seq<Form>),
    Dict(Seq<Form>),
    Number(int),
    Keyword(Seq<char>),
    Boolean(bool),
    Nil,
}

/// A piece of text that stands for itself: the raw text of an atom.
#[derive(Debug, PartialEq, Eq)]
pub struct AtomValue(pub String);

impl View for AtomValue {
    type V = Seq<char>;

    open spec fn view(&self) -> Seq<char> {
        self.0@
    }
}

/// An ordered run of values that owns its elements.
#[derive(Debug, PartialEq, Eq)]
pub struct ListValue(pub Vec<MalValue>);

/// A parsed value.
#[derive(Debug, PartialEq, Eq)]
pub enum MalValue {
    Symbol(AtomValue),
    Str(String),
    List(ListValue),
    Vector(ListValue),
    Dict(ListValue),
    Number(i64),
    Keyword(String),
    Boolean(bool),
    Nil,
}

impl MalValue {
    pub open spec fn view(&self) -> Form
        decreases self,
    {
        match self {
            MalValue::Symbol(a) => Form::Symbol(a@),
            MalValue::Str(s) => Form::Str(s@),
            MalValue::List(l) => Form::List(l.view()),
            MalValue::Vector(l) => Form::Vector(l.view()),
            MalValue::Dict(l) => Form::Dict(l.view()),
            MalValue::Number(n) => Form::Number(*n as int),
            MalValue::Keyword(s) => Form::Keyword(s@),
            MalValue::Boolean(b) => Form::Boolean(*b),
            MalValue::Nil => Form::Nil,
        }
    }
}

impl ListValue {
    pub open spec fn view(&self) -> Seq<Form>
        decreases self,
    {
        Seq::new(self.0@.len(), |i: int| if 0 <= i < self.0@.len() { self.0@[i].view() } else { Form::Nil })
    }

    /// The empty list.
    pub fn new() -> (list: ListValue)
        ensures
            list@ == Seq::<Form>::empty(),
    {
        let list = ListValue(Vec::new());
        assert(list@ =~= Seq::<Form>::empty());
        list
    }

    /// Appends `value` behind the elements that the list holds.
    pub fn push(&mut self, value: MalValue)
        ensures
            final(self)@ == old(self)@.push(value@),
    {
        self.0.push(value);
        assert(self@ =~= old(self)@.push(value@));
    }
}

/// The character of the decimal digit `d`.
pub open spec fn digit_char(d: int) -> char {
    if d == 0 {
        '0'
    } else if d == 1 {
        '1'
    } else if d == 2 {
        '2'
    } else if d == 3 {
        '3'
    } else if d == 4 {
        '4'
    } else if d == 5 {
        '5'
    } else if d == 6 {
        '6'
    } else if d == 7 {
        '7'
    } else if d == 8 {
        '8'
    } else {
        '9'
    }
}

/// The decimal digits of `n`, without leading zeros.
pub open spec fn digits(n: nat) -> Seq<char>
    decreases n,
{
    if n < 10 {
        seq![digit_char(n as int)]
    } else {
        digits(n / 10).push(digit_char((n % 10) as int))
    }
}

/// `n` in decimal, with a minus sign where it is negative.
pub open spec fn decimal(n: int) -> Seq<char> {
    if n < 0 {
        seq!['-'] + digits((-n) as nat)
    } else {
        digits(n as nat)
    }
}

/// The text of a form: a collection is its items between its delimiters,
/// with one space between neighbours; anything else is its own text.
pub open spec fn render(f: Form) -> Seq<char>
    decreases f, 0nat,
{
    match f {
        Form::Symbol(s) => s,
        Form::Str(s) => s,
        Form::Keyword(s) => s,
        Form::List(items) => seq!['('] + render_rest(items, 0) + seq![')'],
        Form::Vector(items) => seq!['['] + render_rest(items, 0) + seq![']'],
        Form::Dict(items) => seq!['{'] + render_rest(items, 0) + seq!['}'],
        Form::Number(n) => decimal(n),
        Form::Boolean(b) => if b {
            "true"@
        } else {
            "false"@
        },
        Form::Nil => "nil"@,
    }
}

/// The text of the items from the `k`-th on, each but the very first of the
/// collection with a space before it.
pub open spec fn render_rest(items: Seq<Form>, k: nat) -> Seq<char>
    decreases items, items.len() - k,
{
    if k >= items.len() {
        Seq::empty()
    } else {
        (if k > 0 {
            seq![' ']
        } else {
            Seq::empty()
        }) + render(items[k as int]) + render_rest(items, k + 1)
    }
}

fn digit(d: u64) -> (c: char)
    requires
        d < 10,
    ensures
        c == digit_char(d as int),
{
    if d == 0 {
        '0'
    } else if d == 1 {
        '1'
    } else if d == 2 {
        '2'
    } else if d == 3 {
        '3'
    } else if d == 4 {
        '4'
    } else if d == 5 {
        '5'
    } else if d == 6 {
        '6'
    } else if d == 7 {
        '7'
    } else if d == 8 {
        '8'
    } else {
        '9'
    }
}

fn push_digits(out: &mut String, n: u64)
    ensures
        final(out)@ == old(out)@ + digits(n as nat),
    decreases n,
{
    if n >= 10 {
        push_digits(out, n / 10);
    }
    out.push(digit(n % 10));
    assert(out@ =~= old(out)@ + digits(n as nat));
}

fn push_decimal(out: &mut String, n: i64)
    ensures
        final(out)@ == old(out)@ + decimal(n as int),
{
    if n < 0 {
        out.push('-');
        let m: u64 = (0 - (n as i128)) as u64;
        push_digits(out, m);
        assert(out@ =~= old(out)@ + decimal(n as int));
    } else {
        push_digits(out, n as u64);
    }
}

impl MalValue {
    /// Appends the text of the value to `out`.
    pub fn render_into(&self, out: &mut String)
        ensures
            final(out)@ == old(out)@ + render(self@),
        decreases self, 0nat,
    {
        match self {
            MalValue::Symbol(a) => out.append(a.0.as_str()),
            MalValue::Str(s) => out.append(s.as_str()),
            MalValue::Keyword(s) => out.append(s.as_str()),
            MalValue::List(l) => {
                out.push('(');
                l.render_items_into(out);
                out.push(')');
                assert(out@ =~= old(out)@ + render(self@));
            },
            MalValue::Vector(l) => {
                out.push('[');
                l.render_items_into(out);
                out.push(']');
                assert(out@ =~= old(out)@ + render(self@));
            },
            MalValue::Dict(l) => {
                out.push('{');
                l.render_items_into(out);
                out.push('}');
                assert(out@ =~= old(out)@ + render(self@));
            },
            MalValue::Number(n) => push_decimal(out, *n),
            MalValue::Boolean(b) => if *b {
                out.append("true")
            } else {
                out.append("false")
            },
            MalValue::Nil => out.append("nil"),
        }
    }

    /// The text of the value.
    pub fn to_text(&self) -> (text: String)
        ensures
            text@ == render(self@),
    {
        let mut text = String::new();
        self.render_into(&mut text);
        assert(text@ =~= render(self@));
        text
    }
}

impl AtomValue {
    /// The text of the atom: the atom itself.
    pub fn to_text(&self) -> (text: String)
        ensures
            text@ == self@,
    {
        self.0.clone()
    }
}

impl ListValue {
    /// Appends the text of the items to `out`, with one space between
    /// neighbours.
    pub fn render_items_into(&self, out: &mut String)
        ensures
            final(out)@ == old(out)@ + render_rest(self@, 0),
        decreases self, 1nat,
    {
        let n = self.0.len();
        let mut k: usize = 0;
        while k < n
            invariant
                k <= n,
                n == self.0.len(),
                n == self@.len(),
                old(out)@ + render_rest(self@, 0) == out@ + render_rest(self@, k as nat),
            decreases n - k,
        {
            let ghost before = out@;
            if k > 0 {
                out.push(' ');
            }
            self.0[k].render_into(out);
            assert(self@[k as int] == self.0@[k as int]@);
            assert(before + render_rest(self@, k as nat) =~= out@ + render_rest(
                self@,
                (k + 1) as nat,
            ));
            k += 1;
        }
        assert(out@ + render_rest(self@, n as nat) =~= out@);
    }

    /// The text of the list: its items between parentheses.
    pub fn to_text(&self) -> (text: String)
        ensures
            text@ == render(Form::List(self@)),
    {
        let mut text = String::new();
        text.push('(');
        self.render_items_into(&mut text);
        text.push(')');
        assert(text@ =~= render(Form::List(self@)));
        text
    }

    /// The number of items.
    pub fn len(&self) -> (n: usize)
        ensures
            n == self@.len(),
    {
        self.0.len()
    }
}

} // verus!
