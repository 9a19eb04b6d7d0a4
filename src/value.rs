//! Typed configuration values and the two textual forms of each: the form
//! kept in the profile document, and the form that `git config` takes.

use vstd::prelude::*;
use crate::text::{
    decimal_of, hex_of, push_char, push_decimal, push_hex, push_signed_decimal,
    signed_decimal_of,
};

verus! {

/// A type that has a textual form for Git's command line.
pub trait ToGitString {
    fn to_git_string(&self) -> String;
}

/// A type that can be read from a value that Git prints.
pub trait FromGitStr: Sized {
    fn from_git_str(s: &str) -> Result<Self, String>;
}

/// One entry of a Git color setting: a palette index or 24-bit code, or a
/// color or attribute keyword such as `red` or `bold`.
#[derive(Debug, Clone, PartialEq, Eq)]
pub enum Color {
    Number(u32),
    String(String),
}

/// A typed configuration value.
#[derive(Debug, Clone, PartialEq, Eq)]
pub enum Value {
    Boolean(bool),
    ColorArray(Vec<Color>),
    Integer(i64),
    String(String),
}

/// What a `Color` stands for.
pub enum ColorModel {
    Number(u32),
    Text(Seq<char>),
}

/// What a `Value` stands for.
pub enum ValueModel {
    Boolean(bool),
    Colors(Seq<ColorModel>),
    Integer(i64),
    Text(Seq<char>),
}

impl View for Color {
    type V = ColorModel;

    open spec fn view(&self) -> ColorModel {
        match self {
            Color::Number(n) => ColorModel::Number(*n),
            Color::String(s) => ColorModel::Text(s@),
        }
    }
}

impl View for Value {
    type V = ValueModel;

    open spec fn view(&self) -> ValueModel {
        match self {
            Value::Boolean(b) => ValueModel::Boolean(*b),
            Value::ColorArray(cs) => ValueModel::Colors(cs@.map_values(|c: Color| c@)),
            Value::Integer(i) => ValueModel::Integer(*i),
            Value::String(s) => ValueModel::Text(s@),
        }
    }
}

pub open spec fn true_text() -> Seq<char> {
    seq!['t', 'r', 'u', 'e']
}

pub open spec fn false_text() -> Seq<char> {
    seq!['f', 'a', 'l', 's', 'e']
}

pub open spec fn bool_text(b: bool) -> Seq<char> {
    if b {
        true_text()
    } else {
        false_text()
    }
}

/// The parts joined, with `sep` between each two.
pub open spec fn join(parts: Seq<Seq<char>>, sep: Seq<char>) -> Seq<char>
    decreases parts.len(),
{
    if parts.len() == 0 {
        Seq::empty()
    } else if parts.len() == 1 {
        parts[0]
    } else {
        join(parts.drop_last(), sep) + sep + parts.last()
    }
}

/// How one character of a string is written between quotes.
pub open spec fn escape_char(c: char) -> Seq<char> {
    if c == '\\' {
        seq!['\\', '\\']
    } else if c == '"' {
        seq!['\\', '"']
    } else if c == '\t' {
        seq!['\\', 't']
    } else {
        seq![c]
    }
}

/// A string with backslash, quote and tab escaped.
pub open spec fn escaped(s: Seq<char>) -> Seq<char>
    decreases s.len(),
{
    if s.len() == 0 {
        Seq::empty()
    } else {
        escaped(s.drop_last()) + escape_char(s.last())
    }
}

/// A string as the document holds it: between triple quotes when it holds
/// a line break, else between single quotes.
pub open spec fn quoted(s: Seq<char>) -> Seq<char> {
    if s.contains('\n') {
        seq!['"', '"', '"'] + escaped(s) + seq!['"', '"', '"']
    } else {
        seq!['"'] + escaped(s) + seq!['"']
    }
}

impl ColorModel {
    /// The document form: decimal below 256, `0x` and hexadecimal from 256
    /// on, a keyword between quotes.
    pub open spec fn doc_form(self) -> Seq<char> {
        match self {
            ColorModel::Number(n) => if n < 256 {
                decimal_of(n as nat)
            } else {
                seq!['0', 'x'] + hex_of(n as nat)
            },
            ColorModel::Text(s) => seq!['"'] + s + seq!['"'],
        }
    }

    /// The Git form: decimal below 256, `#` and hexadecimal from 256 on, a
    /// keyword as it is.
    pub open spec fn git_form(self) -> Seq<char> {
        match self {
            ColorModel::Number(n) => if n < 256 {
                decimal_of(n as nat)
            } else {
                seq!['#'] + hex_of(n as nat)
            },
            ColorModel::Text(s) => s,
        }
    }
}

impl ValueModel {
    /// The document form of the value.
    pub open spec fn doc_form(self) -> Seq<char> {
        match self {
            ValueModel::Boolean(b) => bool_text(b),
            ValueModel::Colors(cs) => seq!['['] + join(
                cs.map_values(|c: ColorModel| c.doc_form()),
                seq![',', ' '],
            ) + seq![']'],
            ValueModel::Integer(i) => signed_decimal_of(i as int),
            ValueModel::Text(s) => quoted(s),
        }
    }

    /// The Git form of the value.
    pub open spec fn git_form(self) -> Seq<char> {
        match self {
            ValueModel::Boolean(b) => bool_text(b),
            ValueModel::Colors(cs) => join(cs.map_values(|c: ColorModel| c.git_form()), seq![' ']),
            ValueModel::Integer(i) => signed_decimal_of(i as int),
            ValueModel::Text(s) => s,
        }
    }
}


/// Appends `s` to `out`.
pub(crate) fn push_str(out: &mut String, s: &str)
    ensures
        final(out)@ == old(out)@ + s@,
{
    out.append(s);
}

pub(crate) fn push_bool(out: &mut String, b: bool)
    ensures
        final(out)@ == old(out)@ + bool_text(b),
{
    if b {
        proof {
            reveal_strlit("true");
        }
        push_str(out, "true");
    } else {
        proof {
            reveal_strlit("false");
        }
        push_str(out, "false");
    }
}

fn has_line_break(s: &str) -> (r: bool)
    ensures
        r == s@.contains('\n'),
{
    let n = s.unicode_len();
    let mut i: usize = 0;
    while i < n
        invariant
            n == s@.len(),
            i <= n,
            forall|j: int| 0 <= j < i ==> s@[j] != '\n',
        decreases n - i,
    {
        if s.get_char(i) == '\n' {
            return true;
        }
        i = i + 1;
    }
    false
}

fn push_escaped(out: &mut String, s: &str)
    ensures
        final(out)@ == old(out)@ + escaped(s@),
{
    let n = s.unicode_len();
    let mut i: usize = 0;
    while i < n
        invariant
            n == s@.len(),
            i <= n,
            out@ == old(out)@ + escaped(s@.take(i as int)),
        decreases n - i,
    {
        let c = s.get_char(i);
        if c == '\\' || c == '"' || c == '\t' {
            push_char(out, '\\');
            push_char(out, if c == '\\' { '\\' } else if c == '"' { '"' } else { 't' });
        } else {
            push_char(out, c);
        }
        proof {
            assert(s@.take(i + 1).drop_last() =~= s@.take(i as int));
            assert(out@ =~= old(out)@ + escaped(s@.take(i + 1)));
        }
        i = i + 1;
    }
    assert(s@.take(n as int) =~= s@);
}

fn push_quoted(out: &mut String, s: &str)
    ensures
        final(out)@ == old(out)@ + quoted(s@),
{
    if has_line_break(s) {
        proof {
            reveal_strlit("\"\"\"");
        }
        push_str(out, "\"\"\"");
        push_escaped(out, s);
        push_str(out, "\"\"\"");
        assert(final(out)@ =~= old(out)@ + quoted(s@));
    } else {
        push_char(out, '"');
        push_escaped(out, s);
        push_char(out, '"');
        assert(final(out)@ =~= old(out)@ + quoted(s@));
    }
}

impl Color {
    /// The document form: decimal below 256, `0x` and hexadecimal from 256
    /// on, a keyword between quotes.
    pub fn to_string(&self) -> (r: String)
        ensures
            r@ == self@.doc_form(),
    {
        let mut out = String::new();
        match self {
            Color::Number(n) => {
                if *n < 256 {
                    push_decimal(&mut out, *n as u64);
                } else {
                    push_char(&mut out, '0');
                    push_char(&mut out, 'x');
                    push_hex(&mut out, *n as u64);
                }
            },
            Color::String(s) => {
                push_char(&mut out, '"');
                push_str(&mut out, s.as_str());
                push_char(&mut out, '"');
            },
        }
        assert(out@ =~= self@.doc_form());
        out
    }
}

impl ToGitString for Color {
    /// The Git form: decimal below 256, `#` and hexadecimal from 256 on, a
    /// keyword as it is.
    fn to_git_string(&self) -> (r: String)
        ensures
            r@ == self@.git_form(),
    {
        let mut out = String::new();
        match self {
            Color::Number(n) => {
                if *n < 256 {
                    push_decimal(&mut out, *n as u64);
                } else {
                    push_char(&mut out, '#');
                    push_hex(&mut out, *n as u64);
                }
            },
            Color::String(s) => {
                push_str(&mut out, s.as_str());
            },
        }
        assert(out@ =~= self@.git_form());
        out
    }
}

/// The document forms of the colors, in order.
pub open spec fn color_doc_forms(cs: Seq<Color>) -> Seq<Seq<char>> {
    cs.map_values(|c: Color| c@.doc_form())
}

/// The Git forms of the colors, in order.
pub open spec fn color_git_forms(cs: Seq<Color>) -> Seq<Seq<char>> {
    cs.map_values(|c: Color| c@.git_form())
}

/// Appends each color's form, in order, with `sep` between each two; the
/// form is the document one if `doc`, else the Git one.
fn push_colors(out: &mut String, cs: &Vec<Color>, sep: &str, doc: bool)
    ensures
        final(out)@ == old(out)@ + join(
            if doc {
                color_doc_forms(cs@)
            } else {
                color_git_forms(cs@)
            },
            sep@,
        ),
{
    let ghost parts = if doc {
        color_doc_forms(cs@)
    } else {
        color_git_forms(cs@)
    };
    let mut i: usize = 0;
    while i < cs.len()
        invariant
            i <= cs@.len(),
            parts == (if doc {
                color_doc_forms(cs@)
            } else {
                color_git_forms(cs@)
            }),
            out@ == old(out)@ + join(parts.take(i as int), sep@),
        decreases cs@.len() - i,
    {
        if i > 0 {
            push_str(out, sep);
        }
        let f = if doc { cs[i].to_string() } else { cs[i].to_git_string() };
        push_str(out, f.as_str());
        proof {
            assert(parts.take(i + 1).drop_last() =~= parts.take(i as int));
            assert(parts.take(i + 1).last() == f@);
            if i == 0 {
                assert(join(parts.take(1), sep@) == parts.take(1)[0]);
            }
            assert(out@ =~= old(out)@ + join(parts.take(i + 1), sep@));
        }
        i = i + 1;
    }
    assert(parts.take(cs@.len() as int) =~= parts);
}

impl Value {
    /// The document form: `true`/`false`, decimal, a quoted string, or a
    /// bracketed list of colors.
    pub fn to_string(&self) -> (r: String)
        ensures
            r@ == self@.doc_form(),
    {
        let mut out = String::new();
        match self {
            Value::Boolean(b) => push_bool(&mut out, *b),
            Value::ColorArray(cs) => {
                push_char(&mut out, '[');
                proof {
                    reveal_strlit(", ");
                }
                push_colors(&mut out, cs, ", ", true);
                push_char(&mut out, ']');
                proof {
                    let a = cs@.map_values(|c: Color| c@).map_values(|c: ColorModel| c.doc_form());
                    let b = color_doc_forms(cs@);
                    assert(a =~= b);
                    assert(", "@ =~= seq![',', ' ']);
                    assert(out@ =~= seq!['['] + join(a, seq![',', ' ']) + seq![']']);
                }
            },
            Value::Integer(i) => push_signed_decimal(&mut out, *i),
            Value::String(s) => push_quoted(&mut out, s.as_str()),
        }
        assert(out@ =~= self@.doc_form());
        out
    }
}

impl ToGitString for Value {
    /// The Git form: `true`/`false`, decimal, the raw string, or the colors'
    /// Git forms separated by spaces.
    fn to_git_string(&self) -> (r: String)
        ensures
            r@ == self@.git_form(),
    {
        let mut out = String::new();
        match self {
            Value::Boolean(b) => push_bool(&mut out, *b),
            Value::ColorArray(cs) => {
                proof {
                    reveal_strlit(" ");
                }
                push_colors(&mut out, cs, " ", false);
                proof {
                    let a = cs@.map_values(|c: Color| c@).map_values(|c: ColorModel| c.git_form());
                    let b = color_git_forms(cs@);
                    assert(a =~= b);
                    assert(" "@ =~= seq![' ']);
                    assert(out@ =~= join(a, seq![' ']));
                }
            },
            Value::Integer(i) => push_signed_decimal(&mut out, *i),
            Value::String(s) => push_str(&mut out, s.as_str()),
        }
        assert(out@ =~= self@.git_form());
        out
    }
}


pub open spec fn is_digit(c: char) -> bool {
    '0' <= c <= '9'
}

/// The number that a sequence of decimal digits writes.
pub open spec fn digits_value(s: Seq<char>) -> nat
    decreases s.len(),
{
    if s.len() == 0 {
        0
    } else {
        digits_value(s.drop_last()) * 10 + ((s.last() as u32) - 48) as nat
    }
}

pub open spec fn all_digits(s: Seq<char>) -> bool {
    s.len() > 0 && forall|i: int| 0 <= i < s.len() ==> is_digit(#[trigger] s[i])
}

/// The integer that `s` writes: an optional `+` or `-`, then one or more
/// decimal digits and nothing else.
pub open spec fn integer_text(s: Seq<char>) -> Option<int> {
    if s.len() > 0 && (s[0] == '-' || s[0] == '+') {
        if all_digits(s.drop_first()) {
            if s[0] == '-' {
                Some(-(digits_value(s.drop_first()) as int))
            } else {
                Some(digits_value(s.drop_first()) as int)
            }
        } else {
            None
        }
    } else if all_digits(s) {
        Some(digits_value(s) as int)
    } else {
        None
    }
}

/// The 64-bit integer that `s` writes, if it writes one in range.
pub open spec fn i64_text(s: Seq<char>) -> Option<i64> {
    match integer_text(s) {
        Some(v) => if i64::MIN <= v <= i64::MAX {
            Some(v as i64)
        } else {
            None
        },
        None => None,
    }
}

/// Relies on `<bool as FromStr>::from_str`: `true` and `false` are read,
/// any other text is an error.
#[verifier::external_body]
fn parse_bool(s: &str) -> (r: Option<bool>)
    ensures
        r == (if s@ == true_text() {
            Some(true)
        } else if s@ == false_text() {
            Some(false)
        } else {
            None
        }),
{
    s.parse::<bool>().ok()
}

/// Relies on `<i64 as FromStr>::from_str`: an optional sign followed by
/// decimal digits only is read when its value fits, any other text is an
/// error.
#[verifier::external_body]
fn parse_i64(s: &str) -> (r: Option<i64>)
    ensures
        r == i64_text(s@),
{
    s.parse::<i64>().ok()
}

/// How a value that Git prints is read: a boolean if it is `true` or
/// `false`, else an integer if it writes one that fits in 64 bits, else the
/// text itself.
pub open spec fn git_text_value(s: Seq<char>) -> ValueModel {
    if s == true_text() {
        ValueModel::Boolean(true)
    } else if s == false_text() {
        ValueModel::Boolean(false)
    } else {
        match i64_text(s) {
            Some(i) => ValueModel::Integer(i),
            None => ValueModel::Text(s),
        }
    }
}

impl FromGitStr for Value {
    /// Reads a value that Git prints: a boolean, else an integer, else the
    /// text. Never fails and never gives a color list.
    fn from_git_str(s: &str) -> (r: Result<Value, String>)
        ensures
            r matches Ok(v) && v@ == git_text_value(s@),
    {
        if let Some(b) = parse_bool(s) {
            Ok(Value::Boolean(b))
        } else if let Some(i) = parse_i64(s) {
            Ok(Value::Integer(i))
        } else {
            Ok(Value::String(String::from_str(s)))
        }
    }
}

} // verus!
