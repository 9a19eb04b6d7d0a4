//! Laws that hold of every value and configuration.

use vstd::prelude::*;
use crate::text::{decimal_of, digit_char, digits_in, hex_of, signed_decimal_of};
use crate::value::{bool_text, escaped, join, ColorModel, ValueModel};

verus! {

/// The characters that the document form adds around strings and lists:
/// quotes, brackets and the comma between list items.
pub open spec fn is_doc_mark(c: char) -> bool {
    c == '"' || c == '[' || c == ']' || c == ','
}

proof fn lemma_digits_unmarked(n: nat, b: nat, c: char)
    requires
        2 <= b <= 16,
        is_doc_mark(c),
    ensures
        !digits_in(n, b).contains(c),
    decreases n,
{
    assert forall|d: nat| d < 16 implies digit_char(d) != c by {
        if d < 10 {
            assert(((d + 48) as u8) as char != c);
        } else {
            assert(((d + 87) as u8) as char != c);
        }
    }
    if n >= b {
        assert(n / b < n) by (nonlinear_arith)
            requires
                b >= 2,
                n >= b,
        ;
        assert(n % b < b) by (nonlinear_arith)
            requires
                b >= 2,
        ;
        lemma_digits_unmarked(n / b, b, c);
        let s = digits_in(n, b);
        assert(s == digits_in(n / b, b).push(digit_char(n % b)));
        if s.contains(c) {
            let i = choose|i: int| 0 <= i < s.len() && s[i] == c;
            if i < s.len() - 1 {
                assert(digits_in(n / b, b)[i] == c);
            }
        }
    } else {
        assert(digits_in(n, b) == seq![digit_char(n)]);
        assert(digits_in(n, b)[0] != c);
    }
}


proof fn lemma_join_contains(parts: Seq<Seq<char>>, sep: Seq<char>, c: char)
    requires
        !sep.contains(c),
        forall|i: int| 0 <= i < parts.len() ==> !(#[trigger] parts[i]).contains(c),
    ensures
        !join(parts, sep).contains(c),
    decreases parts.len(),
{
    if parts.len() > 1 {
        let front = parts.drop_last();
        assert forall|i: int| 0 <= i < front.len() implies !(#[trigger] front[i]).contains(c) by {
            assert(front[i] == parts[i]);
        }
        lemma_join_contains(front, sep, c);
        let a = join(front, sep);
        let last = parts[parts.len() - 1];
        let s = a + sep + last;
        if s.contains(c) {
            let i = choose|i: int| 0 <= i < s.len() && s[i] == c;
            if i < a.len() {
                assert(a[i] == c);
            } else if i < a.len() + sep.len() {
                assert(sep[i - a.len()] == c);
            } else {
                assert(last[i - a.len() - sep.len()] == c);
            }
        }
    } else if parts.len() == 1 {
        assert(join(parts, sep) == parts[0]);
    }
}

proof fn lemma_numbers_unmarked(n: nat, i: int, c: char)
    requires
        is_doc_mark(c),
    ensures
        !decimal_of(n).contains(c),
        !(seq!['#'] + hex_of(n)).contains(c),
        !signed_decimal_of(i).contains(c),
{
    lemma_digits_unmarked(n, 10, c);
    lemma_digits_unmarked(n, 16, c);
    let h = seq!['#'] + hex_of(n);
    if h.contains(c) {
        let k = choose|k: int| 0 <= k < h.len() && h[k] == c;
        if k > 0 {
            assert(hex_of(n)[k - 1] == c);
        }
    }
    if i < 0 {
        lemma_digits_unmarked((-i) as nat, 10, c);
        let d = seq!['-'] + decimal_of((-i) as nat);
        if d.contains(c) {
            let k = choose|k: int| 0 <= k < d.len() && d[k] == c;
            if k > 0 {
                assert(decimal_of((-i) as nat)[k - 1] == c);
            }
        }
    } else {
        lemma_digits_unmarked(i as nat, 10, c);
    }
}

/// A color keyword, if the color is one, does not hold `c`.
pub open spec fn color_free_of(col: ColorModel, c: char) -> bool {
    match col {
        ColorModel::Text(s) => !s.contains(c),
        ColorModel::Number(_) => true,
    }
}

/// No string that the value holds (its text, or a color keyword) holds `c`.
pub open spec fn texts_free_of(v: ValueModel, c: char) -> bool {
    match v {
        ValueModel::Text(s) => !s.contains(c),
        ValueModel::Colors(cs) => forall|i: int| 0 <= i < cs.len() ==> color_free_of(#[trigger] cs[i], c),
        _ => true,
    }
}

/// The Git form adds none of the document form's quotes, brackets or list
/// commas: a string's Git form is the string itself, and a Git form holds
/// such a character only where a string of the value holds it.
pub proof fn lemma_git_form_unquoted(v: ValueModel, c: char)
    requires
        is_doc_mark(c),
        texts_free_of(v, c),
    ensures
        !v.git_form().contains(c),
        v matches ValueModel::Text(s) ==> v.git_form() == s,
{
    match v {
        ValueModel::Boolean(b) => {
            let t = bool_text(b);
            if t.contains(c) {
                let k = choose|k: int| 0 <= k < t.len() && t[k] == c;
                assert(t[k] != c);
            }
        },
        ValueModel::Integer(i) => {
            lemma_numbers_unmarked(0, i as int, c);
        },
        ValueModel::Text(s) => {},
        ValueModel::Colors(cs) => {
            let parts = cs.map_values(|col: ColorModel| col.git_form());
            assert forall|i: int| 0 <= i < parts.len() implies !(#[trigger] parts[i]).contains(c) by {
                assert(color_free_of(cs[i], c));
                match cs[i] {
                    ColorModel::Number(n) => {
                        lemma_numbers_unmarked(n as nat, 0, c);
                    },
                    ColorModel::Text(_) => {},
                }
            }
            let sep = seq![' '];
            if sep.contains(c) {
                let k = choose|k: int| 0 <= k < sep.len() && sep[k] == c;
                assert(sep[k] == ' ');
            }
            lemma_join_contains(parts, sep, c);
        },
    }
}


/// A string that holds a line break is written between triple quotes, with
/// its line breaks kept as they are and only backslash, quote and tab
/// escaped; one without is written between single quotes.
pub proof fn lemma_line_breaks_take_triple_quotes(s: Seq<char>)
    ensures
        s.contains('\n') ==> ValueModel::Text(s).doc_form() == seq!['"', '"', '"'] + escaped(s) + seq!['"', '"', '"'],
        !s.contains('\n') ==> ValueModel::Text(s).doc_form() == seq!['"'] + escaped(s) + seq!['"'],
{
}

} // verus!
