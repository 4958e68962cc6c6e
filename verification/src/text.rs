use vstd::prelude::*;
use vstd::string::StrSliceExecFns;
use vstd::string::StringExecFns;
use crate::value::Number;
use crate::tree::DisplayTree;
use crate::tree::TreeV;
use crate::tree::items_view;
use crate::tree::fields_view;
use crate::tree::lemma_items_view;
use crate::tree::lemma_fields_view;

verus! {

broadcast use vstd::std_specs::vec::axiom_vec_decreases_to_view;

/// The text that the display model's number formatter produces for a decimal
/// number with the given sign, mantissa and exponent. It depends on these
/// three arguments alone.
pub uninterp spec fn number_text_of(positive: bool, mantissa: u64, exponent: i16) -> Seq<char>;

pub open spec fn digit_char(d: u64) -> char {
    if d == 0 { '0' }
    else if d == 1 { '1' }
    else if d == 2 { '2' }
    else if d == 3 { '3' }
    else if d == 4 { '4' }
    else if d == 5 { '5' }
    else if d == 6 { '6' }
    else if d == 7 { '7' }
    else if d == 8 { '8' }
    else { '9' }
}

pub open spec fn hex_char(d: u32) -> char {
    if d == 0 { '0' }
    else if d == 1 { '1' }
    else if d == 2 { '2' }
    else if d == 3 { '3' }
    else if d == 4 { '4' }
    else if d == 5 { '5' }
    else if d == 6 { '6' }
    else if d == 7 { '7' }
    else if d == 8 { '8' }
    else if d == 9 { '9' }
    else if d == 10 { 'a' }
    else if d == 11 { 'b' }
    else if d == 12 { 'c' }
    else if d == 13 { 'd' }
    else if d == 14 { 'e' }
    else { 'f' }
}

/// The decimal digits of `n`, most significant first.
pub open spec fn dec_digits(n: u64) -> Seq<char>
    decreases n,
{
    if n < 10 {
        seq![digit_char(n)]
    } else {
        dec_digits(n / 10).push(digit_char(n % 10))
    }
}

/// The text of a number: integers (exponent 0) print as an optional minus
/// sign and their decimal digits; any other exponent is rendered by the
/// outside number formatter.
pub open spec fn number_text(n: Number) -> Seq<char> {
    if n.exponent == 0 {
        if !n.positive && n.mantissa > 0 {
            seq!['-'] + dec_digits(n.mantissa)
        } else {
            dec_digits(n.mantissa)
        }
    } else {
        number_text_of(n.positive, n.mantissa, n.exponent)
    }
}

/// How one character is written inside a quoted string: quotes, backslashes
/// and control characters are escaped, everything else stands as itself.
pub open spec fn escape_char(c: char) -> Seq<char> {
    if c == '"' { seq!['\\', '"'] }
    else if c == '\\' { seq!['\\', '\\'] }
    else if c == '\n' { seq!['\\', 'n'] }
    else if c == '\r' { seq!['\\', 'r'] }
    else if c == '\t' { seq!['\\', 't'] }
    else if c == '\u{8}' { seq!['\\', 'b'] }
    else if c == '\u{c}' { seq!['\\', 'f'] }
    else if (c as u32) < 32 {
        seq!['\\', 'u', '0', '0', hex_char((c as u32) / 16), hex_char((c as u32) % 16)]
    } else {
        seq![c]
    }
}

pub open spec fn escape_text(s: Seq<char>) -> Seq<char>
    decreases s.len(),
{
    if s.len() == 0 {
        Seq::empty()
    } else {
        escape_text(s.drop_last()) + escape_char(s.last())
    }
}

proof fn lemma_escape_text_step(s: Seq<char>, i: int)
    requires
        0 <= i < s.len(),
    ensures
        escape_text(s.take(i + 1)) == escape_text(s.take(i)) + escape_char(s[i]),
{
    assert(s.take(i + 1).drop_last() =~= s.take(i));
    assert(s.take(i + 1).last() == s[i]);
}

fn digit_exec(d: u64) -> (c: char)
    requires
        d < 10,
    ensures
        c == digit_char(d),
{
    if d == 0 { '0' }
    else if d == 1 { '1' }
    else if d == 2 { '2' }
    else if d == 3 { '3' }
    else if d == 4 { '4' }
    else if d == 5 { '5' }
    else if d == 6 { '6' }
    else if d == 7 { '7' }
    else if d == 8 { '8' }
    else { '9' }
}

fn hex_exec(d: u32) -> (c: char)
    requires
        d < 16,
    ensures
        c == hex_char(d),
{
    if d == 0 { '0' }
    else if d == 1 { '1' }
    else if d == 2 { '2' }
    else if d == 3 { '3' }
    else if d == 4 { '4' }
    else if d == 5 { '5' }
    else if d == 6 { '6' }
    else if d == 7 { '7' }
    else if d == 8 { '8' }
    else if d == 9 { '9' }
    else if d == 10 { 'a' }
    else if d == 11 { 'b' }
    else if d == 12 { 'c' }
    else if d == 13 { 'd' }
    else if d == 14 { 'e' }
    else { 'f' }
}

fn push_digits(out: &mut Vec<char>, n: u64)
    ensures
        final(out)@ == old(out)@ + dec_digits(n),
    decreases n,
{
    if n < 10 {
        out.push(digit_exec(n));
        assert(final(out)@ =~= old(out)@ + dec_digits(n));
    } else {
        push_digits(out, n / 10);
        out.push(digit_exec(n % 10));
        assert(final(out)@ =~= old(out)@ + dec_digits(n));
    }
}

fn push_escaped(out: &mut Vec<char>, c: char)
    ensures
        final(out)@ == old(out)@ + escape_char(c),
{
    if c == '"' {
        out.push('\\');
        out.push('"');
    } else if c == '\\' {
        out.push('\\');
        out.push('\\');
    } else if c == '\n' {
        out.push('\\');
        out.push('n');
    } else if c == '\r' {
        out.push('\\');
        out.push('r');
    } else if c == '\t' {
        out.push('\\');
        out.push('t');
    } else if c == '\u{8}' {
        out.push('\\');
        out.push('b');
    } else if c == '\u{c}' {
        out.push('\\');
        out.push('f');
    } else if (c as u32) < 32 {
        out.push('\\');
        out.push('u');
        out.push('0');
        out.push('0');
        out.push(hex_exec((c as u32) / 16));
        out.push(hex_exec((c as u32) % 16));
    } else {
        out.push(c);
    }
    assert(final(out)@ =~= old(out)@ + escape_char(c));
}

fn push_escape_str(out: &mut Vec<char>, s: &str)
    ensures
        final(out)@ == old(out)@ + escape_text(s@),
{
    let n = s.unicode_len();
    let mut i: usize = 0;
    while i < n
        invariant
            n == s@.len(),
            i <= n,
            out@ == old(out)@ + escape_text(s@.take(i as int)),
        decreases n - i,
    {
        let c = s.get_char(i);
        proof {
            lemma_escape_text_step(s@, i as int);
        }
        push_escaped(out, c);
        i += 1;
    }
    assert(s@.take(n as int) =~= s@);
}

fn push_str_chars(out: &mut Vec<char>, s: &str)
    ensures
        final(out)@ == old(out)@ + s@,
{
    let n = s.unicode_len();
    let mut i: usize = 0;
    while i < n
        invariant
            n == s@.len(),
            i <= n,
            out@ == old(out)@ + s@.take(i as int),
        decreases n - i,
    {
        let c = s.get_char(i);
        out.push(c);
        assert(out@ =~= old(out)@ + s@.take(i + 1));
        i += 1;
    }
    assert(s@.take(n as int) =~= s@);
}

/// Relies on `json::number::Number`: `from_parts` builds the number from
/// exactly these three parts and its `Display` implementation prints it;
/// the text is a function of the parts alone.
#[verifier::external_body]
fn format_number_outside(positive: bool, mantissa: u64, exponent: i16) -> (r: String)
    ensures
        r@ == number_text_of(positive, mantissa, exponent),
{
    format!("{}", json::number::Number::from_parts(positive, mantissa, exponent))
}

/// Relies on `String as FromIterator<char>`: collecting an iterator of
/// characters concatenates them into one string.
#[verifier::external_body]
fn chars_to_string(cs: &Vec<char>) -> (r: String)
    ensures
        r@ == cs@,
{
    cs.iter().collect()
}

/// The compact JSON text of a display tree.
pub open spec fn json_text(t: TreeV) -> Seq<char>
    decreases t,
{
    match t {
        TreeV::Boolean(b) => if b { seq!['t', 'r', 'u', 'e'] } else {
            seq!['f', 'a', 'l', 's', 'e']
        },
        TreeV::Number(n) => number_text(n),
        TreeV::Null => seq!['n', 'u', 'l', 'l'],
        TreeV::String(s) => seq!['"'] + escape_text(s) + seq!['"'],
        TreeV::Array(xs) => seq!['['] + items_text(xs) + seq![']'],
        TreeV::Object(es) => seq!['{'] + fields_text(es) + seq!['}'],
    }
}

pub open spec fn items_text(xs: Seq<TreeV>) -> Seq<char>
    decreases xs,
{
    if xs.len() == 0 {
        Seq::empty()
    } else if xs.len() == 1 {
        json_text(xs[0])
    } else {
        items_text(xs.drop_last()) + seq![','] + json_text(xs.last())
    }
}

pub open spec fn fields_text(es: Seq<(Seq<char>, TreeV)>) -> Seq<char>
    decreases es,
{
    if es.len() == 0 {
        Seq::empty()
    } else if es.len() == 1 {
        seq!['"'] + escape_text(es[0].0) + seq!['"', ':'] + json_text(es[0].1)
    } else {
        fields_text(es.drop_last()) + seq![','] + seq!['"'] + escape_text(es.last().0)
            + seq!['"', ':'] + json_text(es.last().1)
    }
}

/// How a converted map key is written as an object key: a string key stands
/// as itself; any other tree is written as its compact JSON text.
pub open spec fn key_text(t: TreeV) -> Seq<char> {
    match t {
        TreeV::String(s) => s,
        _ => json_text(t),
    }
}

proof fn lemma_items_text_step(s: Seq<TreeV>, i: int)
    requires
        0 <= i < s.len(),
    ensures
        items_text(s.take(i + 1)) == if i == 0 { json_text(s[0]) } else {
            items_text(s.take(i)) + seq![','] + json_text(s[i])
        },
{
    assert(s.take(i + 1).drop_last() =~= s.take(i));
    assert(s.take(i + 1).last() == s[i]);
    if i == 0 {
        assert(s.take(1)[0] == s[0]);
    }
}

proof fn lemma_fields_text_step(s: Seq<(Seq<char>, TreeV)>, i: int)
    requires
        0 <= i < s.len(),
    ensures
        fields_text(s.take(i + 1)) == if i == 0 {
            seq!['"'] + escape_text(s[0].0) + seq!['"', ':'] + json_text(s[0].1)
        } else {
            fields_text(s.take(i)) + seq![','] + seq!['"'] + escape_text(s[i].0)
                + seq!['"', ':'] + json_text(s[i].1)
        },
{
    assert(s.take(i + 1).drop_last() =~= s.take(i));
    assert(s.take(i + 1).last() == s[i]);
    if i == 0 {
        assert(s.take(1)[0] == s[0]);
    }
}

/// Writes the compact JSON text of `t` after the characters already in `out`.
#[verifier::loop_isolation(false)]
#[verifier::rlimit(60)]
pub fn push_json(out: &mut Vec<char>, t: &DisplayTree)
    ensures
        final(out)@ == old(out)@ + json_text(t@),
    decreases t,
{
    match t {
        DisplayTree::Boolean(b) => {
            if *b {
                out.push('t');
                out.push('r');
                out.push('u');
                out.push('e');
            } else {
                out.push('f');
                out.push('a');
                out.push('l');
                out.push('s');
                out.push('e');
            }
            assert(final(out)@ =~= old(out)@ + json_text(t@));
        },
        DisplayTree::Number(n) => {
            let s = number_string(n);
            push_str_chars(out, s.as_str());
        },
        DisplayTree::Null => {
            out.push('n');
            out.push('u');
            out.push('l');
            out.push('l');
            assert(final(out)@ =~= old(out)@ + json_text(t@));
        },
        DisplayTree::String(s) => {
            out.push('"');
            push_escape_str(out, s.as_str());
            out.push('"');
            assert(final(out)@ =~= old(out)@ + json_text(t@));
        },
        DisplayTree::Array(xs) => {
            let ghost tv = items_view(xs@);
            proof {
                lemma_items_view(xs@);
            }
            out.push('[');
            let ghost start = out@;
            let mut i: usize = 0;
            while i < xs.len()
                invariant
                    tv == items_view(xs@),
                    tv.len() == xs@.len(),
                    forall|j: int| 0 <= j < xs@.len() ==> tv[j] == crate::tree::tree_view(
                        #[trigger] xs@[j],
                    ),
                    i <= xs@.len(),
                    out@ == start + items_text(tv.take(i as int)),
                decreases xs@.len() - i,
            {
                if i > 0 {
                    out.push(',');
                }
                proof {
                    lemma_items_text_step(tv, i as int);
                    assert(decreases_to!(*t => *xs));
                    assert(decreases_to!(xs@ => xs@[i as int]));
                }
                push_json(out, &xs[i]);
                assert(out@ =~= start + items_text(tv.take(i + 1)));
                i += 1;
            }
            out.push(']');
            assert(tv.take(xs@.len() as int) =~= tv);
            assert(final(out)@ =~= old(out)@ + json_text(t@));
        },
        DisplayTree::Object(es) => {
            let ghost fv = fields_view(es@);
            proof {
                lemma_fields_view(es@);
            }
            out.push('{');
            let ghost start = out@;
            let mut i: usize = 0;
            while i < es.len()
                invariant
                    fv == fields_view(es@),
                    fv.len() == es@.len(),
                    forall|j: int| 0 <= j < es@.len() ==> fv[j] == (
                        (#[trigger] es@[j]).0@,
                        crate::tree::tree_view(es@[j].1),
                    ),
                    i <= es@.len(),
                    out@ == start + fields_text(fv.take(i as int)),
                decreases es@.len() - i,
            {
                if i > 0 {
                    out.push(',');
                }
                proof {
                    lemma_fields_text_step(fv, i as int);
                }
                out.push('"');
                push_escape_str(out, es[i].0.as_str());
                out.push('"');
                out.push(':');
                proof {
                    assert(decreases_to!(*t => *es));
                    assert(decreases_to!(es@ => es@[i as int]));
                    assert(decreases_to!(es@[i as int] => es@[i as int].1));
                }
                push_json(out, &es[i].1);
                assert(out@ =~= start + fields_text(fv.take(i + 1)));
                i += 1;
            }
            out.push('}');
            assert(fv.take(es@.len() as int) =~= fv);
            assert(final(out)@ =~= old(out)@ + json_text(t@));
        },
    }
}

/// The compact JSON text of a display tree, as a string.
pub fn json_string(t: &DisplayTree) -> (r: String)
    ensures
        r@ == json_text(t@),
{
    let mut out: Vec<char> = Vec::new();
    push_json(&mut out, t);
    chars_to_string(&out)
}

/// The object key that a converted map key becomes: a string key is used
/// verbatim, any other tree is written as its compact JSON text.
pub fn key_string(t: &DisplayTree) -> (r: String)
    ensures
        r@ == key_text(t@),
{
    match t {
        DisplayTree::String(s) => String::from_str(s.as_str()),
        _ => {
            let mut out: Vec<char> = Vec::new();
            push_json(&mut out, t);
            chars_to_string(&out)
        },
    }
}

/// The text of a number, as a string.
pub fn number_string(n: &Number) -> (r: String)
    ensures
        r@ == number_text(*n),
{
    if n.exponent == 0 {
        let mut out: Vec<char> = Vec::new();
        if !n.positive && n.mantissa > 0 {
            out.push('-');
            assert(out@ =~= seq!['-']);
        }
        push_digits(&mut out, n.mantissa);
        chars_to_string(&out)
    } else {
        format_number_outside(n.positive, n.mantissa, n.exponent)
    }
}

} // verus!
