//! Character-level text building blocks: appending characters, decimal
//! numbers, and the escaping used inside single-quoted JavaScript strings.

use vstd::prelude::*;

verus! {

/// `String::push` appends one character at the end of the string.
pub assume_specification[ String::push ](s: &mut String, ch: char)
    ensures
        final(s)@ == old(s)@.push(ch),
;

/// The decimal digit character for `d` (for `d < 10`).
pub open spec fn digit_char(d: nat) -> char {
    if d == 0 { '0' }
    else if d == 1 { '1' }
    else if d == 2 { '2' }
    else if d == 3 { '3' }
    else if d == 4 { '4' }
    else if d == 5 { '5' }
    else if d == 6 { '6' }
    else if d == 7 { '7' }
    else if d == 8 { '8' }
    else { '9' }
}

/// The decimal representation of `n`, without leading zeros.
pub open spec fn decimal(n: nat) -> Seq<char>
    decreases n,
{
    if n < 10 {
        seq![digit_char(n)]
    } else {
        decimal(n / 10).push(digit_char(n % 10))
    }
}

fn digit(d: u64) -> (c: char)
    requires
        d < 10,
    ensures
        c == digit_char(d as nat),
{
    if d == 0 { '0' }
    else if d == 1 { '1' }
    else if d == 2 { '2' }
    else if d == 3 { '3' }
    else if d == 4 { '4' }
    else if d == 5 { '5' }
    else if d == 6 { '6' }
    else if d == 7 { '7' }
    else if d == 8 { '8' }
    else { '9' }
}

/// Appends the decimal representation of `n` to `out`.
pub fn push_decimal(out: &mut String, n: u64)
    ensures
        final(out)@ == old(out)@ + decimal(n as nat),
    decreases n,
{
    if n >= 10 {
        push_decimal(out, n / 10);
    }
    out.push(digit(n % 10));
    assert(decimal(n as nat) == if n < 10 { seq![digit_char(n as nat)] } else {
        decimal((n / 10) as nat).push(digit_char((n % 10) as nat))
    });
}

} // verus!

verus! {

/// How one character is written inside a single-quoted JavaScript string
/// literal: newlines are dropped, and backslashes and both kinds of quote
/// are preceded by a backslash.
pub open spec fn js_escaped_char(c: char) -> Seq<char> {
    if c == '\n' {
        Seq::empty()
    } else if c == '\\' {
        seq!['\\', '\\']
    } else if c == '"' {
        seq!['\\', '"']
    } else if c == '\'' {
        seq!['\\', '\'']
    } else {
        seq![c]
    }
}

/// The text `s` escaped character by character with `js_escaped_char`.
pub open spec fn js_escaped(s: Seq<char>) -> Seq<char>
    decreases s.len(),
{
    if s.len() == 0 {
        Seq::empty()
    } else {
        js_escaped(s.drop_last()) + js_escaped_char(s.last())
    }
}

/// Appends `js_escaped(s)` to `out`.
pub fn push_js_escaped(out: &mut String, s: &str)
    ensures
        final(out)@ == old(out)@ + js_escaped(s@),
{
    broadcast use vstd::string::group_string_axioms;
    let ghost start = out@;
    let ghost all = s@;
    for c in it: s.chars()
        invariant
            it.seq() == all,
            out@ == start + js_escaped(all.take(it.index() as int)),
    {
        let ghost i = it.index() as int;
        if c == '\n' {
        } else if c == '\\' {
            out.push('\\');
            out.push('\\');
        } else if c == '"' {
            out.push('\\');
            out.push('"');
        } else if c == '\'' {
            out.push('\\');
            out.push('\'');
        } else {
            out.push(c);
        }
        assert(all.take(i + 1).drop_last() =~= all.take(i));
    }
    assert(all.take(all.len() as int) =~= all);
}

} // verus!

verus! {

/// Upper-case hexadecimal digit for `d` (for `d < 16`).
pub open spec fn hex_digit_char(d: nat) -> char {
    if d < 10 {
        digit_char(d)
    } else if d == 10 { 'A' }
    else if d == 11 { 'B' }
    else if d == 12 { 'C' }
    else if d == 13 { 'D' }
    else if d == 14 { 'E' }
    else { 'F' }
}

/// ASCII letters and digits.
pub open spec fn is_ascii_alnum(c: char) -> bool {
    ('a' <= c && c <= 'z') || ('A' <= c && c <= 'Z') || ('0' <= c && c <= '9')
}

/// How `htmlescape::encode_attribute` writes one character: the five
/// characters `" & ' < >` become entities, every other character below 256
/// that is not an ASCII letter or digit becomes `&#xHH;`, and all remaining
/// characters are kept.
pub open spec fn attribute_encoded_char(c: char) -> Seq<char> {
    if c == '"' {
        seq!['&', 'q', 'u', 'o', 't', ';']
    } else if c == '&' {
        seq!['&', 'a', 'm', 'p', ';']
    } else if c == '\'' {
        seq!['&', '#', 'x', '2', '7', ';']
    } else if c == '<' {
        seq!['&', 'l', 't', ';']
    } else if c == '>' {
        seq!['&', 'g', 't', ';']
    } else if (c as nat) < 256 && ((c as nat) > 127 || !is_ascii_alnum(c)) {
        seq!['&', '#', 'x', hex_digit_char((c as nat) / 16), hex_digit_char((c as nat) % 16), ';']
    } else {
        seq![c]
    }
}

/// The text `s` encoded for use in an HTML attribute value.
pub open spec fn attribute_encoded(s: Seq<char>) -> Seq<char>
    decreases s.len(),
{
    if s.len() == 0 {
        Seq::empty()
    } else {
        attribute_encoded(s.drop_last()) + attribute_encoded_char(s.last())
    }
}

/// Calls `htmlescape::encode_attribute`, which walks the characters of `s`
/// and writes each one as `attribute_encoded_char` describes (the crate's
/// source: a table of five entities, then `&#xHH;` for other characters
/// below 256 that are not ASCII letters or digits).
#[verifier::external_body]
pub(crate) fn encode_attribute(s: &str) -> (res: String)
    ensures
        res@ == attribute_encoded(s@),
{
    htmlescape::encode_attribute(s)
}

} // verus!

verus! {

/// Escaping the concatenation of two texts escapes each in turn.
pub proof fn lemma_js_escaped_add(a: Seq<char>, b: Seq<char>)
    ensures
        js_escaped(a + b) == js_escaped(a) + js_escaped(b),
    decreases b.len(),
{
    if b.len() == 0 {
        assert(a + b =~= a);
        assert(js_escaped(a) + js_escaped(b) =~= js_escaped(a));
    } else {
        lemma_js_escaped_add(a, b.drop_last());
        assert((a + b).drop_last() =~= a + b.drop_last());
        assert((a + b).last() == b.last());
        assert(js_escaped(a) + js_escaped(b.drop_last()) + js_escaped_char(b.last()) =~= js_escaped(a)
            + (js_escaped(b.drop_last()) + js_escaped_char(b.last())));
    }
}

/// Attribute encoding works character by character: encoding two texts
/// joined is encoding each in turn.
pub proof fn attribute_encoding_concatenates(a: Seq<char>, b: Seq<char>)
    ensures
        attribute_encoded(a + b) == attribute_encoded(a) + attribute_encoded(b),
    decreases b.len(),
{
    if b.len() == 0 {
        assert(a + b =~= a);
        assert(attribute_encoded(a) + attribute_encoded(b) =~= attribute_encoded(a));
    } else {
        attribute_encoding_concatenates(a, b.drop_last());
        assert((a + b).drop_last() =~= a + b.drop_last());
        assert((a + b).last() == b.last());
        assert(attribute_encoded(a) + attribute_encoded(b.drop_last()) + attribute_encoded_char(
            b.last(),
        ) =~= attribute_encoded(a) + (attribute_encoded(b.drop_last()) + attribute_encoded_char(
            b.last(),
        )));
    }
}

/// Escaping a text whose first character is `c`.
pub proof fn lemma_js_escaped_first(s: Seq<char>)
    requires
        s.len() > 0,
    ensures
        js_escaped(s) == js_escaped_char(s[0]) + js_escaped(s.drop_first()),
{
    assert(s =~= seq![s[0]] + s.drop_first());
    lemma_js_escaped_add(seq![s[0]], s.drop_first());
    let one = seq![s[0]];
    assert(one.drop_last() =~= Seq::<char>::empty());
    assert(one.last() == s[0]);
    assert(js_escaped(one.drop_last()) == Seq::<char>::empty());
    assert(Seq::<char>::empty() + js_escaped_char(s[0]) =~= js_escaped_char(s[0]));
    assert(js_escaped(one) == js_escaped(one.drop_last()) + js_escaped_char(one.last()));
}

/// The characters that end a JavaScript string literal where they stand
/// unescaped: line terminators.
pub open spec fn is_line_terminator(c: char) -> bool {
    c == '\n' || c == '\r' || c == '\u{2028}' || c == '\u{2029}'
}

/// The text a JavaScript engine reads from `s` as the content of a
/// single-quoted string literal, where the only escapes are `\\`, `\'` and
/// `\"`; `None` where `s` holds a bare quote or line terminator, or another
/// escape, so that the literal would end early or not be read as written.
pub open spec fn js_string_content(s: Seq<char>) -> Option<Seq<char>>
    decreases s.len(),
{
    if s.len() == 0 {
        Some(Seq::empty())
    } else if s[0] == '\\' {
        if s.len() >= 2 && (s[1] == '\\' || s[1] == '\'' || s[1] == '"') {
            match js_string_content(s.skip(2)) {
                Some(r) => Some(seq![s[1]] + r),
                None => None,
            }
        } else {
            None
        }
    } else if s[0] == '\'' || is_line_terminator(s[0]) {
        None
    } else {
        match js_string_content(s.skip(1)) {
            Some(r) => Some(seq![s[0]] + r),
            None => None,
        }
    }
}

/// `s` without its newline characters.
pub open spec fn without_newlines(s: Seq<char>) -> Seq<char>
    decreases s.len(),
{
    if s.len() == 0 {
        Seq::empty()
    } else if s[0] == '\n' {
        without_newlines(s.drop_first())
    } else {
        seq![s[0]] + without_newlines(s.drop_first())
    }
}

/// Escaped text stays inside the single-quoted JavaScript string it is
/// written into, and the page reads back exactly that text without
/// its newlines, for every text without carriage returns or Unicode line
/// or paragraph separators.
pub proof fn escaped_text_reads_back(s: Seq<char>)
    requires
        forall|i: int| 0 <= i < s.len() ==> s[i] == '\n' || !is_line_terminator(#[trigger] s[i]),
    ensures
        js_string_content(js_escaped(s)) == Some(without_newlines(s)),
    decreases s.len(),
{
    if s.len() == 0 {
        assert(js_escaped(s) =~= Seq::<char>::empty());
    } else {
        let c = s[0];
        let rest = s.drop_first();
        lemma_js_escaped_first(s);
        assert forall|i: int| 0 <= i < rest.len() implies rest[i] == '\n' || !is_line_terminator(
            #[trigger] rest[i],
        ) by {
            assert(rest[i] == s[i + 1]);
        }
        escaped_text_reads_back(rest);
        let x = js_escaped(rest);
        let e = js_escaped_char(c) + x;
        if c == '\n' {
            assert(e =~= x);
        } else if c == '\\' || c == '"' || c == '\'' {
            assert(e.skip(2) =~= x);
            assert(e[0] == '\\' && e[1] == c);
        } else {
            assert(e.skip(1) =~= x);
            assert(e[0] == c);
        }
    }
}

} // verus!

verus! {

/// The characters attribute encoding writes: ASCII letters and digits,
/// `&`, `#`, `;`, and characters from 256 up.
pub open spec fn is_attribute_safe(c: char) -> bool {
    is_ascii_alnum(c) || c == '&' || c == '#' || c == ';' || (c as nat) >= 256
}

/// Attribute-encoded text holds no quote, backslash, angle bracket, space
/// or control character: every character is an ASCII letter or digit, `&`,
/// `#`, `;`, or a character from 256 up.
pub proof fn attribute_encoding_is_safe(s: Seq<char>)
    ensures
        forall|i: int|
            0 <= i < attribute_encoded(s).len() ==> is_attribute_safe(
                #[trigger] attribute_encoded(s)[i],
            ),
    decreases s.len(),
{
    if s.len() > 0 {
        attribute_encoding_is_safe(s.drop_last());
        let a = attribute_encoded(s.drop_last());
        let c = s.last();
        let e = attribute_encoded_char(c);
        assert forall|i: int| 0 <= i < e.len() implies is_attribute_safe(#[trigger] e[i]) by {
            if (c as nat) < 256 && ((c as nat) > 127 || !is_ascii_alnum(c)) && c != '"' && c != '&'
                && c != '\'' && c != '<' && c != '>' {
                let hi = (c as nat) / 16;
                let lo = (c as nat) % 16;
                assert(is_ascii_alnum(hex_digit_char(hi)));
                assert(is_ascii_alnum(hex_digit_char(lo)));
            }
        }
        assert forall|i: int| 0 <= i < attribute_encoded(s).len() implies is_attribute_safe(
            #[trigger] attribute_encoded(s)[i],
        ) by {
            if i < a.len() {
                assert(attribute_encoded(s)[i] == a[i]);
            } else {
                assert(attribute_encoded(s)[i] == e[i - a.len()]);
            }
        }
    }
}

} // verus!

verus! {

/// The text that `s` stands for when a backslash makes the character after
/// it stand for itself; `None` where `s` holds a quote (single or double)
/// or a newline that no backslash escapes, or ends in a lone backslash.
pub open spec fn backslash_unescaped(s: Seq<char>) -> Option<Seq<char>>
    decreases s.len(),
{
    if s.len() == 0 {
        Some(Seq::empty())
    } else if s[0] == '\\' {
        if s.len() >= 2 {
            match backslash_unescaped(s.skip(2)) {
                Some(r) => Some(seq![s[1]] + r),
                None => None,
            }
        } else {
            None
        }
    } else if s[0] == '\'' || s[0] == '"' || s[0] == '\n' {
        None
    } else {
        match backslash_unescaped(s.skip(1)) {
            Some(r) => Some(seq![s[0]] + r),
            None => None,
        }
    }
}

/// For every text: the escaped text holds no newline, every quote in it is
/// escaped by a backslash, and reading its backslash pairs back gives the
/// text without its newlines.
pub proof fn escaped_text_reads_back_for_all_texts(s: Seq<char>)
    ensures
        backslash_unescaped(js_escaped(s)) == Some(without_newlines(s)),
        forall|i: int| 0 <= i < js_escaped(s).len() ==> #[trigger] js_escaped(s)[i] != '\n',
    decreases s.len(),
{
    if s.len() == 0 {
        assert(js_escaped(s) =~= Seq::<char>::empty());
    } else {
        let c = s[0];
        let rest = s.drop_first();
        lemma_js_escaped_first(s);
        escaped_text_reads_back_for_all_texts(rest);
        let x = js_escaped(rest);
        let head = js_escaped_char(c);
        let e = head + x;
        if c == '\n' {
            assert(e =~= x);
        } else if c == '\\' || c == '"' || c == '\'' {
            assert(e.skip(2) =~= x);
            assert(e[0] == '\\' && e[1] == c);
        } else {
            assert(e.skip(1) =~= x);
            assert(e[0] == c);
        }
        assert forall|i: int| 0 <= i < e.len() implies #[trigger] e[i] != '\n' by {
            if i >= head.len() {
                assert(e[i] == x[i - head.len()]);
            }
        }
    }
}

} // verus!
