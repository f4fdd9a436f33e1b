//! The cache-file format of the bootstrap document.
//!
//! The file strategy persists the last successfully fetched status
//! document as JSON.  This module fixes one canonical JSON text for each
//! document — compact, fields in declaration order, every string escaped
//! the same way — and proves that `decode_status` accepts exactly the
//! canonical texts and inverts `encode_status` on them.

use vstd::prelude::*;
use vstd::string::StrSliceExecFns;
use vstd::string::StringExecFns;
use crate::data::Status;
use crate::data::StatusData;
use crate::data::StatusModel;

verus! {

// ---------------------------------------------------------------------
// The canonical encoding, as spec functions.
// ---------------------------------------------------------------------
/// The hexadecimal digit for `n`, lower case.
pub open spec fn hex_digit(n: int) -> char {
    if n == 0 { '0' }
    else if n == 1 { '1' }
    else if n == 2 { '2' }
    else if n == 3 { '3' }
    else if n == 4 { '4' }
    else if n == 5 { '5' }
    else if n == 6 { '6' }
    else if n == 7 { '7' }
    else if n == 8 { '8' }
    else if n == 9 { '9' }
    else if n == 10 { 'a' }
    else if n == 11 { 'b' }
    else if n == 12 { 'c' }
    else if n == 13 { 'd' }
    else if n == 14 { 'e' }
    else { 'f' }
}

/// How one character appears inside a JSON string literal: quote and
/// backslash escaped, control characters as `\u00XX`, all others as
/// themselves.
pub open spec fn esc_char(c: char) -> Seq<char> {
    if c == '"' {
        seq!['\\', '"']
    } else if c == '\\' {
        seq!['\\', '\\']
    } else if (c as int) < 32 {
        seq!['\\', 'u', '0', '0', hex_digit(c as int / 16), hex_digit(c as int % 16)]
    } else {
        seq![c]
    }
}

/// The escaped body of a JSON string literal.
pub open spec fn esc_str(s: Seq<char>) -> Seq<char>
    decreases s.len(),
{
    if s.len() == 0 {
        Seq::empty()
    } else {
        esc_char(s[0]) + esc_str(s.skip(1))
    }
}

/// A JSON string literal.
pub open spec fn enc_string(s: Seq<char>) -> Seq<char> {
    seq!['"'] + esc_str(s) + seq!['"']
}

/// What follows the first element of a JSON array of strings: a comma and
/// an element, repeated, then the closing bracket.
pub open spec fn enc_tail(v: Seq<Seq<char>>) -> Seq<char>
    decreases v.len(),
{
    if v.len() == 0 {
        seq![']']
    } else {
        seq![','] + enc_string(v[0]) + enc_tail(v.skip(1))
    }
}

/// A JSON array of string literals.
pub open spec fn enc_array(v: Seq<Seq<char>>) -> Seq<char> {
    if v.len() == 0 {
        seq!['[', ']']
    } else {
        seq!['['] + enc_string(v[0]) + enc_tail(v.skip(1))
    }
}

/// The text that opens the document and introduces `data.v3`.
pub open spec fn lit_open() -> Seq<char> {
    "{\"data\":{\"v3\":"@
}

/// The text that introduces `data.transceivers`.
pub open spec fn lit_transceivers() -> Seq<char> {
    ",\"transceivers\":"@
}

/// The text that closes the `data` object and introduces `user`.
pub open spec fn lit_user() -> Seq<char> {
    "},\"user\":"@
}

/// The text that introduces `metar`.
pub open spec fn lit_metar() -> Seq<char> {
    ",\"metar\":"@
}

/// The text that closes the document.
pub open spec fn lit_close() -> Seq<char> {
    "}"@
}

/// The canonical JSON text of a status document.
pub open spec fn enc_status(m: StatusModel) -> Seq<char> {
    lit_open() + enc_array(m.v3) + lit_transceivers() + enc_array(m.transceivers) + lit_user()
        + enc_array(m.user) + lit_metar() + enc_array(m.metar) + lit_close()
}

// ---------------------------------------------------------------------
// The encoder.
// ---------------------------------------------------------------------
/// Relies on `String::push`: appends exactly the one character.
#[verifier::external_body]
fn push_char(out: &mut String, c: char)
    ensures
        final(out)@ == old(out)@.push(c),
{
    out.push(c);
}

/// The hexadecimal digit for `n`, lower case.
fn hex_digit_exec(n: u8) -> (r: char)
    requires
        n < 16,
    ensures
        r == hex_digit(n as int),
{
    if n == 0 { '0' }
    else if n == 1 { '1' }
    else if n == 2 { '2' }
    else if n == 3 { '3' }
    else if n == 4 { '4' }
    else if n == 5 { '5' }
    else if n == 6 { '6' }
    else if n == 7 { '7' }
    else if n == 8 { '8' }
    else if n == 9 { '9' }
    else if n == 10 { 'a' }
    else if n == 11 { 'b' }
    else if n == 12 { 'c' }
    else if n == 13 { 'd' }
    else if n == 14 { 'e' }
    else { 'f' }
}

fn push_escaped_char(out: &mut String, c: char)
    ensures
        final(out)@ == old(out)@ + esc_char(c),
{
    if c == '"' {
        push_char(out, '\\');
        push_char(out, '"');
        assert(final(out)@ =~= old(out)@ + esc_char(c));
    } else if c == '\\' {
        push_char(out, '\\');
        push_char(out, '\\');
        assert(final(out)@ =~= old(out)@ + esc_char(c));
    } else if (c as u32) < 32 {
        let n = c as u32;
        push_char(out, '\\');
        push_char(out, 'u');
        push_char(out, '0');
        push_char(out, '0');
        push_char(out, hex_digit_exec((n / 16) as u8));
        push_char(out, hex_digit_exec((n % 16) as u8));
        assert(final(out)@ =~= old(out)@ + esc_char(c));
    } else {
        push_char(out, c);
        assert(final(out)@ =~= old(out)@ + esc_char(c));
    }
}

/// `esc_str` grows at the end, one character of the source at a time.
proof fn lemma_esc_str_snoc(s: Seq<char>, x: char)
    ensures
        esc_str(s.push(x)) == esc_str(s) + esc_char(x),
    decreases s.len(),
{
    if s.len() == 0 {
        assert(s.push(x).skip(1) =~= s);
        assert(s.push(x)[0] == x);
        assert(esc_str(s.push(x)) == esc_char(x) + esc_str(s));
        assert(esc_char(x) + esc_str(s) =~= esc_str(s) + esc_char(x));
    } else {
        assert(s.push(x).skip(1) =~= s.skip(1).push(x));
        assert(s.push(x)[0] == s[0]);
        assert(esc_str(s.push(x)) == esc_char(s[0]) + esc_str(s.skip(1).push(x)));
        lemma_esc_str_snoc(s.skip(1), x);
        assert(esc_str(s) == esc_char(s[0]) + esc_str(s.skip(1)));
        assert(esc_str(s.push(x)) == esc_char(s[0]) + (esc_str(s.skip(1)) + esc_char(x)));
        assert(esc_char(s[0]) + (esc_str(s.skip(1)) + esc_char(x)) =~= (esc_char(s[0]) + esc_str(
            s.skip(1),
        )) + esc_char(x));
    }
}

fn push_enc_string(out: &mut String, s: &str)
    ensures
        final(out)@ == old(out)@ + enc_string(s@),
{
    push_char(out, '"');
    let n = s.unicode_len();
    let mut i: usize = 0;
    while i < n
        invariant
            i <= n,
            n == s@.len(),
            out@ == old(out)@.push('"') + esc_str(s@.take(i as int)),
        decreases n - i,
    {
        let c = s.get_char(i);
        proof {
            assert(s@.take(i + 1) =~= s@.take(i as int).push(c));
            lemma_esc_str_snoc(s@.take(i as int), c);
        }
        push_escaped_char(out, c);
        i += 1;
    }
    assert(s@.take(n as int) =~= s@);
    push_char(out, '"');
    assert(final(out)@ =~= old(out)@ + enc_string(s@));
}

/// The items of `enc_tail` without its closing bracket.
pub open spec fn enc_items(v: Seq<Seq<char>>) -> Seq<char>
    decreases v.len(),
{
    if v.len() == 0 {
        Seq::empty()
    } else {
        seq![','] + enc_string(v[0]) + enc_items(v.skip(1))
    }
}

/// `enc_tail` is the items followed by the closing bracket.
proof fn lemma_enc_tail_items(v: Seq<Seq<char>>)
    ensures
        enc_tail(v) == enc_items(v) + seq![']'],
    decreases v.len(),
{
    if v.len() == 0 {
        assert(enc_tail(v) =~= enc_items(v) + seq![']']);
    } else {
        lemma_enc_tail_items(v.skip(1));
        assert(enc_tail(v) =~= enc_items(v) + seq![']']);
    }
}

/// `enc_items` grows at the end, one element at a time.
proof fn lemma_enc_items_snoc(v: Seq<Seq<char>>, x: Seq<char>)
    ensures
        enc_items(v.push(x)) == enc_items(v) + seq![','] + enc_string(x),
    decreases v.len(),
{
    if v.len() == 0 {
        assert(v.push(x).skip(1) =~= v);
        assert(v.push(x)[0] == x);
        assert(enc_items(v.push(x)) == seq![','] + enc_string(x) + enc_items(v));
        assert(seq![','] + enc_string(x) + enc_items(v) =~= enc_items(v) + seq![','] + enc_string(
            x,
        ));
    } else {
        assert(v.push(x).skip(1) =~= v.skip(1).push(x));
        assert(v.push(x)[0] == v[0]);
        assert(enc_items(v.push(x)) == seq![','] + enc_string(v[0]) + enc_items(
            v.skip(1).push(x),
        ));
        lemma_enc_items_snoc(v.skip(1), x);
        assert(enc_items(v) == seq![','] + enc_string(v[0]) + enc_items(v.skip(1)));
        assert(enc_items(v.push(x)) == seq![','] + enc_string(v[0]) + (enc_items(v.skip(1))
            + seq![','] + enc_string(x)));
        assert(seq![','] + enc_string(v[0]) + (enc_items(v.skip(1)) + seq![','] + enc_string(x))
            =~= (seq![','] + enc_string(v[0]) + enc_items(v.skip(1))) + seq![','] + enc_string(x));
    }
}

fn push_enc_array(out: &mut String, v: &Vec<String>)
    ensures
        final(out)@ == old(out)@ + enc_array(v.deep_view()),
{
    push_char(out, '[');
    if v.len() == 0 {
        push_char(out, ']');
        assert(final(out)@ =~= old(out)@ + enc_array(v.deep_view()));
        return ;
    }
    push_enc_string(out, v[0].as_str());
    let ghost dv = v.deep_view();
    assert(dv[0] == v[0]@);
    let mut i: usize = 1;
    while i < v.len()
        invariant
            1 <= i <= v.len(),
            dv == v.deep_view(),
            dv.len() == v.len(),
            forall|k: int| 0 <= k < dv.len() ==> dv[k] == v@[k]@,
            out@ == old(out)@.push('[') + enc_string(dv[0]) + enc_items(dv.subrange(1, i as int)),
        decreases v.len() - i,
    {
        proof {
            assert(dv.subrange(1, i + 1) =~= dv.subrange(1, i as int).push(dv[i as int]));
            lemma_enc_items_snoc(dv.subrange(1, i as int), dv[i as int]);
        }
        push_char(out, ',');
        push_enc_string(out, v[i].as_str());
        assert(out@ =~= old(out)@.push('[') + enc_string(dv[0]) + enc_items(
            dv.subrange(1, i + 1),
        ));
        i += 1;
    }
    push_char(out, ']');
    proof {
        assert(dv.subrange(1, dv.len() as int) =~= dv.skip(1));
        lemma_enc_tail_items(dv.skip(1));
        assert(final(out)@ =~= old(out)@ + enc_array(dv));
    }
}

// ---------------------------------------------------------------------
// Prefix lemmas: the canonical encoding is prefix-determined, so the
// decoder's result is forced by its input.
// ---------------------------------------------------------------------
/// Splitting a prefix made of two parts.
proof fn lemma_prefix_of_concat(a: Seq<char>, b: Seq<char>, t: Seq<char>)
    requires
        (a + b).is_prefix_of(t),
    ensures
        a.is_prefix_of(t),
        b.is_prefix_of(t.skip(a.len() as int)),
{
    let n = (a + b).len() as int;
    assert forall|i: int| 0 <= i < a.len() implies a[i] == t[i] by {
        assert((a + b)[i] == t.take(n)[i]);
    }
    assert(a =~= t.take(a.len() as int));
    assert forall|i: int| 0 <= i < b.len() implies b[i] == t.skip(a.len() as int)[i] by {
        assert((a + b)[a.len() + i] == t.take(n)[a.len() + i]);
    }
    assert(b =~= t.skip(a.len() as int).take(b.len() as int));
}

/// Two sequences with the same head and the same tail are the same.
proof fn lemma_head_tail_eq<A>(s1: Seq<A>, s2: Seq<A>)
    requires
        s1.len() > 0,
        s2.len() > 0,
        s1[0] == s2[0],
        s1.skip(1) == s2.skip(1),
    ensures
        s1 == s2,
{
    assert(s1.skip(1).len() == s1.len() - 1);
    assert(s2.skip(1).len() == s2.len() - 1);
    assert(s1.len() == s2.len());
    assert forall|i: int| 0 <= i < s1.len() implies s1[i] == s2[i] by {
        if i > 0 {
            assert(s1.skip(1)[i - 1] == s1[i]);
            assert(s2.skip(1)[i - 1] == s2[i]);
            assert(s1.skip(1)[i - 1] == s2.skip(1)[i - 1]);
        }
    }
    assert(s1 =~= s2);
}

/// The first character of an escaped character is never a quote, and is a
/// backslash exactly for the characters that the encoding escapes.
proof fn lemma_esc_char_shape(c: char)
    ensures
        esc_char(c).len() >= 1,
        esc_char(c)[0] != '"',
        (esc_char(c)[0] == '\\') <==> (c == '"' || c == '\\' || (c as int) < 32),
        (c != '"' && c != '\\' && (c as int) >= 32) ==> esc_char(c) == seq![c],
        (c == '"' || c == '\\' || (c as int) < 32) ==> esc_char(c).len() >= 2,
{
}

/// The lower-case hexadecimal digits are pairwise distinct.
proof fn lemma_hex_digit_inj(x: int, y: int)
    requires
        0 <= x < 16,
        0 <= y < 16,
        hex_digit(x) == hex_digit(y),
    ensures
        x == y,
{
}

/// Two escaped characters cannot begin the same text unless they are the
/// same character.
proof fn lemma_esc_char_prefix_unique(a: char, b: char, t: Seq<char>)
    requires
        esc_char(a).is_prefix_of(t),
        esc_char(b).is_prefix_of(t),
    ensures
        a == b,
{
    lemma_esc_char_shape(a);
    lemma_esc_char_shape(b);
    assert(esc_char(a) =~= t.take(esc_char(a).len() as int));
    assert(esc_char(b) =~= t.take(esc_char(b).len() as int));
    assert(esc_char(a)[0] == t[0]);
    assert(esc_char(b)[0] == t[0]);
    if a == '"' || a == '\\' || (a as int) < 32 {
        assert(esc_char(a)[1] == t[1]);
        assert(esc_char(b)[1] == t[1]);
        if (a as int) < 32 {
            assert(t[1] == 'u');
            assert((b as int) < 32);
            assert(esc_char(a)[4] == t[4] && esc_char(a)[5] == t[5]);
            assert(esc_char(b)[4] == t[4] && esc_char(b)[5] == t[5]);
            lemma_hex_digit_inj(a as int / 16, b as int / 16);
            lemma_hex_digit_inj(a as int % 16, b as int % 16);
            assert(a as int == b as int);
        } else {
            assert(a == b);
        }
    } else {
        assert(t[0] == a);
        assert(a == b);
    }
}

/// The escaped body of a string literal, together with its closing quote,
/// determines the string: no two strings escape to the same prefix.
proof fn lemma_body_prefix_unique(m1: Seq<char>, m2: Seq<char>, t: Seq<char>)
    requires
        (esc_str(m1) + seq!['"']).is_prefix_of(t),
        (esc_str(m2) + seq!['"']).is_prefix_of(t),
    ensures
        m1 == m2,
    decreases m1.len(),
{
    if m1.len() == 0 {
        assert((esc_str(m1) + seq!['"'])[0] == t[0]);
        assert(t[0] == '"');
        if m2.len() > 0 {
            assert(esc_str(m2) == esc_char(m2[0]) + esc_str(m2.skip(1)));
            assert((esc_str(m2) + seq!['"'])[0] == esc_char(m2[0])[0]);
            lemma_esc_char_shape(m2[0]);
            assert(false);
        }
        assert(m1 =~= m2);
    } else if m2.len() == 0 {
        assert((esc_str(m2) + seq!['"'])[0] == t[0]);
        assert(t[0] == '"');
        assert(esc_str(m1) == esc_char(m1[0]) + esc_str(m1.skip(1)));
        assert((esc_str(m1) + seq!['"'])[0] == esc_char(m1[0])[0]);
        lemma_esc_char_shape(m1[0]);
        assert(false);
    } else {
        assert(esc_str(m1) == esc_char(m1[0]) + esc_str(m1.skip(1)));
        assert(esc_str(m2) == esc_char(m2[0]) + esc_str(m2.skip(1)));
        assert(esc_str(m1) + seq!['"'] =~= esc_char(m1[0]) + (esc_str(m1.skip(1)) + seq!['"']));
        assert(esc_str(m2) + seq!['"'] =~= esc_char(m2[0]) + (esc_str(m2.skip(1)) + seq!['"']));
        lemma_prefix_of_concat(esc_char(m1[0]), esc_str(m1.skip(1)) + seq!['"'], t);
        lemma_prefix_of_concat(esc_char(m2[0]), esc_str(m2.skip(1)) + seq!['"'], t);
        lemma_esc_char_prefix_unique(m1[0], m2[0], t);
        lemma_body_prefix_unique(m1.skip(1), m2.skip(1), t.skip(esc_char(m1[0]).len() as int));
        lemma_head_tail_eq(m1, m2);
    }
}

/// A JSON string literal is determined by any text it begins.
proof fn lemma_enc_string_prefix_unique(m1: Seq<char>, m2: Seq<char>, t: Seq<char>)
    requires
        enc_string(m1).is_prefix_of(t),
        enc_string(m2).is_prefix_of(t),
    ensures
        m1 == m2,
{
    assert(enc_string(m1) =~= seq!['"'] + (esc_str(m1) + seq!['"']));
    assert(enc_string(m2) =~= seq!['"'] + (esc_str(m2) + seq!['"']));
    lemma_prefix_of_concat(seq!['"'], esc_str(m1) + seq!['"'], t);
    lemma_prefix_of_concat(seq!['"'], esc_str(m2) + seq!['"'], t);
    lemma_body_prefix_unique(m1, m2, t.skip(1));
}

/// The tail of an encoded array is determined by any text it begins.
proof fn lemma_enc_tail_prefix_unique(v1: Seq<Seq<char>>, v2: Seq<Seq<char>>, t: Seq<char>)
    requires
        enc_tail(v1).is_prefix_of(t),
        enc_tail(v2).is_prefix_of(t),
    ensures
        v1 == v2,
    decreases v1.len(),
{
    if v1.len() == 0 {
        assert(enc_tail(v1)[0] == t[0]);
        assert(t[0] == ']');
        if v2.len() > 0 {
            assert(enc_tail(v2)[0] == t[0]);
            assert(t[0] == ',');
            assert(false);
        }
        assert(v1 =~= v2);
    } else if v2.len() == 0 {
        assert(enc_tail(v1)[0] == t[0]);
        assert(enc_tail(v2)[0] == t[0]);
        assert(false);
    } else {
        assert(enc_tail(v1) =~= seq![','] + (enc_string(v1[0]) + enc_tail(v1.skip(1))));
        assert(enc_tail(v2) =~= seq![','] + (enc_string(v2[0]) + enc_tail(v2.skip(1))));
        lemma_prefix_of_concat(seq![','], enc_string(v1[0]) + enc_tail(v1.skip(1)), t);
        lemma_prefix_of_concat(seq![','], enc_string(v2[0]) + enc_tail(v2.skip(1)), t);
        let u = t.skip(1);
        lemma_prefix_of_concat(enc_string(v1[0]), enc_tail(v1.skip(1)), u);
        lemma_prefix_of_concat(enc_string(v2[0]), enc_tail(v2.skip(1)), u);
        lemma_enc_string_prefix_unique(v1[0], v2[0], u);
        lemma_enc_tail_prefix_unique(v1.skip(1), v2.skip(1), u.skip(enc_string(v1[0]).len() as int));
        lemma_head_tail_eq(v1, v2);
    }
}

/// An encoded array of strings is determined by any text it begins.
proof fn lemma_enc_array_prefix_unique(v1: Seq<Seq<char>>, v2: Seq<Seq<char>>, t: Seq<char>)
    requires
        enc_array(v1).is_prefix_of(t),
        enc_array(v2).is_prefix_of(t),
    ensures
        v1 == v2,
{
    if v1.len() == 0 && v2.len() == 0 {
        assert(v1 =~= v2);
    } else if v1.len() == 0 {
        assert(enc_array(v1)[1] == t[1]);
        assert(t[1] == ']');
        assert(enc_array(v2) =~= seq!['['] + (enc_string(v2[0]) + enc_tail(v2.skip(1))));
        lemma_prefix_of_concat(seq!['['], enc_string(v2[0]) + enc_tail(v2.skip(1)), t);
        lemma_prefix_of_concat(enc_string(v2[0]), enc_tail(v2.skip(1)), t.skip(1));
        assert(enc_string(v2[0])[0] == t.skip(1)[0]);
        assert(t[1] == '"');
        assert(false);
    } else if v2.len() == 0 {
        assert(enc_array(v2)[1] == t[1]);
        assert(t[1] == ']');
        assert(enc_array(v1) =~= seq!['['] + (enc_string(v1[0]) + enc_tail(v1.skip(1))));
        lemma_prefix_of_concat(seq!['['], enc_string(v1[0]) + enc_tail(v1.skip(1)), t);
        lemma_prefix_of_concat(enc_string(v1[0]), enc_tail(v1.skip(1)), t.skip(1));
        assert(enc_string(v1[0])[0] == t.skip(1)[0]);
        assert(t[1] == '"');
        assert(false);
    } else {
        assert(enc_array(v1) =~= seq!['['] + (enc_string(v1[0]) + enc_tail(v1.skip(1))));
        assert(enc_array(v2) =~= seq!['['] + (enc_string(v2[0]) + enc_tail(v2.skip(1))));
        lemma_prefix_of_concat(seq!['['], enc_string(v1[0]) + enc_tail(v1.skip(1)), t);
        lemma_prefix_of_concat(seq!['['], enc_string(v2[0]) + enc_tail(v2.skip(1)), t);
        let u = t.skip(1);
        lemma_prefix_of_concat(enc_string(v1[0]), enc_tail(v1.skip(1)), u);
        lemma_prefix_of_concat(enc_string(v2[0]), enc_tail(v2.skip(1)), u);
        lemma_enc_string_prefix_unique(v1[0], v2[0], u);
        lemma_enc_tail_prefix_unique(v1.skip(1), v2.skip(1), u.skip(enc_string(v1[0]).len() as int));
        lemma_head_tail_eq(v1, v2);
    }
}

/// Encodes a status document as its canonical JSON text.
pub fn encode_status(s: &Status) -> (r: String)
    ensures
        r@ == enc_status(s.model()),
{
    let mut out = String::new();
    out.append("{\"data\":{\"v3\":");
    push_enc_array(&mut out, &s.data.v3);
    out.append(",\"transceivers\":");
    push_enc_array(&mut out, &s.data.transceivers);
    out.append("},\"user\":");
    push_enc_array(&mut out, &s.user);
    out.append(",\"metar\":");
    push_enc_array(&mut out, &s.metar);
    out.append("}");
    assert(out@ =~= enc_status(s.model()));
    out
}

// ---------------------------------------------------------------------
// The decoder.
// ---------------------------------------------------------------------
fn str_to_chars(s: &str) -> (r: Vec<char>)
    ensures
        r@ == s@,
{
    let n = s.unicode_len();
    let mut v: Vec<char> = Vec::new();
    let mut i: usize = 0;
    while i < n
        invariant
            i <= n,
            n == s@.len(),
            v@ == s@.take(i as int),
        decreases n - i,
    {
        v.push(s.get_char(i));
        assert(v@ =~= s@.take(i + 1));
        i += 1;
    }
    assert(s@.take(n as int) =~= s@);
    v
}

fn chars_to_string(v: &Vec<char>) -> (r: String)
    ensures
        r@ == v@,
{
    let mut out = String::new();
    let mut i: usize = 0;
    while i < v.len()
        invariant
            i <= v@.len(),
            out@ == v@.take(i as int),
        decreases v@.len() - i,
    {
        push_char(&mut out, v[i]);
        assert(out@ =~= v@.take(i + 1));
        i += 1;
    }
    assert(v@.take(v@.len() as int) =~= v@);
    out
}

/// The value of a lower-case hexadecimal digit character, if it is one.
fn hex_val(c: char) -> (r: Option<u8>)
    ensures
        r matches Some(n) ==> n < 16 && hex_digit(n as int) == c,
        r is None ==> forall|n: int| 0 <= n < 16 ==> hex_digit(n) != c,
{
    if c == '0' { Some(0) }
    else if c == '1' { Some(1) }
    else if c == '2' { Some(2) }
    else if c == '3' { Some(3) }
    else if c == '4' { Some(4) }
    else if c == '5' { Some(5) }
    else if c == '6' { Some(6) }
    else if c == '7' { Some(7) }
    else if c == '8' { Some(8) }
    else if c == '9' { Some(9) }
    else if c == 'a' { Some(10) }
    else if c == 'b' { Some(11) }
    else if c == 'c' { Some(12) }
    else if c == 'd' { Some(13) }
    else if c == 'e' { Some(14) }
    else if c == 'f' { Some(15) }
    else { None }
}

/// Consumes a fixed piece of text at position `i`, or reports that the
/// input does not continue with it.
fn expect_lit(v: &Vec<char>, i: usize, lit: &str) -> (r: Option<usize>)
    requires
        i <= v@.len(),
    ensures
        r matches Some(j) ==> i <= j <= v@.len() && j == i + lit@.len() && v@.subrange(
            i as int,
            j as int,
        ) == lit@,
        r is None ==> !lit@.is_prefix_of(v@.skip(i as int)),
{
    let n = lit.unicode_len();
    let vn = v.len();
    if vn - i < n {
        assert(v@.skip(i as int).len() < lit@.len());
        return None;
    }
    let mut k: usize = 0;
    while k < n
        invariant
            k <= n,
            n == lit@.len(),
            vn == v@.len(),
            i + n <= vn,
            v@.subrange(i as int, i + k) == lit@.take(k as int),
        decreases n - k,
    {
        if v[i + k] != lit.get_char(k) {
            proof {
                if lit@.is_prefix_of(v@.skip(i as int)) {
                    assert(lit@[k as int] == v@.skip(i as int).take(lit@.len() as int)[k as int]);
                    assert(lit@[k as int] == v@[i + k]);
                }
            }
            return None;
        }
        assert(v@.subrange(i as int, i + k + 1) =~= v@.subrange(i as int, i + k).push(v@[i + k]));
        assert(lit@.take(k + 1) =~= lit@.take(k as int).push(lit@[k as int]));
        k += 1;
    }
    assert(lit@.take(n as int) =~= lit@);
    Some(i + n)
}

/// Skipping twice is skipping once.
proof fn lemma_skip_skip(t: Seq<char>, x: int, y: int)
    requires
        0 <= x,
        0 <= y,
        x + y <= t.len(),
    ensures
        t.skip(x).skip(y) == t.skip(x + y),
{
    assert(t.skip(x).skip(y) =~= t.skip(x + y));
}

/// An empty string body: the text continues with the closing quote.
proof fn lemma_body_empty(m: Seq<char>, t: Seq<char>)
    requires
        m.len() == 0,
        (esc_str(m) + seq!['"']).is_prefix_of(t),
    ensures
        t.len() >= 1,
        t[0] == '"',
{
    assert((esc_str(m) + seq!['"'])[0] == t.take((esc_str(m) + seq!['"']).len() as int)[0]);
}

/// A non-empty string body: the text begins with the escape of the first
/// character, and continues with the body of the rest.
proof fn lemma_body_step(m: Seq<char>, t: Seq<char>)
    requires
        m.len() > 0,
        (esc_str(m) + seq!['"']).is_prefix_of(t),
    ensures
        esc_char(m[0]).is_prefix_of(t),
        (esc_str(m.skip(1)) + seq!['"']).is_prefix_of(t.skip(esc_char(m[0]).len() as int)),
        esc_char(m[0]).len() < t.len(),
        forall|k: int| 0 <= k < esc_char(m[0]).len() ==> t[k] == esc_char(m[0])[k],
{
    assert(esc_str(m) == esc_char(m[0]) + esc_str(m.skip(1)));
    assert(esc_str(m) + seq!['"'] =~= esc_char(m[0]) + (esc_str(m.skip(1)) + seq!['"']));
    lemma_prefix_of_concat(esc_char(m[0]), esc_str(m.skip(1)) + seq!['"'], t);
    lemma_esc_char_shape(m[0]);
    assert forall|k: int| 0 <= k < esc_char(m[0]).len() implies t[k] == esc_char(m[0])[k] by {
        assert(esc_char(m[0])[k] == t.take(esc_char(m[0]).len() as int)[k]);
    }
}

/// Scans the escaped body of a string literal and its closing quote,
/// starting just after the opening quote: returns the decoded characters
/// and the position after the closing quote.
#[verifier::rlimit(50)]
fn scan_string(v: &Vec<char>, j: usize) -> (r: Option<(Vec<char>, usize)>)
    requires
        j <= v@.len(),
    ensures
        r matches Some(p) ==> j < p.1 <= v@.len() && v@.subrange(j as int, p.1 as int) == esc_str(
            p.0@,
        ) + seq!['"'],
        r is None ==> forall|m: Seq<char>| !((esc_str(m) + seq!['"']).is_prefix_of(
            v@.skip(j as int),
        )),
    decreases v@.len() - j,
{
    let ghost t = v@.skip(j as int);
    if j == v.len() {
        proof {
            assert forall|m: Seq<char>| !((esc_str(m) + seq!['"']).is_prefix_of(t)) by {
                assert((esc_str(m) + seq!['"']).len() >= 1);
            }
        }
        return None;
    }
    let c = v[j];
    assert(t[0] == c);
    if c == '"' {
        let out: Vec<char> = Vec::new();
        assert(v@.subrange(j as int, j + 1) =~= esc_str(out@) + seq!['"']);
        return Some((out, j + 1));
    }
    if c == '\\' {
        if j + 1 == v.len() {
            proof {
                assert forall|m: Seq<char>| !((esc_str(m) + seq!['"']).is_prefix_of(t)) by {
                    if (esc_str(m) + seq!['"']).is_prefix_of(t) {
                        if m.len() == 0 {
                            lemma_body_empty(m, t);
                        } else {
                            lemma_body_step(m, t);
                            lemma_esc_char_shape(m[0]);
                            assert(esc_char(m[0])[0] == '\\');
                            assert(esc_char(m[0]).len() >= 2);
                        }
                    }
                }
            }
            return None;
        }
        let e = v[j + 1];
        assert(t[1] == e);
        if e == '"' || e == '\\' {
            match scan_string(v, j + 2) {
                Some((mut body, k)) => {
                    let ghost pre = body@;
                    body.insert(0, e);
                    proof {
                        assert(body@[0] == e);
                        assert(body@.skip(1) =~= pre);
                        assert(esc_char(e) =~= seq!['\\', e]);
                        assert(esc_str(body@) == esc_char(e) + esc_str(body@.skip(1)));
                        assert(v@.subrange(j as int, j + 2) =~= seq!['\\', e]);
                        assert(v@.subrange(j as int, k as int) =~= v@.subrange(j as int, j + 2)
                            + v@.subrange(j + 2, k as int));
                        assert(v@.subrange(j as int, k as int) =~= esc_str(body@) + seq!['"']);
                    }
                    Some((body, k))
                },
                None => {
                    proof {
                        assert forall|m: Seq<char>| !((esc_str(m) + seq!['"']).is_prefix_of(t)) by {
                            if (esc_str(m) + seq!['"']).is_prefix_of(t) {
                                if m.len() == 0 {
                                    lemma_body_empty(m, t);
                                } else {
                                    lemma_body_step(m, t);
                                    assert(esc_char(m[0])[0] == '\\');
                                    assert(esc_char(m[0])[1] == e);
                                    assert(m[0] == e && esc_char(m[0]).len() == 2);
                                    lemma_skip_skip(v@, j as int, 2);
                                    assert((esc_str(m.skip(1)) + seq!['"']).is_prefix_of(
                                        v@.skip(j + 2),
                                    ));
                                }
                            }
                        }
                    }
                    None
                },
            }
        } else if e == 'u' {
            if v.len() - j < 6 || v[j + 2] != '0' || v[j + 3] != '0' {
                proof {
                    assert forall|m: Seq<char>| !((esc_str(m) + seq!['"']).is_prefix_of(t)) by {
                        if (esc_str(m) + seq!['"']).is_prefix_of(t) {
                            if m.len() == 0 {
                                lemma_body_empty(m, t);
                            } else {
                                lemma_body_step(m, t);
                                assert(esc_char(m[0])[0] == '\\');
                                assert(esc_char(m[0])[1] == 'u');
                                assert((m[0] as int) < 32);
                                assert(esc_char(m[0]).len() == 6);
                                assert(t.len() > 6);
                                assert(v@.len() - j > 6);
                                assert(t[2] == v@[j + 2] && t[3] == v@[j + 3]);
                                assert(t[2] == '0' && t[3] == '0');
                                assert(false);
                            }
                        }
                    }
                }
                return None;
            }
            let h1 = match hex_val(v[j + 4]) {
                Some(h) => h,
                None => {
                    proof {
                        assert forall|m: Seq<char>| !((esc_str(m) + seq!['"']).is_prefix_of(t)) by {
                            if (esc_str(m) + seq!['"']).is_prefix_of(t) {
                                if m.len() == 0 {
                                    lemma_body_empty(m, t);
                                } else {
                                    lemma_body_step(m, t);
                                    assert(esc_char(m[0])[0] == '\\');
                                    assert(esc_char(m[0])[1] == 'u');
                                    assert((m[0] as int) < 32);
                                    lemma_char_value(m[0]);
                                    assert(esc_char(m[0]).len() == 6);
                                    assert(0 <= m[0] as int / 16 < 16);
                                    assert(t[4] == v@[j + 4]);
                                    assert(t[4] == hex_digit(m[0] as int / 16));
                                    assert(false);
                                }
                            }
                        }
                    }
                    return None;
                },
            };
            let h2 = match hex_val(v[j + 5]) {
                Some(h) => h,
                None => {
                    proof {
                        assert forall|m: Seq<char>| !((esc_str(m) + seq!['"']).is_prefix_of(t)) by {
                            if (esc_str(m) + seq!['"']).is_prefix_of(t) {
                                if m.len() == 0 {
                                    lemma_body_empty(m, t);
                                } else {
                                    lemma_body_step(m, t);
                                    assert(esc_char(m[0])[0] == '\\');
                                    assert(esc_char(m[0])[1] == 'u');
                                    assert((m[0] as int) < 32);
                                    lemma_char_value(m[0]);
                                    assert(esc_char(m[0]).len() == 6);
                                    assert(0 <= m[0] as int % 16 < 16);
                                    assert(t[5] == v@[j + 5]);
                                    assert(t[5] == hex_digit(m[0] as int % 16));
                                    assert(false);
                                }
                            }
                        }
                    }
                    return None;
                },
            };
            let code: u8 = h1 * 16 + h2;
            if code >= 32 {
                proof {
                    assert forall|m: Seq<char>| !((esc_str(m) + seq!['"']).is_prefix_of(t)) by {
                        if (esc_str(m) + seq!['"']).is_prefix_of(t) {
                            if m.len() == 0 {
                                lemma_body_empty(m, t);
                            } else {
                                lemma_body_step(m, t);
                                assert(esc_char(m[0])[0] == '\\');
                                assert(esc_char(m[0])[1] == 'u');
                                assert((m[0] as int) < 32);
                                lemma_char_value(m[0]);
                                assert(esc_char(m[0]).len() == 6);
                                assert(t[4] == v@[j + 4] && t[5] == v@[j + 5]);
                                assert(t[4] == hex_digit(m[0] as int / 16));
                                assert(t[5] == hex_digit(m[0] as int % 16));
                                lemma_hex_digit_inj(m[0] as int / 16, h1 as int);
                                lemma_hex_digit_inj(m[0] as int % 16, h2 as int);
                                assert(m[0] as int == code as int);
                                assert(false);
                            }
                        }
                    }
                }
                return None;
            }
            let ch = code as char;
            assert(ch as int == code as int);
            match scan_string(v, j + 6) {
                Some((mut body, k)) => {
                    let ghost pre = body@;
                    body.insert(0, ch);
                    proof {
                        assert(body@[0] == ch);
                        assert(body@.skip(1) =~= pre);
                        assert(ch != '"' && ch != '\\' && (ch as int) < 32);
                        assert(code as int / 16 == h1 as int && code as int % 16 == h2 as int);
                        assert(esc_char(ch) =~= seq!['\\', 'u', '0', '0', v@[j + 4], v@[j + 5]]);
                        assert(esc_str(body@) == esc_char(ch) + esc_str(body@.skip(1)));
                        assert(v@.subrange(j as int, j + 6) =~= seq![
                            '\\',
                            'u',
                            '0',
                            '0',
                            v@[j + 4],
                            v@[j + 5],
                        ]);
                        assert(v@.subrange(j as int, k as int) =~= v@.subrange(j as int, j + 6)
                            + v@.subrange(j + 6, k as int));
                        assert(v@.subrange(j as int, k as int) =~= esc_str(body@) + seq!['"']);
                    }
                    Some((body, k))
                },
                None => {
                    proof {
                        assert forall|m: Seq<char>| !((esc_str(m) + seq!['"']).is_prefix_of(t)) by {
                            if (esc_str(m) + seq!['"']).is_prefix_of(t) {
                                if m.len() == 0 {
                                    lemma_body_empty(m, t);
                                } else {
                                    lemma_body_step(m, t);
                                    assert((m[0] as int) < 32);
                                    assert(t[4] == hex_digit(m[0] as int / 16));
                                    assert(t[5] == hex_digit(m[0] as int % 16));
                                    lemma_hex_digit_inj(m[0] as int / 16, h1 as int);
                                    lemma_hex_digit_inj(m[0] as int % 16, h2 as int);
                                    assert(m[0] as int == code as int);
                                    assert(esc_char(m[0]).len() == 6);
                                    lemma_skip_skip(v@, j as int, 6);
                                    assert((esc_str(m.skip(1)) + seq!['"']).is_prefix_of(
                                        v@.skip(j + 6),
                                    ));
                                }
                            }
                        }
                    }
                    None
                },
            }
        } else {
            proof {
                assert forall|m: Seq<char>| !((esc_str(m) + seq!['"']).is_prefix_of(t)) by {
                    if (esc_str(m) + seq!['"']).is_prefix_of(t) {
                        if m.len() == 0 {
                            lemma_body_empty(m, t);
                        } else {
                            lemma_body_step(m, t);
                            assert(esc_char(m[0])[0] == '\\');
                            assert(esc_char(m[0]).len() >= 2);
                            assert(esc_char(m[0])[1] == e);
                        }
                    }
                }
            }
            None
        }
    } else if (c as u32) < 32 {
        proof {
            lemma_char_value(c);
            assert((c as int) < 32);
            assert forall|m: Seq<char>| !((esc_str(m) + seq!['"']).is_prefix_of(t)) by {
                if (esc_str(m) + seq!['"']).is_prefix_of(t) {
                    if m.len() == 0 {
                        lemma_body_empty(m, t);
                    } else {
                        lemma_body_step(m, t);
                        lemma_esc_char_shape(m[0]);
                        assert(esc_char(m[0])[0] == c);
                        if m[0] == '"' || m[0] == '\\' || (m[0] as int) < 32 {
                            assert(c == '\\');
                        } else {
                            assert(m[0] == c && (m[0] as int) >= 32);
                        }
                    }
                }
            }
        }
        None
    } else {
        match scan_string(v, j + 1) {
            Some((mut body, k)) => {
                let ghost pre = body@;
                body.insert(0, c);
                proof {
                    assert(body@[0] == c);
                    assert(body@.skip(1) =~= pre);
                    lemma_esc_char_shape(c);
                    lemma_char_value(c);
                    assert((c as int) >= 32);
                    assert(esc_char(c) == seq![c]);
                    assert(esc_str(body@) == esc_char(c) + esc_str(body@.skip(1)));
                    assert(v@.subrange(j as int, j + 1) =~= seq![c]);
                    assert(v@.subrange(j as int, k as int) =~= v@.subrange(j as int, j + 1)
                        + v@.subrange(j + 1, k as int));
                    assert(v@.subrange(j as int, k as int) =~= esc_str(body@) + seq!['"']);
                }
                Some((body, k))
            },
            None => {
                proof {
                    assert forall|m: Seq<char>| !((esc_str(m) + seq!['"']).is_prefix_of(t)) by {
                        if (esc_str(m) + seq!['"']).is_prefix_of(t) {
                            if m.len() == 0 {
                                lemma_body_empty(m, t);
                            } else {
                                lemma_body_step(m, t);
                                lemma_esc_char_shape(m[0]);
                                assert(esc_char(m[0])[0] == c);
                                assert(m[0] == c && esc_char(m[0]).len() == 1);
                                lemma_skip_skip(v@, j as int, 1);
                                assert((esc_str(m.skip(1)) + seq!['"']).is_prefix_of(
                                    v@.skip(j + 1),
                                ));
                            }
                        }
                    }
                }
                None
            },
        }
    }
}

/// Parses a JSON string literal at position `i`: returns the decoded
/// string and the position after the closing quote.
fn parse_string(v: &Vec<char>, i: usize) -> (r: Option<(String, usize)>)
    requires
        i <= v@.len(),
    ensures
        r matches Some(p) ==> i < p.1 <= v@.len() && v@.subrange(i as int, p.1 as int)
            == enc_string(p.0@),
        r is None ==> forall|m: Seq<char>| !(enc_string(m).is_prefix_of(v@.skip(i as int))),
{
    let ghost t = v@.skip(i as int);
    if i < v.len() && v[i] == '"' {
        match scan_string(v, i + 1) {
            Some((body, k)) => {
                let s = chars_to_string(&body);
                proof {
                    assert(v@.subrange(i as int, k as int) =~= v@.subrange(i as int, i + 1)
                        + v@.subrange(i + 1, k as int));
                    assert(v@.subrange(i as int, i + 1) =~= seq!['"']);
                    assert(enc_string(s@) =~= seq!['"'] + (esc_str(body@) + seq!['"']));
                }
                Some((s, k))
            },
            None => {
                proof {
                    assert forall|m: Seq<char>| !(enc_string(m).is_prefix_of(t)) by {
                        if enc_string(m).is_prefix_of(t) {
                            assert(enc_string(m) =~= seq!['"'] + (esc_str(m) + seq!['"']));
                            lemma_prefix_of_concat(seq!['"'], esc_str(m) + seq!['"'], t);
                            lemma_skip_skip(v@, i as int, 1);
                            assert((esc_str(m) + seq!['"']).is_prefix_of(v@.skip(i + 1)));
                        }
                    }
                }
                None
            },
        }
    } else {
        proof {
            assert forall|m: Seq<char>| !(enc_string(m).is_prefix_of(t)) by {
                if enc_string(m).is_prefix_of(t) {
                    assert(enc_string(m)[0] == t.take(enc_string(m).len() as int)[0]);
                    assert(t[0] == '"');
                    assert(t[0] == v@[i as int]);
                }
            }
        }
        None
    }
}

/// The value of a character, as an integer: in the Unicode scalar range,
/// and the same whether read through `u32` or directly.
proof fn lemma_char_value(c: char)
    ensures
        0 <= c as int <= 0x10FFFF,
        c as int == c as u32 as int,
{
}

/// A parsed piece, seen as a prefix of the remaining input.
proof fn lemma_subrange_prefix(v: Seq<char>, i: int, k: int, p: Seq<char>)
    requires
        0 <= i <= k <= v.len(),
        v.subrange(i, k) == p,
    ensures
        p.is_prefix_of(v.skip(i)),
{
    assert(p =~= v.skip(i).take(k - i));
}

/// The tail of an encoded array — a comma-separated run of string
/// literals and the closing bracket — parsed at position `j`.
#[verifier::rlimit(50)]
fn scan_tail(v: &Vec<char>, j: usize) -> (r: Option<(Vec<String>, usize)>)
    requires
        j <= v@.len(),
    ensures
        r matches Some(p) ==> j < p.1 <= v@.len() && v@.subrange(j as int, p.1 as int) == enc_tail(
            p.0.deep_view(),
        ),
        r is None ==> forall|m: Seq<Seq<char>>| !(enc_tail(m).is_prefix_of(v@.skip(j as int))),
    decreases v@.len() - j,
{
    let ghost t = v@.skip(j as int);
    if j == v.len() {
        proof {
            assert forall|m: Seq<Seq<char>>| !(enc_tail(m).is_prefix_of(t)) by {
                assert(enc_tail(m).len() >= 1);
            }
        }
        return None;
    }
    let c = v[j];
    assert(t[0] == c);
    if c == ']' {
        let out: Vec<String> = Vec::new();
        proof {
            assert(out.deep_view() =~= Seq::<Seq<char>>::empty());
            assert(v@.subrange(j as int, j + 1) =~= enc_tail(out.deep_view()));
        }
        return Some((out, j + 1));
    }
    if c != ',' {
        proof {
            assert forall|m: Seq<Seq<char>>| !(enc_tail(m).is_prefix_of(t)) by {
                if enc_tail(m).is_prefix_of(t) {
                    assert(enc_tail(m)[0] == t.take(enc_tail(m).len() as int)[0]);
                }
            }
        }
        return None;
    }
    match parse_string(v, j + 1) {
        None => {
            proof {
                assert forall|m: Seq<Seq<char>>| !(enc_tail(m).is_prefix_of(t)) by {
                    if enc_tail(m).is_prefix_of(t) {
                        assert(enc_tail(m)[0] == t.take(enc_tail(m).len() as int)[0]);
                        assert(m.len() > 0);
                        assert(enc_tail(m) =~= seq![','] + (enc_string(m[0]) + enc_tail(
                            m.skip(1),
                        )));
                        lemma_prefix_of_concat(seq![','], enc_string(m[0]) + enc_tail(m.skip(1)), t);
                        lemma_prefix_of_concat(enc_string(m[0]), enc_tail(m.skip(1)), t.skip(1));
                        lemma_skip_skip(v@, j as int, 1);
                        assert(enc_string(m[0]).is_prefix_of(v@.skip(j + 1)));
                    }
                }
            }
            None
        },
        Some((s0, k1)) => {
            match scan_tail(v, k1) {
                None => {
                    proof {
                        assert forall|m: Seq<Seq<char>>| !(enc_tail(m).is_prefix_of(t)) by {
                            if enc_tail(m).is_prefix_of(t) {
                                assert(enc_tail(m)[0] == t.take(enc_tail(m).len() as int)[0]);
                                assert(m.len() > 0);
                                assert(enc_tail(m) =~= seq![','] + (enc_string(m[0]) + enc_tail(
                                    m.skip(1),
                                )));
                                lemma_prefix_of_concat(
                                    seq![','],
                                    enc_string(m[0]) + enc_tail(m.skip(1)),
                                    t,
                                );
                                lemma_prefix_of_concat(
                                    enc_string(m[0]),
                                    enc_tail(m.skip(1)),
                                    t.skip(1),
                                );
                                lemma_skip_skip(v@, j as int, 1);
                                lemma_subrange_prefix(v@, j + 1, k1 as int, enc_string(s0@));
                                lemma_enc_string_prefix_unique(m[0], s0@, v@.skip(j + 1));
                                assert(enc_string(m[0]).len() == k1 - (j + 1));
                                lemma_skip_skip(v@, j + 1, k1 - (j + 1));
                                assert(enc_tail(m.skip(1)).is_prefix_of(v@.skip(k1 as int)));
                            }
                        }
                    }
                    None
                },
                Some((mut rest, k2)) => {
                    let ghost predv = rest.deep_view();
                    rest.insert(0, s0);
                    proof {
                        assert(rest.deep_view()[0] == s0@);
                        assert(rest.deep_view().skip(1) =~= predv);
                        assert(enc_tail(rest.deep_view()) == seq![','] + enc_string(s0@)
                            + enc_tail(predv));
                        assert(v@.subrange(j as int, k2 as int) =~= v@.subrange(j as int, j + 1)
                            + v@.subrange(j + 1, k1 as int) + v@.subrange(k1 as int, k2 as int));
                        assert(v@.subrange(j as int, j + 1) =~= seq![',']);
                        assert(v@.subrange(j as int, k2 as int) =~= enc_tail(rest.deep_view()));
                    }
                    Some((rest, k2))
                },
            }
        },
    }
}

/// Parses a JSON array of string literals at position `i`.
#[verifier::rlimit(50)]
fn parse_array(v: &Vec<char>, i: usize) -> (r: Option<(Vec<String>, usize)>)
    requires
        i <= v@.len(),
    ensures
        r matches Some(p) ==> i < p.1 <= v@.len() && v@.subrange(i as int, p.1 as int) == enc_array(
            p.0.deep_view(),
        ),
        r is None ==> forall|m: Seq<Seq<char>>| !(enc_array(m).is_prefix_of(v@.skip(i as int))),
{
    let ghost t = v@.skip(i as int);
    if i == v.len() || v[i] != '[' {
        proof {
            assert forall|m: Seq<Seq<char>>| !(enc_array(m).is_prefix_of(t)) by {
                if enc_array(m).is_prefix_of(t) {
                    assert(enc_array(m).len() >= 2);
                    assert(enc_array(m)[0] == t.take(enc_array(m).len() as int)[0]);
                    assert(t[0] == '[');
                    assert(t[0] == v@[i as int]);
                }
            }
        }
        return None;
    }
    if i + 1 < v.len() && v[i + 1] == ']' {
        let out: Vec<String> = Vec::new();
        proof {
            assert(out.deep_view() =~= Seq::<Seq<char>>::empty());
            assert(v@.subrange(i as int, i + 2) =~= enc_array(out.deep_view()));
        }
        return Some((out, i + 2));
    }
    match parse_string(v, i + 1) {
        None => {
            proof {
                assert forall|m: Seq<Seq<char>>| !(enc_array(m).is_prefix_of(t)) by {
                    if enc_array(m).is_prefix_of(t) {
                        assert(enc_array(m).len() >= 2);
                        assert(enc_array(m)[1] == t.take(enc_array(m).len() as int)[1]);
                        assert(t[1] == v@[i + 1]);
                        if m.len() == 0 {
                            assert(t[1] == ']');
                            assert(false);
                        }
                        assert(enc_array(m) =~= seq!['['] + (enc_string(m[0]) + enc_tail(
                            m.skip(1),
                        )));
                        lemma_prefix_of_concat(seq!['['], enc_string(m[0]) + enc_tail(m.skip(1)), t);
                        lemma_prefix_of_concat(enc_string(m[0]), enc_tail(m.skip(1)), t.skip(1));
                        lemma_skip_skip(v@, i as int, 1);
                        assert(enc_string(m[0]).is_prefix_of(v@.skip(i + 1)));
                    }
                }
            }
            None
        },
        Some((s0, k1)) => {
            match scan_tail(v, k1) {
                None => {
                    proof {
                        assert forall|m: Seq<Seq<char>>| !(enc_array(m).is_prefix_of(t)) by {
                            if enc_array(m).is_prefix_of(t) {
                                assert(enc_array(m).len() >= 2);
                                assert(enc_array(m)[1] == t.take(enc_array(m).len() as int)[1]);
                                assert(t[1] == v@[i + 1]);
                                if m.len() == 0 {
                                    assert(t[1] == ']');
                                    assert(false);
                                }
                                assert(enc_array(m) =~= seq!['['] + (enc_string(m[0]) + enc_tail(
                                    m.skip(1),
                                )));
                                lemma_prefix_of_concat(
                                    seq!['['],
                                    enc_string(m[0]) + enc_tail(m.skip(1)),
                                    t,
                                );
                                lemma_prefix_of_concat(
                                    enc_string(m[0]),
                                    enc_tail(m.skip(1)),
                                    t.skip(1),
                                );
                                lemma_skip_skip(v@, i as int, 1);
                                lemma_subrange_prefix(v@, i + 1, k1 as int, enc_string(s0@));
                                lemma_enc_string_prefix_unique(m[0], s0@, v@.skip(i + 1));
                                assert(enc_string(m[0]).len() == k1 - (i + 1));
                                lemma_skip_skip(v@, i + 1, k1 - (i + 1));
                                assert(enc_tail(m.skip(1)).is_prefix_of(v@.skip(k1 as int)));
                            }
                        }
                    }
                    None
                },
                Some((mut rest, k2)) => {
                    let ghost predv = rest.deep_view();
                    rest.insert(0, s0);
                    proof {
                        assert(rest.deep_view()[0] == s0@);
                        assert(rest.deep_view().skip(1) =~= predv);
                        assert(enc_array(rest.deep_view()) == seq!['['] + enc_string(s0@)
                            + enc_tail(predv));
                        assert(v@.subrange(i as int, k2 as int) =~= v@.subrange(i as int, i + 1)
                            + v@.subrange(i + 1, k1 as int) + v@.subrange(k1 as int, k2 as int));
                        assert(v@.subrange(i as int, i + 1) =~= seq!['[']);
                        assert(v@.subrange(i as int, k2 as int) =~= enc_array(rest.deep_view()));
                    }
                    Some((rest, k2))
                },
            }
        },
    }
}

// ---------------------------------------------------------------------
// Where each piece of the canonical text stands.
// ---------------------------------------------------------------------
/// Offset of the `v3` array in the canonical text of `m`.
pub open spec fn off_v3(m: StatusModel) -> int {
    lit_open().len() as int
}

/// Offset of the text introducing `transceivers`.
pub open spec fn off_lit_tr(m: StatusModel) -> int {
    off_v3(m) + enc_array(m.v3).len()
}

/// Offset of the `transceivers` array.
pub open spec fn off_tr(m: StatusModel) -> int {
    off_lit_tr(m) + lit_transceivers().len()
}

/// Offset of the text introducing `user`.
pub open spec fn off_lit_user(m: StatusModel) -> int {
    off_tr(m) + enc_array(m.transceivers).len()
}

/// Offset of the `user` array.
pub open spec fn off_user(m: StatusModel) -> int {
    off_lit_user(m) + lit_user().len()
}

/// Offset of the text introducing `metar`.
pub open spec fn off_lit_metar(m: StatusModel) -> int {
    off_user(m) + enc_array(m.user).len()
}

/// Offset of the `metar` array.
pub open spec fn off_metar(m: StatusModel) -> int {
    off_lit_metar(m) + lit_metar().len()
}

/// Offset of the closing brace.
pub open spec fn off_close(m: StatusModel) -> int {
    off_metar(m) + enc_array(m.metar).len()
}

/// Each piece of the canonical text of `m` stands at its offset.
proof fn lemma_status_pieces(m: StatusModel, t: Seq<char>)
    requires
        t == enc_status(m),
    ensures
        lit_open().is_prefix_of(t),
        enc_array(m.v3).is_prefix_of(t.skip(off_v3(m))),
        lit_transceivers().is_prefix_of(t.skip(off_lit_tr(m))),
        enc_array(m.transceivers).is_prefix_of(t.skip(off_tr(m))),
        lit_user().is_prefix_of(t.skip(off_lit_user(m))),
        enc_array(m.user).is_prefix_of(t.skip(off_user(m))),
        lit_metar().is_prefix_of(t.skip(off_lit_metar(m))),
        enc_array(m.metar).is_prefix_of(t.skip(off_metar(m))),
        lit_close().is_prefix_of(t.skip(off_close(m))),
        t.len() == off_close(m) + lit_close().len(),
{
    let r8 = enc_array(m.metar) + lit_close();
    let r7 = lit_metar() + r8;
    let r6 = enc_array(m.user) + r7;
    let r5 = lit_user() + r6;
    let r4 = enc_array(m.transceivers) + r5;
    let r3 = lit_transceivers() + r4;
    let r2 = enc_array(m.v3) + r3;
    assert(t =~= lit_open() + r2);
    assert(t.take(t.len() as int) =~= t);
    assert((lit_open() + r2).is_prefix_of(t));
    lemma_prefix_of_concat(lit_open(), r2, t);
    lemma_prefix_of_concat(enc_array(m.v3), r3, t.skip(off_v3(m)));
    lemma_skip_skip(t, off_v3(m), enc_array(m.v3).len() as int);
    lemma_prefix_of_concat(lit_transceivers(), r4, t.skip(off_lit_tr(m)));
    lemma_skip_skip(t, off_lit_tr(m), lit_transceivers().len() as int);
    lemma_prefix_of_concat(enc_array(m.transceivers), r5, t.skip(off_tr(m)));
    lemma_skip_skip(t, off_tr(m), enc_array(m.transceivers).len() as int);
    lemma_prefix_of_concat(lit_user(), r6, t.skip(off_lit_user(m)));
    lemma_skip_skip(t, off_lit_user(m), lit_user().len() as int);
    lemma_prefix_of_concat(enc_array(m.user), r7, t.skip(off_user(m)));
    lemma_skip_skip(t, off_user(m), enc_array(m.user).len() as int);
    lemma_prefix_of_concat(lit_metar(), r8, t.skip(off_lit_metar(m)));
    lemma_skip_skip(t, off_lit_metar(m), lit_metar().len() as int);
    lemma_prefix_of_concat(enc_array(m.metar), lit_close(), t.skip(off_metar(m)));
    lemma_skip_skip(t, off_metar(m), enc_array(m.metar).len() as int);
}

/// Nine adjacent pieces, each the canonical text of its part, assemble
/// into the canonical text of the whole document.
proof fn lemma_status_assemble(
    t: Seq<char>,
    i0: int,
    i1: int,
    i2: int,
    i3: int,
    i4: int,
    i5: int,
    i6: int,
    i7: int,
    i8: int,
    m: StatusModel,
)
    requires
        0 <= i0 <= i1 <= i2 <= i3 <= i4 <= i5 <= i6 <= i7 <= i8 == t.len(),
        t.subrange(0, i0) == lit_open(),
        t.subrange(i0, i1) == enc_array(m.v3),
        t.subrange(i1, i2) == lit_transceivers(),
        t.subrange(i2, i3) == enc_array(m.transceivers),
        t.subrange(i3, i4) == lit_user(),
        t.subrange(i4, i5) == enc_array(m.user),
        t.subrange(i5, i6) == lit_metar(),
        t.subrange(i6, i7) == enc_array(m.metar),
        t.subrange(i7, i8) == lit_close(),
    ensures
        t == enc_status(m),
{
    assert(t =~= t.subrange(0, i0) + t.subrange(i0, i1) + t.subrange(i1, i2) + t.subrange(i2, i3)
        + t.subrange(i3, i4) + t.subrange(i4, i5) + t.subrange(i5, i6) + t.subrange(i6, i7)
        + t.subrange(i7, i8));
}

/// Decodes the canonical JSON text of a status document.  Exactly the
/// texts that `encode_status` produces are accepted; any other input is
/// reported as failure, so a cache file either round-trips or is
/// refetched.
#[verifier::rlimit(100)]
pub fn decode_status(s: &str) -> (r: Option<Status>)
    ensures
        r matches Some(st) ==> s@ == enc_status(st.model()),
        forall|m: StatusModel| s@ == enc_status(m) ==> (r matches Some(st) && st.model() == m),
{
    let v = str_to_chars(s);
    let i0 = match expect_lit(&v, 0, "{\"data\":{\"v3\":") {
        Some(i) => i,
        None => {
            proof {
                assert forall|m: StatusModel| s@ != enc_status(m) by {
                    if s@ == enc_status(m) {
                        lemma_status_pieces(m, s@);
                        assert(v@.skip(0) =~= v@);
                    }
                }
            }
            return None;
        },
    };
    proof {
        assert forall|m: StatusModel| s@ == enc_status(m) implies i0 == off_v3(m) by {}
    }
    let (a1, i1) = match parse_array(&v, i0) {
        Some(p) => p,
        None => {
            proof {
                assert forall|m: StatusModel| s@ != enc_status(m) by {
                    if s@ == enc_status(m) {
                        lemma_status_pieces(m, s@);
                    }
                }
            }
            return None;
        },
    };
    proof {
        assert forall|m: StatusModel| s@ == enc_status(m) implies a1.deep_view() == m.v3 && i1
            == off_lit_tr(m) by {
            lemma_status_pieces(m, s@);
            lemma_subrange_prefix(v@, i0 as int, i1 as int, enc_array(a1.deep_view()));
            lemma_enc_array_prefix_unique(a1.deep_view(), m.v3, v@.skip(i0 as int));
        }
    }
    let i2 = match expect_lit(&v, i1, ",\"transceivers\":") {
        Some(i) => i,
        None => {
            proof {
                assert forall|m: StatusModel| s@ != enc_status(m) by {
                    if s@ == enc_status(m) {
                        lemma_status_pieces(m, s@);
                    }
                }
            }
            return None;
        },
    };
    proof {
        assert forall|m: StatusModel| s@ == enc_status(m) implies i2 == off_tr(m) by {}
    }
    let (a2, i3) = match parse_array(&v, i2) {
        Some(p) => p,
        None => {
            proof {
                assert forall|m: StatusModel| s@ != enc_status(m) by {
                    if s@ == enc_status(m) {
                        lemma_status_pieces(m, s@);
                    }
                }
            }
            return None;
        },
    };
    proof {
        assert forall|m: StatusModel| s@ == enc_status(m) implies a2.deep_view()
            == m.transceivers && i3 == off_lit_user(m) by {
            lemma_status_pieces(m, s@);
            lemma_subrange_prefix(v@, i2 as int, i3 as int, enc_array(a2.deep_view()));
            lemma_enc_array_prefix_unique(a2.deep_view(), m.transceivers, v@.skip(i2 as int));
        }
    }
    let i4 = match expect_lit(&v, i3, "},\"user\":") {
        Some(i) => i,
        None => {
            proof {
                assert forall|m: StatusModel| s@ != enc_status(m) by {
                    if s@ == enc_status(m) {
                        lemma_status_pieces(m, s@);
                    }
                }
            }
            return None;
        },
    };
    proof {
        assert forall|m: StatusModel| s@ == enc_status(m) implies i4 == off_user(m) by {}
    }
    let (a3, i5) = match parse_array(&v, i4) {
        Some(p) => p,
        None => {
            proof {
                assert forall|m: StatusModel| s@ != enc_status(m) by {
                    if s@ == enc_status(m) {
                        lemma_status_pieces(m, s@);
                    }
                }
            }
            return None;
        },
    };
    proof {
        assert forall|m: StatusModel| s@ == enc_status(m) implies a3.deep_view() == m.user && i5
            == off_lit_metar(m) by {
            lemma_status_pieces(m, s@);
            lemma_subrange_prefix(v@, i4 as int, i5 as int, enc_array(a3.deep_view()));
            lemma_enc_array_prefix_unique(a3.deep_view(), m.user, v@.skip(i4 as int));
        }
    }
    let i6 = match expect_lit(&v, i5, ",\"metar\":") {
        Some(i) => i,
        None => {
            proof {
                assert forall|m: StatusModel| s@ != enc_status(m) by {
                    if s@ == enc_status(m) {
                        lemma_status_pieces(m, s@);
                    }
                }
            }
            return None;
        },
    };
    proof {
        assert forall|m: StatusModel| s@ == enc_status(m) implies i6 == off_metar(m) by {}
    }
    let (a4, i7) = match parse_array(&v, i6) {
        Some(p) => p,
        None => {
            proof {
                assert forall|m: StatusModel| s@ != enc_status(m) by {
                    if s@ == enc_status(m) {
                        lemma_status_pieces(m, s@);
                    }
                }
            }
            return None;
        },
    };
    proof {
        assert forall|m: StatusModel| s@ == enc_status(m) implies a4.deep_view() == m.metar && i7
            == off_close(m) by {
            lemma_status_pieces(m, s@);
            lemma_subrange_prefix(v@, i6 as int, i7 as int, enc_array(a4.deep_view()));
            lemma_enc_array_prefix_unique(a4.deep_view(), m.metar, v@.skip(i6 as int));
        }
    }
    let i8 = match expect_lit(&v, i7, "}") {
        Some(i) => i,
        None => {
            proof {
                assert forall|m: StatusModel| s@ != enc_status(m) by {
                    if s@ == enc_status(m) {
                        lemma_status_pieces(m, s@);
                    }
                }
            }
            return None;
        },
    };
    if i8 != v.len() {
        proof {
            assert forall|m: StatusModel| s@ != enc_status(m) by {
                if s@ == enc_status(m) {
                    lemma_status_pieces(m, s@);
                    assert(i8 == off_close(m) + lit_close().len());
                    assert(i8 == v@.len());
                }
            }
        }
        return None;
    }
    let st = Status { data: StatusData { v3: a1, transceivers: a2 }, user: a3, metar: a4 };
    proof {
        assert(st.model().v3 == st.data.v3.deep_view());
        lemma_status_assemble(
            v@,
            i0 as int,
            i1 as int,
            i2 as int,
            i3 as int,
            i4 as int,
            i5 as int,
            i6 as int,
            i7 as int,
            i8 as int,
            st.model(),
        );
        assert(s@ == enc_status(st.model()));
        assert forall|m: StatusModel| s@ == enc_status(m) implies st.model() == m by {
            assert(st.model() =~= m);
        }
    }
    Some(st)
}

} // verus!
