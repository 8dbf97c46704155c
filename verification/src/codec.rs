//! The store's line format. Each record is kept as one line of text,
//! a JSON object with the fields `url`, `tag` (a string or `null`) and
//! `date`, in that order and without spaces. String values escape the
//! quote, the backslash and the control characters; every other character
//! stands for itself. Serialization and parsing are verified against the
//! same mathematical definition of the format: parsing a serialized
//! record gives the record back (`lemma_parse_serialized`), and a line
//! parses exactly when it is some record's line (`lemma_parse_sound`).

use crate::record::{RecView, UrlType};
use vstd::prelude::*;

verus! {

/// The lower-case hexadecimal digit character for `n` (0 through 15).
pub open spec fn hex_digit(n: int) -> char {
    if n == 0 {
        '0'
    } else if n == 1 {
        '1'
    } else if n == 2 {
        '2'
    } else if n == 3 {
        '3'
    } else if n == 4 {
        '4'
    } else if n == 5 {
        '5'
    } else if n == 6 {
        '6'
    } else if n == 7 {
        '7'
    } else if n == 8 {
        '8'
    } else if n == 9 {
        '9'
    } else if n == 10 {
        'a'
    } else if n == 11 {
        'b'
    } else if n == 12 {
        'c'
    } else if n == 13 {
        'd'
    } else if n == 14 {
        'e'
    } else {
        'f'
    }
}

/// The numeric value of a lower-case hexadecimal digit character, or -1 for
/// any other character.
pub open spec fn hex_val(c: char) -> int {
    if c == '0' {
        0
    } else if c == '1' {
        1
    } else if c == '2' {
        2
    } else if c == '3' {
        3
    } else if c == '4' {
        4
    } else if c == '5' {
        5
    } else if c == '6' {
        6
    } else if c == '7' {
        7
    } else if c == '8' {
        8
    } else if c == '9' {
        9
    } else if c == 'a' {
        10
    } else if c == 'b' {
        11
    } else if c == 'c' {
        12
    } else if c == 'd' {
        13
    } else if c == 'e' {
        14
    } else if c == 'f' {
        15
    } else {
        -1
    }
}

/// How one character is written inside a quoted string value.
pub open spec fn esc_char(c: char) -> Seq<char> {
    if c == '"' {
        seq!['\\', '"']
    } else if c == '\\' {
        seq!['\\', '\\']
    } else if (c as u32) < 32 {
        seq![
            '\\',
            'u',
            '0',
            '0',
            if (c as u32) < 16 { '0' } else { '1' },
            hex_digit(((c as u32) % 16) as int),
        ]
    } else {
        seq![c]
    }
}

/// How a whole string value is written inside quotes.
pub open spec fn esc_seq(s: Seq<char>) -> Seq<char>
    decreases s.len(),
{
    if s.len() == 0 {
        Seq::empty()
    } else {
        esc_char(s[0]) + esc_seq(s.drop_first())
    }
}

/// Escaping distributes over concatenation.
proof fn lemma_esc_seq_app(a: Seq<char>, b: Seq<char>)
    ensures
        esc_seq(a + b) == esc_seq(a) + esc_seq(b),
    decreases a.len(),
{
    if a.len() == 0 {
        assert(a + b =~= b);
        assert(esc_seq(a) + esc_seq(b) =~= esc_seq(b));
    } else {
        assert((a + b).drop_first() =~= a.drop_first() + b);
        lemma_esc_seq_app(a.drop_first(), b);
        assert(esc_seq(a + b) =~= esc_seq(a) + esc_seq(b));
    }
}

/// The opening of a record line, through the quote that starts the URL.
pub open spec fn lit_head() -> Seq<char> {
    seq!['{', '"', 'u', 'r', 'l', '"', ':', '"']
}

/// The text between the URL value and the tag value.
pub open spec fn lit_tag() -> Seq<char> {
    seq![',', '"', 't', 'a', 'g', '"', ':']
}

/// The text between the tag value and the quote that starts the date.
pub open spec fn lit_date() -> Seq<char> {
    seq![',', '"', 'd', 'a', 't', 'e', '"', ':', '"']
}

/// The word that stands for an absent tag.
pub open spec fn lit_null() -> Seq<char> {
    seq!['n', 'u', 'l', 'l']
}

/// How the tag field is written: `null`, or the tag as a quoted string.
pub open spec fn tag_part(tag: Option<Seq<char>>) -> Seq<char> {
    match tag {
        None => lit_null(),
        Some(t) => seq!['"'] + esc_seq(t) + seq!['"'],
    }
}

/// The one line that a record is stored as.
pub open spec fn line_of(r: RecView) -> Seq<char> {
    lit_head() + esc_seq(r.url) + seq!['"'] + lit_tag() + tag_part(r.tag) + lit_date()
        + esc_seq(r.date) + seq!['"'] + seq!['}']
}

/// Prefix a decoded character onto the result of parsing the rest of a
/// quoted string.
pub open spec fn cons_char(c: char, o: Option<(Seq<char>, Seq<char>)>) -> Option<
    (Seq<char>, Seq<char>),
> {
    match o {
        Some(p) => Some((seq![c] + p.0, p.1)),
        None => None,
    }
}

/// Parse a quoted string value from `t`, which starts right after the
/// opening quote: the decoded value and the text after the closing quote,
/// or nothing if `t` is not a well-formed quoted string.
pub open spec fn parse_qbody(t: Seq<char>) -> Option<(Seq<char>, Seq<char>)>
    decreases t.len(),
{
    if t.len() == 0 {
        None
    } else if t[0] == '"' {
        Some((Seq::empty(), t.drop_first()))
    } else if t[0] == '\\' {
        if t.len() >= 2 && t[1] == '"' {
            cons_char('"', parse_qbody(t.skip(2)))
        } else if t.len() >= 2 && t[1] == '\\' {
            cons_char('\\', parse_qbody(t.skip(2)))
        } else if t.len() >= 6 && t[1] == 'u' && t[2] == '0' && t[3] == '0' && (t[4] == '0' || t[4]
            == '1') && hex_val(t[5]) >= 0 {
            cons_char(ctl_char(t[4], t[5]), parse_qbody(t.skip(6)))
        } else {
            None
        }
    } else if (t[0] as u32) < 32 {
        None
    } else {
        cons_char(t[0], parse_qbody(t.skip(1)))
    }
}

/// The control character written as `\u00hx`.
pub open spec fn ctl_char(h: char, x: char) -> char {
    (((if h == '1' {
        16int
    } else {
        0int
    }) + hex_val(x)) as u32) as char
}

/// Parse the date value and the closing brace, the tail of a record line.
pub open spec fn parse_line_tail(url: Seq<char>, tag: Option<Seq<char>>, t: Seq<char>) -> Option<
    RecView,
> {
    if t.len() >= 9 && t.take(9) == lit_date() {
        match parse_qbody(t.skip(9)) {
            Some(p) => if p.1 == seq!['}'] {
                Some(RecView { url, tag, date: p.0 })
            } else {
                None
            },
            None => None,
        }
    } else {
        None
    }
}

/// Parse one store line: the record it holds, or nothing if the line is
/// not a well-formed record line.
pub open spec fn parse_line(s: Seq<char>) -> Option<RecView> {
    if s.len() >= 8 && s.take(8) == lit_head() {
        match parse_qbody(s.skip(8)) {
            Some(up) => {
                let url = up.0;
                let r1 = up.1;
                if r1.len() >= 7 && r1.take(7) == lit_tag() {
                    let r2 = r1.skip(7);
                    if r2.len() >= 4 && r2.take(4) == lit_null() {
                        parse_line_tail(url, None, r2.skip(4))
                    } else if r2.len() >= 1 && r2[0] == '"' {
                        match parse_qbody(r2.skip(1)) {
                            Some(tp) => parse_line_tail(url, Some(tp.0), tp.1),
                            None => None,
                        }
                    } else {
                        None
                    }
                } else {
                    None
                }
            },
            None => None,
        }
    } else {
        None
    }
}

/// Parsing a quoted string consumes exactly the escaped value and its
/// closing quote, and decodes back to the value.
pub proof fn lemma_qbody_roundtrip(s: Seq<char>, rest: Seq<char>)
    ensures
        parse_qbody(esc_seq(s) + seq!['"'] + rest) == Some((s, rest)),
    decreases s.len(),
{
    let t = esc_seq(s) + seq!['"'] + rest;
    if s.len() == 0 {
        assert(t =~= seq!['"'] + rest);
        assert(t[0] == '"');
        assert(t.drop_first() =~= rest);
        assert(parse_qbody(t) == Some((Seq::<char>::empty(), rest)));
        assert(Seq::<char>::empty() =~= s);
    } else {
        let c = s[0];
        let s1 = s.drop_first();
        let tail = esc_seq(s1) + seq!['"'] + rest;
        assert(esc_seq(s) == esc_char(c) + esc_seq(s1));
        assert(t =~= esc_char(c) + tail);
        lemma_qbody_roundtrip(s1, rest);
        assert(seq![c] + s1 =~= s);
        if c == '"' {
            assert(t[0] == '\\' && t[1] == '"');
            assert(t.skip(2) =~= tail);
            assert(parse_qbody(t) == cons_char('"', parse_qbody(tail)));
        } else if c == '\\' {
            assert(t[0] == '\\' && t[1] == '\\');
            assert(t.skip(2) =~= tail);
            assert(parse_qbody(t) == cons_char('\\', parse_qbody(tail)));
        } else if (c as u32) < 32 {
            let v = c as u32;
            let h = if v < 16 { '0' } else { '1' };
            let x = hex_digit((v % 16) as int);
            assert(t[0] == '\\' && t[1] == 'u' && t[2] == '0' && t[3] == '0');
            assert(t[4] == h && t[5] == x);
            assert(h == '0' || h == '1');
            assert(hex_val(x) == v % 16);
            assert(t.skip(6) =~= tail);
            assert(((if h == '1' {
                16int
            } else {
                0int
            }) + hex_val(x)) == v as int);
            vstd::utf8::char_u32_cast(c, v);
            assert(ctl_char(h, x) == c);
            assert(parse_qbody(t) == cons_char(c, parse_qbody(tail)));
        } else {
            assert(t[0] == c);
            assert(t.skip(1) =~= tail);
            assert(parse_qbody(t) == cons_char(c, parse_qbody(tail)));
        }
        assert(parse_qbody(t) == Some((s, rest)));
    }
}

/// Round trip: a record's line parses back to the record.
#[verifier::rlimit(100)]
pub proof fn lemma_parse_serialized(r: RecView)
    ensures
        parse_line(line_of(r)) == Some(r),
{
    let s = line_of(r);
    let after_url = lit_tag() + tag_part(r.tag) + lit_date() + esc_seq(r.date) + seq!['"']
        + seq!['}'];
    assert(s =~= lit_head() + (esc_seq(r.url) + seq!['"'] + after_url));
    assert(s.take(8) =~= lit_head());
    assert(s.skip(8) =~= esc_seq(r.url) + seq!['"'] + after_url);
    lemma_qbody_roundtrip(r.url, after_url);
    assert(parse_qbody(s.skip(8)) == Some((r.url, after_url)));
    assert(after_url.take(7) =~= lit_tag());
    let r2 = after_url.skip(7);
    let after_tag = lit_date() + esc_seq(r.date) + seq!['"'] + seq!['}'];
    assert(r2 =~= tag_part(r.tag) + after_tag);
    let tail_rest = after_tag;
    match r.tag {
        None => {
            assert(r2 =~= lit_null() + after_tag);
            assert(r2.take(4) =~= lit_null());
            assert(r2.skip(4) =~= after_tag);
        },
        Some(tg) => {
            assert(r2 =~= seq!['"'] + (esc_seq(tg) + seq!['"'] + after_tag));
            assert(r2[0] == '"');
            assert(r2.take(4) != lit_null()) by {
                assert(r2.take(4)[0] == '"' && lit_null()[0] == 'n');
            }
            assert(r2.skip(1) =~= esc_seq(tg) + seq!['"'] + after_tag);
            lemma_qbody_roundtrip(tg, after_tag);
            assert(parse_qbody(r2.skip(1)) == Some((tg, after_tag)));
        },
    }
    // the common tail: the date value and the closing brace
    assert(tail_rest.take(9) =~= lit_date());
    assert(tail_rest.skip(9) =~= esc_seq(r.date) + seq!['"'] + seq!['}']);
    lemma_qbody_roundtrip(r.date, seq!['}']);
    assert(parse_qbody(tail_rest.skip(9)) == Some((r.date, seq!['}'])));
    assert(parse_line_tail(r.url, r.tag, tail_rest) == Some(
        RecView { url: r.url, tag: r.tag, date: r.date },
    ));
    assert(RecView { url: r.url, tag: r.tag, date: r.date } =~= r);
}

/// Soundness of quoted-string parsing: whatever parses was exactly the
/// escaped value followed by its closing quote.
#[verifier::rlimit(100)]
pub proof fn lemma_qbody_sound(t: Seq<char>, s: Seq<char>, rest: Seq<char>)
    requires
        parse_qbody(t) == Some((s, rest)),
    ensures
        t == esc_seq(s) + seq!['"'] + rest,
    decreases t.len(),
{
    if t[0] == '"' {
        assert(s =~= Seq::<char>::empty());
        assert(t =~= esc_seq(s) + seq!['"'] + rest);
    } else if t[0] == '\\' {
        if t.len() >= 2 && t[1] == '"' {
            let inner = parse_qbody(t.skip(2));
            let p = inner->Some_0;
            lemma_qbody_sound(t.skip(2), p.0, p.1);
            assert(s == seq!['"'] + p.0);
            assert(esc_char('"') =~= seq!['\\', '"']);
            assert(esc_seq(s) == esc_char('"') + esc_seq(p.0)) by {
                assert(s[0] == '"');
                assert(s.drop_first() =~= p.0);
            }
            assert(esc_seq(s) + seq!['"'] + rest =~= seq!['\\', '"'] + (esc_seq(p.0)
                + seq!['"'] + p.1));
            assert(t =~= seq!['\\', '"'] + t.skip(2));
            assert(t == esc_seq(s) + seq!['"'] + rest);
        } else if t.len() >= 2 && t[1] == '\\' {
            let inner = parse_qbody(t.skip(2));
            let p = inner->Some_0;
            lemma_qbody_sound(t.skip(2), p.0, p.1);
            assert(s == seq!['\\'] + p.0);
            assert(esc_char('\\') =~= seq!['\\', '\\']);
            assert(esc_seq(s) == esc_char('\\') + esc_seq(p.0)) by {
                assert(s[0] == '\\');
                assert(s.drop_first() =~= p.0);
            }
            assert(esc_seq(s) + seq!['"'] + rest =~= seq!['\\', '\\'] + (esc_seq(p.0)
                + seq!['"'] + p.1));
            assert(t =~= seq!['\\', '\\'] + t.skip(2));
            assert(t == esc_seq(s) + seq!['"'] + rest);
        } else {
            let inner = parse_qbody(t.skip(6));
            let p = inner->Some_0;
            lemma_qbody_sound(t.skip(6), p.0, p.1);
            let c = ctl_char(t[4], t[5]);
            let v = (if t[4] == '1' {
                16int
            } else {
                0int
            }) + hex_val(t[5]);
            assert(0 <= v < 32);
            assert(c as u32 == v);
            assert(s == seq![c] + p.0);
            assert(esc_char(c) =~= seq!['\\', 'u', '0', '0', t[4], t[5]]) by {
                assert((c as u32) < 16 ==> t[4] == '0');
                assert((c as u32) >= 16 ==> t[4] == '1');
                assert(hex_digit(((c as u32) % 16) as int) == t[5]);
            }
            assert(esc_seq(s) == esc_char(c) + esc_seq(p.0)) by {
                assert(s[0] == c);
                assert(s.drop_first() =~= p.0);
            }
            assert(esc_seq(s) + seq!['"'] + rest =~= seq!['\\', 'u', '0', '0', t[4], t[5]] + (
            esc_seq(p.0) + seq!['"'] + p.1));
            assert(t =~= seq!['\\', 'u', '0', '0', t[4], t[5]] + t.skip(6));
            assert(t == esc_seq(s) + seq!['"'] + rest);
        }
    } else {
        let inner = parse_qbody(t.skip(1));
        let p = inner->Some_0;
        lemma_qbody_sound(t.skip(1), p.0, p.1);
        let c = t[0];
        assert(s == seq![c] + p.0);
        assert(esc_char(c) =~= seq![c]);
        assert(esc_seq(s) == esc_char(c) + esc_seq(p.0)) by {
            assert(s[0] == c);
            assert(s.drop_first() =~= p.0);
        }
        assert(esc_seq(s) + seq!['"'] + rest =~= seq![c] + (esc_seq(p.0) + seq!['"'] + p.1));
        assert(t =~= seq![c] + t.skip(1));
        assert(t == esc_seq(s) + seq!['"'] + rest);
    }
}

/// Soundness of line parsing: a line that parses is exactly the parsed
/// record's line. With `lemma_parse_serialized`, the parser accepts a line
/// if and only if it is some record's line, and then returns that record.
#[verifier::rlimit(100)]
pub proof fn lemma_parse_sound(s: Seq<char>, r: RecView)
    requires
        parse_line(s) == Some(r),
    ensures
        s == line_of(r),
{
    let up = parse_qbody(s.skip(8))->Some_0;
    let url = up.0;
    let r1 = up.1;
    lemma_qbody_sound(s.skip(8), url, r1);
    assert(s =~= s.take(8) + s.skip(8));
    let r2 = r1.skip(7);
    assert(r1 =~= r1.take(7) + r2);
    if r2.len() >= 4 && r2.take(4) == lit_null() {
        let r3 = r2.skip(4);
        assert(r2 =~= r2.take(4) + r3);
        let dp = parse_qbody(r3.skip(9))->Some_0;
        lemma_qbody_sound(r3.skip(9), dp.0, dp.1);
        assert(r3 =~= r3.take(9) + r3.skip(9));
        assert(r == RecView { url: url, tag: None, date: dp.0 });
        assert(s =~= line_of(r));
    } else {
        let tp = parse_qbody(r2.skip(1))->Some_0;
        lemma_qbody_sound(r2.skip(1), tp.0, tp.1);
        assert(r2 =~= seq!['"'] + r2.skip(1)) by {
            assert(r2[0] == '"');
        }
        let r3 = tp.1;
        let dp = parse_qbody(r3.skip(9))->Some_0;
        lemma_qbody_sound(r3.skip(9), dp.0, dp.1);
        assert(r3 =~= r3.take(9) + r3.skip(9));
        assert(r == RecView { url: url, tag: Some(tp.0), date: dp.0 });
        assert(s =~= line_of(r));
    }
}

/// Relies on `String`'s `FromIterator` over `char`: collecting characters
/// in order yields the string of exactly those characters.
#[verifier::external_body]
pub(crate) fn chars_to_string(v: &Vec<char>) -> (s: String)
    ensures
        s@ == v@,
{
    v.iter().collect()
}

/// The characters of `s`, as a vector.
fn str_chars(s: &str) -> (v: Vec<char>)
    ensures
        v@ == s@,
{
    let n = s.unicode_len();
    let mut v: Vec<char> = Vec::new();
    let mut i: usize = 0;
    while i < n
        invariant
            n == s@.len(),
            0 <= i <= n,
            v@ =~= s@.take(i as int),
        decreases n - i,
    {
        v.push(s.get_char(i));
        i = i + 1;
    }
    proof {
        assert(s@.take(n as int) =~= s@);
    }
    v
}

/// Append the escaped form of one character to `out`.
fn push_esc_char(out: &mut Vec<char>, c: char)
    ensures
        final(out)@ == old(out)@ + esc_char(c),
{
    if c == '"' {
        out.push('\\');
        out.push('"');
    } else if c == '\\' {
        out.push('\\');
        out.push('\\');
    } else if (c as u32) < 32 {
        let v = c as u32;
        out.push('\\');
        out.push('u');
        out.push('0');
        out.push('0');
        if v < 16 {
            out.push('0');
        } else {
            out.push('1');
        }
        out.push(hex_digit_char((v % 16) as u8));
    } else {
        out.push(c);
    }
    proof {
        assert(out@ =~= old(out)@ + esc_char(c));
    }
}

/// The lower-case hexadecimal digit character for `d`, executably.
fn hex_digit_char(d: u8) -> (c: char)
    requires
        d < 16,
    ensures
        c == hex_digit(d as int),
{
    match d {
        0 => '0',
        1 => '1',
        2 => '2',
        3 => '3',
        4 => '4',
        5 => '5',
        6 => '6',
        7 => '7',
        8 => '8',
        9 => '9',
        10 => 'a',
        11 => 'b',
        12 => 'c',
        13 => 'd',
        14 => 'e',
        _ => 'f',
    }
}

/// Append the escaped form of a whole string value to `out`.
fn push_escaped(out: &mut Vec<char>, s: &str)
    ensures
        final(out)@ == old(out)@ + esc_seq(s@),
{
    let n = s.unicode_len();
    let mut i: usize = 0;
    while i < n
        invariant
            n == s@.len(),
            0 <= i <= n,
            out@ == old(out)@ + esc_seq(s@.take(i as int)),
        decreases n - i,
    {
        push_esc_char(out, s.get_char(i));
        proof {
            let c = s@[i as int];
            let p = s@.take(i as int);
            let q = s@.take(i + 1);
            let one = seq![c];
            assert(q =~= p + one);
            lemma_esc_seq_app(p, one);
            assert(one.len() == 1);
            assert(one.drop_first() =~= Seq::<char>::empty());
            assert(esc_seq(one) == esc_char(one[0]) + esc_seq(one.drop_first()));
            assert(one[0] == c);
            assert(esc_seq(Seq::<char>::empty()) == Seq::<char>::empty());
            assert(esc_char(c) + Seq::<char>::empty() =~= esc_char(c));
            assert(old(out)@ + esc_seq(p) + esc_char(c) =~= old(out)@ + esc_seq(q));
        }
        i = i + 1;
    }
    proof {
        assert(s@.take(n as int) =~= s@);
    }
}

/// Serialize a record as its one store line (without the line break).
#[verifier::rlimit(100)]
pub fn serialize_record(rec: &UrlType) -> (r: String)
    ensures
        r@ == line_of(rec@),
{
    let mut out: Vec<char> = Vec::new();
    out.push('{');
    out.push('"');
    out.push('u');
    out.push('r');
    out.push('l');
    out.push('"');
    out.push(':');
    out.push('"');
    proof {
        assert(out@ =~= lit_head());
    }
    push_escaped(&mut out, rec.url.as_str());
    out.push('"');
    out.push(',');
    out.push('"');
    out.push('t');
    out.push('a');
    out.push('g');
    out.push('"');
    out.push(':');
    match &rec.tag {
        None => {
            out.push('n');
            out.push('u');
            out.push('l');
            out.push('l');
        },
        Some(t) => {
            out.push('"');
            push_escaped(&mut out, t.as_str());
            out.push('"');
        },
    }
    out.push(',');
    out.push('"');
    out.push('d');
    out.push('a');
    out.push('t');
    out.push('e');
    out.push('"');
    out.push(':');
    out.push('"');
    push_escaped(&mut out, rec.date.as_str());
    out.push('"');
    out.push('}');
    proof {
        assert(out@ =~= line_of(rec@));
    }
    chars_to_string(&out)
}

/// Prefix an already-decoded piece onto the result of parsing the rest of
/// a quoted string.
spec fn prepend(p: Seq<char>, o: Option<(Seq<char>, Seq<char>)>) -> Option<
    (Seq<char>, Seq<char>),
> {
    match o {
        Some(q) => Some((p + q.0, q.1)),
        None => None,
    }
}

proof fn lemma_prepend_cons(p: Seq<char>, c: char, o: Option<(Seq<char>, Seq<char>)>)
    ensures
        prepend(p, cons_char(c, o)) == prepend(p.push(c), o),
{
    match o {
        Some(q) => {
            assert(p + (seq![c] + q.0) =~= p.push(c) + q.0);
        },
        None => {},
    }
}

/// The value of a lower-case hexadecimal digit character, executably.
fn hex_val_char(c: char) -> (r: Option<u8>)
    ensures
        match r {
            Some(v) => v < 16 && hex_val(c) == v as int,
            None => hex_val(c) < 0,
        },
{
    match c {
        '0' => Some(0),
        '1' => Some(1),
        '2' => Some(2),
        '3' => Some(3),
        '4' => Some(4),
        '5' => Some(5),
        '6' => Some(6),
        '7' => Some(7),
        '8' => Some(8),
        '9' => Some(9),
        'a' => Some(10),
        'b' => Some(11),
        'c' => Some(12),
        'd' => Some(13),
        'e' => Some(14),
        'f' => Some(15),
        _ => None,
    }
}

/// Parse a quoted string value of `cs` starting right after the opening
/// quote at `start`: the decoded value and the position after the closing
/// quote.
fn parse_qbody_at(cs: &Vec<char>, start: usize) -> (r: Option<(Vec<char>, usize)>)
    requires
        start <= cs@.len(),
    ensures
        match r {
            Some(p) => start < p.1 <= cs@.len() && parse_qbody(cs@.skip(start as int)) == Some(
                (p.0@, cs@.skip(p.1 as int)),
            ),
            None => parse_qbody(cs@.skip(start as int)) is None,
        },
{
    let mut out: Vec<char> = Vec::new();
    let mut i: usize = start;
    loop
        invariant
            start <= i <= cs@.len(),
            parse_qbody(cs@.skip(start as int)) == prepend(out@, parse_qbody(cs@.skip(i as int))),
        decreases cs@.len() - i,
    {
        proof {
            assert(cs@.skip(i as int).len() == cs@.len() - i);
        }
        if i == cs.len() {
            return None;
        }
        let ghost t = cs@.skip(i as int);
        proof {
            assert(t[0] == cs@[i as int]);
        }
        let c = cs[i];
        if c == '"' {
            proof {
                assert(t.drop_first() =~= cs@.skip(i + 1));
                assert(parse_qbody(t) == Some((Seq::<char>::empty(), cs@.skip(i + 1))));
                assert(out@ + Seq::<char>::empty() =~= out@);
            }
            return Some((out, i + 1));
        }
        if c == '\\' {
            if cs.len() - i < 2 {
                proof {
                    assert(parse_qbody(t) is None);
                }
                return None;
            }
            proof {
                assert(t[1] == cs@[i + 1]);
            }
            let d = cs[i + 1];
            if d == '"' {
                proof {
                    assert(t.skip(2) =~= cs@.skip(i + 2));
                    lemma_prepend_cons(out@, '"', parse_qbody(cs@.skip(i + 2)));
                }
                out.push('"');
                i = i + 2;
            } else if d == '\\' {
                proof {
                    assert(t.skip(2) =~= cs@.skip(i + 2));
                    lemma_prepend_cons(out@, '\\', parse_qbody(cs@.skip(i + 2)));
                }
                out.push('\\');
                i = i + 2;
            } else if d == 'u' {
                if cs.len() - i < 6 {
                    proof {
                        assert(parse_qbody(t) is None);
                    }
                    return None;
                }
                proof {
                    assert(t[2] == cs@[i + 2] && t[3] == cs@[i + 3] && t[4] == cs@[i + 4] && t[5]
                        == cs@[i + 5]);
                }
                if cs[i + 2] != '0' || cs[i + 3] != '0' {
                    proof {
                        assert(parse_qbody(t) is None);
                    }
                    return None;
                }
                let h = cs[i + 4];
                if h != '0' && h != '1' {
                    proof {
                        assert(parse_qbody(t) is None);
                    }
                    return None;
                }
                let x = cs[i + 5];
                match hex_val_char(x) {
                    None => {
                        proof {
                            assert(parse_qbody(t) is None);
                        }
                        return None;
                    },
                    Some(v) => {
                        let code: u8 = if h == '1' {
                            16 + v
                        } else {
                            v
                        };
                        let decoded = code as char;
                        proof {
                            assert(decoded as u32 == code as u32);
                            vstd::utf8::char_u32_cast(decoded, code as u32);
                            assert(ctl_char(h, x) == decoded);
                            assert(t.skip(6) =~= cs@.skip(i + 6));
                            lemma_prepend_cons(out@, decoded, parse_qbody(cs@.skip(i + 6)));
                        }
                        out.push(decoded);
                        i = i + 6;
                    },
                }
            } else {
                proof {
                    assert(parse_qbody(t) is None);
                }
                return None;
            }
        } else if (c as u32) < 32 {
            proof {
                assert(parse_qbody(t) is None);
            }
            return None;
        } else {
            proof {
                assert(t.skip(1) =~= cs@.skip(i + 1));
                assert(t.drop_first() =~= t.skip(1));
                lemma_prepend_cons(out@, c, parse_qbody(cs@.skip(i + 1)));
            }
            out.push(c);
            i = i + 1;
        }
    }
}

/// Parse one store line. The result is exactly what the line format says:
/// the record whose line this is, or nothing when the line is not a
/// well-formed record line (`parse_line`).
#[verifier::rlimit(100)]
pub fn parse_record(line: &str) -> (res: Option<UrlType>)
    ensures
        match res {
            Some(rec) => parse_line(line@) == Some(rec@),
            None => parse_line(line@) is None,
        },
{
    let cs = str_chars(line);
    let ghost s = line@;
    if cs.len() < 8 {
        return None;
    }
    if cs[0] != '{' || cs[1] != '"' || cs[2] != 'u' || cs[3] != 'r' || cs[4] != 'l' || cs[5] != '"'
        || cs[6] != ':' || cs[7] != '"' {
        proof {
            assert(s.take(8) != lit_head()) by {
                if s.take(8) == lit_head() {
                    assert(forall|k: int| 0 <= k < 8 ==> s.take(8)[k] == s[k]);
                }
            }
        }
        return None;
    }
    proof {
        assert(s.take(8) =~= lit_head());
    }
    let up = match parse_qbody_at(&cs, 8) {
        None => {
            return None;
        },
        Some(p) => p,
    };
    let urlv = up.0;
    let j = up.1;
    let ghost r1 = s.skip(j as int);
    if cs.len() - j < 7 {
        proof {
            assert(r1.len() < 7);
        }
        return None;
    }
    proof {
        assert(forall|k: int| 0 <= k < 7 ==> r1[k] == s[j + k]);
    }
    if cs[j] != ',' || cs[j + 1] != '"' || cs[j + 2] != 't' || cs[j + 3] != 'a' || cs[j + 4] != 'g'
        || cs[j + 5] != '"' || cs[j + 6] != ':' {
        proof {
            assert(r1.take(7) != lit_tag()) by {
                if r1.take(7) == lit_tag() {
                    assert(forall|k: int| 0 <= k < 7 ==> r1.take(7)[k] == r1[k]);
                }
            }
        }
        return None;
    }
    proof {
        assert(r1.take(7) =~= lit_tag());
    }
    let j2 = j + 7;
    let ghost r2 = s.skip(j2 as int);
    proof {
        assert(r2 =~= r1.skip(7));
        assert(forall|k: int| 0 <= k < r2.len() ==> r2[k] == s[j2 + k]);
    }
    let is_null = cs.len() - j2 >= 4 && cs[j2] == 'n' && cs[j2 + 1] == 'u' && cs[j2 + 2] == 'l'
        && cs[j2 + 3] == 'l';
    let tag_parsed: Option<Vec<char>>;
    let jt: usize;
    if is_null {
        proof {
            assert(r2.take(4) =~= lit_null());
        }
        tag_parsed = None;
        jt = j2 + 4;
        proof {
            assert(r2.skip(4) =~= s.skip(jt as int));
        }
    } else {
        proof {
            assert(!(r2.len() >= 4 && r2.take(4) == lit_null())) by {
                if r2.len() >= 4 && r2.take(4) == lit_null() {
                    assert(forall|k: int| 0 <= k < 4 ==> r2.take(4)[k] == r2[k]);
                    assert(r2[0] == 'n' && r2[1] == 'u' && r2[2] == 'l' && r2[3] == 'l');
                }
            }
        }
        if cs.len() == j2 || cs[j2] != '"' {
            proof {
                assert(!(r2.len() >= 1 && r2[0] == '"'));
            }
            return None;
        }
        match parse_qbody_at(&cs, j2 + 1) {
            None => {
                proof {
                    assert(r2.skip(1) =~= s.skip(j2 + 1));
                }
                return None;
            },
            Some(tp) => {
                proof {
                    assert(r2.skip(1) =~= s.skip(j2 + 1));
                }
                jt = tp.1;
                tag_parsed = Some(tp.0);
            },
        }
    }
    let ghost r3 = s.skip(jt as int);
    if cs.len() - jt < 9 {
        proof {
            assert(r3.len() < 9);
        }
        return None;
    }
    proof {
        assert(forall|k: int| 0 <= k < 9 ==> r3[k] == s[jt + k]);
    }
    if cs[jt] != ',' || cs[jt + 1] != '"' || cs[jt + 2] != 'd' || cs[jt + 3] != 'a' || cs[jt + 4]
        != 't' || cs[jt + 5] != 'e' || cs[jt + 6] != '"' || cs[jt + 7] != ':' || cs[jt + 8] != '"' {
        proof {
            assert(r3.take(9) != lit_date()) by {
                if r3.take(9) == lit_date() {
                    assert(forall|k: int| 0 <= k < 9 ==> r3.take(9)[k] == r3[k]);
                }
            }
        }
        return None;
    }
    proof {
        assert(r3.take(9) =~= lit_date());
        assert(r3.skip(9) =~= s.skip(jt + 9));
    }
    let dp = match parse_qbody_at(&cs, jt + 9) {
        None => {
            return None;
        },
        Some(p) => p,
    };
    let datev = dp.0;
    let j4 = dp.1;
    let ghost r4 = s.skip(j4 as int);
    if cs.len() - j4 != 1 || cs[j4] != '}' {
        proof {
            assert(r4 != seq!['}']) by {
                if r4 == seq!['}'] {
                    assert(r4.len() == 1 && r4[0] == '}');
                    assert(r4[0] == s[j4 as int]);
                }
            }
        }
        return None;
    }
    proof {
        assert(r4 =~= seq!['}']) by {
            assert(r4.len() == 1 && r4[0] == s[j4 as int]);
        }
    }
    let tag_str: Option<String> = match tag_parsed {
        Some(tv) => Some(chars_to_string(&tv)),
        None => None,
    };
    let rec = UrlType { url: chars_to_string(&urlv), tag: tag_str, date: chars_to_string(&datev) };
    proof {
        assert(parse_line(s) == Some(rec@));
    }
    Some(rec)
}

} // verus!
