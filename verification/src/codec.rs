//! The report wire format: a two-field, key-ordered textual object
//! encoding (`{"topic":...,"payload":...}`) with escaped string
//! values, together with its decoder and a round-trip proof.

use vstd::prelude::*;

use crate::strutil::{chars_to_string, string_to_chars};

verus! {

/// A one-shot snapshot of the buffer's rendered contents, packaged
/// with a topic string for external delivery.
pub struct Report {
    pub topic: String,
    pub payload: String,
}

/// The mathematical value of a [`Report`].
pub ghost struct ReportView {
    pub topic: Seq<char>,
    pub payload: Seq<char>,
}

impl View for Report {
    type V = ReportView;

    open spec fn view(&self) -> ReportView {
        ReportView { topic: self.topic@, payload: self.payload@ }
    }
}

/// The character for one hexadecimal digit.
pub open spec fn hex_digit(d: int) -> char {
    if d == 0 {
        '0'
    } else if d == 1 {
        '1'
    } else if d == 2 {
        '2'
    } else if d == 3 {
        '3'
    } else if d == 4 {
        '4'
    } else if d == 5 {
        '5'
    } else if d == 6 {
        '6'
    } else if d == 7 {
        '7'
    } else if d == 8 {
        '8'
    } else if d == 9 {
        '9'
    } else if d == 10 {
        'a'
    } else if d == 11 {
        'b'
    } else if d == 12 {
        'c'
    } else if d == 13 {
        'd'
    } else if d == 14 {
        'e'
    } else {
        'f'
    }
}

/// The value of one hexadecimal digit character, if it is one.
pub open spec fn hex_val(c: char) -> Option<u32> {
    if c == '0' {
        Some(0u32)
    } else if c == '1' {
        Some(1u32)
    } else if c == '2' {
        Some(2u32)
    } else if c == '3' {
        Some(3u32)
    } else if c == '4' {
        Some(4u32)
    } else if c == '5' {
        Some(5u32)
    } else if c == '6' {
        Some(6u32)
    } else if c == '7' {
        Some(7u32)
    } else if c == '8' {
        Some(8u32)
    } else if c == '9' {
        Some(9u32)
    } else if c == 'a' {
        Some(10u32)
    } else if c == 'b' {
        Some(11u32)
    } else if c == 'c' {
        Some(12u32)
    } else if c == 'd' {
        Some(13u32)
    } else if c == 'e' {
        Some(14u32)
    } else if c == 'f' {
        Some(15u32)
    } else {
        None
    }
}

/// Decoding a digit's character gives the digit back.
pub proof fn lemma_hex_round_trip(d: int)
    requires
        0 <= d < 16,
    ensures
        hex_val(hex_digit(d)) == Some(d as u32),
{
}

/// How one character is written inside a quoted string: quote and
/// backslash get a backslash escape, control characters a four-digit
/// hexadecimal escape, and every other character stands for itself.
pub open spec fn esc_char(c: char) -> Seq<char> {
    if c == '"' {
        seq!['\\', '"']
    } else if c == '\\' {
        seq!['\\', '\\']
    } else if (c as u32) < 32 {
        seq!['\\', 'u', '0', '0', hex_digit((c as u32) as int / 16), hex_digit(
            (c as u32) as int % 16,
        )]
    } else {
        seq![c]
    }
}

/// A whole string, character by character.
pub open spec fn esc(s: Seq<char>) -> Seq<char>
    decreases s.len(),
{
    if s.len() == 0 {
        Seq::empty()
    } else {
        esc_char(s[0]) + esc(s.skip(1))
    }
}

/// Escaping distributes over concatenation.
pub proof fn lemma_esc_concat(a: Seq<char>, b: Seq<char>)
    ensures
        esc(a + b) == esc(a) + esc(b),
    decreases a.len(),
{
    if a.len() == 0 {
        assert(a + b =~= b);
        assert(esc(a + b) =~= esc(a) + esc(b));
    } else {
        assert((a + b).skip(1) =~= a.skip(1) + b);
        lemma_esc_concat(a.skip(1), b);
        assert(esc(a + b) =~= esc(a) + esc(b));
    }
}

/// A quoted string value: the escaped characters between two quotes.
pub open spec fn spec_quoted(s: Seq<char>) -> Seq<char> {
    seq!['"'] + esc(s) + seq!['"']
}

/// The serialized form of a report: a key-ordered two-field object.
pub open spec fn spec_serialize(topic: Seq<char>, payload: Seq<char>) -> Seq<char> {
    seq!['{'] + spec_quoted("topic"@) + seq![':'] + spec_quoted(topic) + seq![','] + spec_quoted(
        "payload"@,
    ) + seq![':'] + spec_quoted(payload) + seq!['}']
}

/// The character for one hexadecimal digit, executably.
fn hex_digit_exec(d: u32) -> (r: char)
    requires
        d < 16,
    ensures
        r == hex_digit(d as int),
{
    if d == 0 {
        '0'
    } else if d == 1 {
        '1'
    } else if d == 2 {
        '2'
    } else if d == 3 {
        '3'
    } else if d == 4 {
        '4'
    } else if d == 5 {
        '5'
    } else if d == 6 {
        '6'
    } else if d == 7 {
        '7'
    } else if d == 8 {
        '8'
    } else if d == 9 {
        '9'
    } else if d == 10 {
        'a'
    } else if d == 11 {
        'b'
    } else if d == 12 {
        'c'
    } else if d == 13 {
        'd'
    } else if d == 14 {
        'e'
    } else {
        'f'
    }
}

/// The value of one hexadecimal digit character, executably.
fn hex_val_exec(c: char) -> (r: Option<u32>)
    ensures
        r == hex_val(c),
        r is Some ==> r->Some_0 < 16,
{
    if c == '0' {
        Some(0u32)
    } else if c == '1' {
        Some(1u32)
    } else if c == '2' {
        Some(2u32)
    } else if c == '3' {
        Some(3u32)
    } else if c == '4' {
        Some(4u32)
    } else if c == '5' {
        Some(5u32)
    } else if c == '6' {
        Some(6u32)
    } else if c == '7' {
        Some(7u32)
    } else if c == '8' {
        Some(8u32)
    } else if c == '9' {
        Some(9u32)
    } else if c == 'a' {
        Some(10u32)
    } else if c == 'b' {
        Some(11u32)
    } else if c == 'c' {
        Some(12u32)
    } else if c == 'd' {
        Some(13u32)
    } else if c == 'e' {
        Some(14u32)
    } else if c == 'f' {
        Some(15u32)
    } else {
        None
    }
}

/// Appends the escape of one character to `acc`.
fn esc_push(acc: &mut Vec<char>, c: char)
    ensures
        final(acc)@ == old(acc)@ + esc_char(c),
{
    if c == '"' {
        acc.push('\\');
        acc.push('"');
        proof {
            assert(acc@ =~= old(acc)@ + esc_char(c));
        }
    } else if c == '\\' {
        acc.push('\\');
        acc.push('\\');
        proof {
            assert(acc@ =~= old(acc)@ + esc_char(c));
        }
    } else {
        let v = c as u32;
        if v < 32 {
            acc.push('\\');
            acc.push('u');
            acc.push('0');
            acc.push('0');
            acc.push(hex_digit_exec(v / 16));
            acc.push(hex_digit_exec(v % 16));
            proof {
                assert(acc@ =~= old(acc)@ + esc_char(c));
            }
        } else {
            acc.push(c);
            proof {
                assert(acc@ =~= old(acc)@ + esc_char(c));
            }
        }
    }
}

/// Appends the quoted, escaped form of `s` to `acc`.
fn quoted_push(acc: &mut Vec<char>, s: &Vec<char>)
    ensures
        final(acc)@ == old(acc)@ + spec_quoted(s@),
{
    acc.push('"');
    let mut j: usize = 0;
    while j < s.len()
        invariant
            j <= s@.len(),
            acc@ == old(acc)@ + seq!['"'] + esc(s@.take(j as int)),
        decreases s@.len() - j,
    {
        let ghost before = s@.take(j as int);
        esc_push(acc, s[j]);
        j = j + 1;
        proof {
            assert(s@.take(j as int) =~= before + seq![s@[j - 1]]);
            lemma_esc_concat(before, seq![s@[j - 1]]);
            assert(seq![s@[j - 1]].skip(1) =~= Seq::<char>::empty());
            assert(esc(Seq::<char>::empty()) =~= Seq::<char>::empty());
            assert(esc(seq![s@[j - 1]]) =~= esc_char(s@[j - 1]));
            assert(acc@ =~= old(acc)@ + seq!['"'] + esc(s@.take(j as int)));
        }
    }
    proof {
        assert(s@.take(s@.len() as int) =~= s@);
    }
    acc.push('"');
    proof {
        assert(acc@ =~= old(acc)@ + spec_quoted(s@));
    }
}

/// Serializes a report to its wire-format string.
pub fn serialize_report(r: &Report) -> (out: String)
    ensures
        out@ == spec_serialize(r.topic@, r.payload@),
{
    let mut acc: Vec<char> = Vec::new();
    acc.push('{');
    let key1 = string_to_chars("topic");
    quoted_push(&mut acc, &key1);
    acc.push(':');
    let topic = string_to_chars(r.topic.as_str());
    quoted_push(&mut acc, &topic);
    acc.push(',');
    let key2 = string_to_chars("payload");
    quoted_push(&mut acc, &key2);
    acc.push(':');
    let payload = string_to_chars(r.payload.as_str());
    quoted_push(&mut acc, &payload);
    acc.push('}');
    proof {
        assert(acc@ =~= spec_serialize(r.topic@, r.payload@));
    }
    chars_to_string(&acc)
}

/// Insignificant whitespace between tokens.
pub open spec fn is_ws(c: char) -> bool {
    c == ' ' || c == '\t' || c == '\n' || c == '\r'
}

/// Drops leading whitespace.
pub open spec fn skip_ws(s: Seq<char>) -> Seq<char>
    decreases s.len(),
{
    if s.len() > 0 && is_ws(s[0]) {
        skip_ws(s.skip(1))
    } else {
        s
    }
}

/// Consumes one expected character.
pub open spec fn expect(s: Seq<char>, c: char) -> Option<Seq<char>> {
    if s.len() > 0 && s[0] == c {
        Some(s.skip(1))
    } else {
        None
    }
}

/// Reads a string value after its opening quote: plain characters up
/// to the closing quote, undoing the escapes of [`esc_char`].  Returns
/// the decoded characters and the unconsumed remainder.
pub open spec fn parse_string_body(s: Seq<char>) -> Option<(Seq<char>, Seq<char>)>
    decreases s.len(),
{
    if s.len() == 0 {
        None
    } else if s[0] == '"' {
        Some((Seq::empty(), s.skip(1)))
    } else if s[0] == '\\' {
        if s.len() >= 2 && (s[1] == '"' || s[1] == '\\') {
            match parse_string_body(s.skip(2)) {
                Some((t, rest)) => Some((seq![s[1]] + t, rest)),
                None => None,
            }
        } else if s.len() >= 6 && s[1] == 'u' && s[2] == '0' && s[3] == '0' && hex_val(s[4])
            is Some && hex_val(s[5]) is Some {
            let v = (hex_val(s[4])->Some_0 * 16 + hex_val(s[5])->Some_0) as u32;
            match parse_string_body(s.skip(6)) {
                Some((t, rest)) => Some((seq![v as char] + t, rest)),
                None => None,
            }
        } else {
            None
        }
    } else {
        match parse_string_body(s.skip(1)) {
            Some((t, rest)) => Some((seq![s[0]] + t, rest)),
            None => None,
        }
    }
}

/// Reads a quoted string value, opening quote included.
pub open spec fn parse_quoted(s: Seq<char>) -> Option<(Seq<char>, Seq<char>)> {
    match expect(s, '"') {
        Some(r) => parse_string_body(r),
        None => None,
    }
}

/// Decodes the wire format: a key-ordered two-field object, with
/// insignificant whitespace allowed between tokens and nothing after
/// the closing brace.
pub open spec fn spec_deserialize(s: Seq<char>) -> Option<ReportView> {
    match expect(skip_ws(s), '{') {
        None => None,
        Some(s1) => match parse_quoted(skip_ws(s1)) {
            None => None,
            Some((k1, s2)) => if k1 != "topic"@ {
                None
            } else {
                match expect(skip_ws(s2), ':') {
                    None => None,
                    Some(s3) => match parse_quoted(skip_ws(s3)) {
                        None => None,
                        Some((topic, s4)) => match expect(skip_ws(s4), ',') {
                            None => None,
                            Some(s5) => match parse_quoted(skip_ws(s5)) {
                                None => None,
                                Some((k2, s6)) => if k2 != "payload"@ {
                                    None
                                } else {
                                    match expect(skip_ws(s6), ':') {
                                        None => None,
                                        Some(s7) => match parse_quoted(skip_ws(s7)) {
                                            None => None,
                                            Some((payload, s8)) => match expect(
                                                skip_ws(s8),
                                                '}',
                                            ) {
                                                None => None,
                                                Some(s9) => if skip_ws(s9).len() == 0 {
                                                    Some(ReportView { topic, payload })
                                                } else {
                                                    None
                                                },
                                            },
                                        },
                                    }
                                },
                            },
                        },
                    },
                }
            },
        },
    }
}

/// Skipping whitespace leaves a sequence alone when it does not start
/// with whitespace.
proof fn lemma_skip_ws_nonws(s: Seq<char>)
    requires
        s.len() == 0 || !is_ws(s[0]),
    ensures
        skip_ws(s) == s,
{
}

/// Decoding a string body undoes escaping: the escaped characters of
/// `s`, a closing quote, and any remainder decode to exactly `s` and
/// that remainder.
pub proof fn lemma_parse_esc(s: Seq<char>, rest: Seq<char>)
    ensures
        parse_string_body(esc(s) + seq!['"'] + rest) == Some((s, rest)),
    decreases s.len(),
{
    let full = esc(s) + seq!['"'] + rest;
    if s.len() == 0 {
        assert(esc(s) =~= Seq::<char>::empty());
        assert(full =~= seq!['"'] + rest);
        assert(full[0] == '"');
        assert(full.skip(1) =~= rest);
        assert(s =~= Seq::<char>::empty());
        assert(parse_string_body(full) == Some((s, rest)));
    } else {
        let c = s[0];
        let tail = s.skip(1);
        lemma_parse_esc(tail, rest);
        let sub = esc(tail) + seq!['"'] + rest;
        assert(esc(s) == esc_char(c) + esc(tail));
        assert(full =~= esc_char(c) + sub);
        assert(seq![c] + tail =~= s);
        if c == '"' {
            assert(full[0] == '\\');
            assert(full.len() >= 2);
            assert(full[1] == '"');
            assert(full.skip(2) =~= sub);
            assert(parse_string_body(full) == Some((s, rest)));
        } else if c == '\\' {
            assert(full[0] == '\\');
            assert(full.len() >= 2);
            assert(full[1] == '\\');
            assert(full.skip(2) =~= sub);
            assert(parse_string_body(full) == Some((s, rest)));
        } else if (c as u32) < 32 {
            let u = (c as u32) as int;
            assert(full[0] == '\\');
            assert(full.len() >= 6);
            assert(full[1] == 'u');
            assert(full[2] == '0');
            assert(full[3] == '0');
            assert(full[4] == hex_digit(u / 16));
            assert(full[5] == hex_digit(u % 16));
            lemma_hex_round_trip(u / 16);
            lemma_hex_round_trip(u % 16);
            assert((u / 16) * 16 + u % 16 == u) by {
                vstd::arithmetic::div_mod::lemma_fundamental_div_mod(u, 16);
            }
            assert(((hex_val(full[4])->Some_0 * 16 + hex_val(full[5])->Some_0) as u32) == c
                as u32);
            vstd::utf8::char_u32_cast(c, c as u32);
            assert(((c as u32) as char) == c);
            assert(full.skip(6) =~= sub);
            assert(parse_string_body(full) == Some((s, rest)));
        } else {
            assert(full[0] == c);
            assert(full[0] != '"' && full[0] != '\\');
            assert(full.skip(1) =~= sub);
            assert(parse_string_body(full) == Some((s, rest)));
        }
    }
}

/// Report round-trip: decoding the serialized form of any topic and
/// payload, quotes and escape characters included, yields exactly that
/// topic and payload.
pub proof fn lemma_report_round_trip(topic: Seq<char>, payload: Seq<char>)
    ensures
        spec_deserialize(spec_serialize(topic, payload)) == Some(
            ReportView { topic, payload },
        ),
{
    let s0 = spec_serialize(topic, payload);
    let r1 = seq![':'] + spec_quoted(topic) + seq![','] + spec_quoted("payload"@) + seq![':']
        + spec_quoted(payload) + seq!['}'];
    let r2 = seq![','] + spec_quoted("payload"@) + seq![':'] + spec_quoted(payload) + seq!['}'];
    let r3 = seq![':'] + spec_quoted(payload) + seq!['}'];
    let r4 = seq!['}'];

    assert(s0[0] == '{');
    lemma_skip_ws_nonws(s0);
    let s1 = s0.skip(1);
    assert(expect(skip_ws(s0), '{') == Some(s1));

    assert(s1 =~= spec_quoted("topic"@) + r1);
    assert(s1[0] == '"');
    lemma_skip_ws_nonws(s1);
    assert(s1.skip(1) =~= esc("topic"@) + seq!['"'] + r1);
    lemma_parse_esc("topic"@, r1);
    assert(parse_quoted(skip_ws(s1)) == Some(("topic"@, r1)));

    assert(r1[0] == ':');
    lemma_skip_ws_nonws(r1);
    let s3 = r1.skip(1);
    assert(expect(skip_ws(r1), ':') == Some(s3));

    assert(s3 =~= spec_quoted(topic) + r2);
    assert(s3[0] == '"');
    lemma_skip_ws_nonws(s3);
    assert(s3.skip(1) =~= esc(topic) + seq!['"'] + r2);
    lemma_parse_esc(topic, r2);
    assert(parse_quoted(skip_ws(s3)) == Some((topic, r2)));

    assert(r2[0] == ',');
    lemma_skip_ws_nonws(r2);
    let s5 = r2.skip(1);
    assert(expect(skip_ws(r2), ',') == Some(s5));

    assert(s5 =~= spec_quoted("payload"@) + r3);
    assert(s5[0] == '"');
    lemma_skip_ws_nonws(s5);
    assert(s5.skip(1) =~= esc("payload"@) + seq!['"'] + r3);
    lemma_parse_esc("payload"@, r3);
    assert(parse_quoted(skip_ws(s5)) == Some(("payload"@, r3)));

    assert(r3[0] == ':');
    lemma_skip_ws_nonws(r3);
    let s7 = r3.skip(1);
    assert(expect(skip_ws(r3), ':') == Some(s7));

    assert(s7 =~= spec_quoted(payload) + r4);
    assert(s7[0] == '"');
    lemma_skip_ws_nonws(s7);
    assert(s7.skip(1) =~= esc(payload) + seq!['"'] + r4);
    lemma_parse_esc(payload, r4);
    assert(parse_quoted(skip_ws(s7)) == Some((payload, r4)));

    assert(r4[0] == '}');
    lemma_skip_ws_nonws(r4);
    let s9 = r4.skip(1);
    assert(expect(skip_ws(r4), '}') == Some(s9));
    assert(s9 =~= Seq::<char>::empty());
    assert(skip_ws(s9).len() == 0);
}

/// Relies on `char::from_u32`: every scalar value below the surrogate
/// range is the code of exactly one character.
#[verifier::external_body]
fn char_from_code(v: u32) -> (r: char)
    requires
        v < 0xD800,
    ensures
        r == v as char,
{
    char::from_u32(v).unwrap()
}

/// Equality of two character vectors.
fn chars_eq(a: &Vec<char>, b: &Vec<char>) -> (r: bool)
    ensures
        r == (a@ == b@),
{
    if a.len() != b.len() {
        return false;
    }
    let mut i: usize = 0;
    while i < a.len()
        invariant
            a@.len() == b@.len(),
            i <= a@.len(),
            forall|k: int| 0 <= k < i ==> a@[k] == b@[k],
        decreases a@.len() - i,
    {
        if a[i] != b[i] {
            return false;
        }
        i = i + 1;
    }
    proof {
        assert(a@ =~= b@);
    }
    true
}

/// Advances past leading whitespace.
fn skip_ws_exec(v: &Vec<char>, i: usize) -> (r: usize)
    requires
        i <= v@.len(),
    ensures
        i <= r <= v@.len(),
        v@.skip(r as int) == skip_ws(v@.skip(i as int)),
{
    let mut j = i;
    while j < v.len() && (v[j] == ' ' || v[j] == '\t' || v[j] == '\n' || v[j] == '\r')
        invariant
            i <= j <= v@.len(),
            skip_ws(v@.skip(i as int)) == skip_ws(v@.skip(j as int)),
        decreases v@.len() - j,
    {
        proof {
            assert(v@.skip(j as int)[0] == v@[j as int]);
            assert(v@.skip(j as int).skip(1) =~= v@.skip(j + 1));
        }
        j = j + 1;
    }
    proof {
        if j < v.len() {
            assert(v@.skip(j as int)[0] == v@[j as int]);
            assert(!is_ws(v@.skip(j as int)[0]));
        } else {
            assert(v@.skip(j as int).len() == 0);
        }
        lemma_skip_ws_nonws(v@.skip(j as int));
    }
    j
}

/// Consumes one expected character.
fn expect_exec(v: &Vec<char>, i: usize, c: char) -> (r: Option<usize>)
    requires
        i <= v@.len(),
    ensures
        match r {
            Some(j) => i < j <= v@.len() && expect(v@.skip(i as int), c) == Some(
                v@.skip(j as int),
            ),
            None => expect(v@.skip(i as int), c) is None,
        },
{
    if i < v.len() && v[i] == c {
        proof {
            assert(v@.skip(i as int)[0] == v@[i as int]);
            assert(v@.skip(i as int).skip(1) =~= v@.skip(i + 1));
        }
        Some(i + 1)
    } else {
        proof {
            if i < v.len() {
                assert(v@.skip(i as int)[0] == v@[i as int]);
            }
        }
        None
    }
}

/// Reads a string body starting at `i`, undoing the escapes.
fn parse_body_exec(v: &Vec<char>, i: usize) -> (r: Option<(Vec<char>, usize)>)
    requires
        i <= v@.len(),
    ensures
        match r {
            Some((content, j)) => i <= j <= v@.len() && parse_string_body(v@.skip(i as int))
                == Some((content@, v@.skip(j as int))),
            None => parse_string_body(v@.skip(i as int)) is None,
        },
    decreases v@.len() - i,
{
    let ghost s = v@.skip(i as int);
    if i == v.len() {
        return None;
    }
    let c = v[i];
    proof {
        assert(s[0] == v@[i as int]);
    }
    if c == '"' {
        proof {
            assert(s.skip(1) =~= v@.skip(i + 1));
        }
        let content: Vec<char> = Vec::new();
        Some((content, i + 1))
    } else if c == '\\' {
        proof {
            if i + 1 < v@.len() {
                assert(s[1] == v@[i + 1]);
            }
        }
        if v.len() - i >= 2 && (v[i + 1] == '"' || v[i + 1] == '\\') {
            proof {
                assert(s.skip(2) =~= v@.skip(i + 2));
            }
            match parse_body_exec(v, i + 2) {
                None => None,
                Some((t, j)) => {
                    let ghost tv = t@;
                    let mut t = t;
                    t.insert(0, v[i + 1]);
                    proof {
                        assert(t@ =~= seq![s[1]] + tv);
                    }
                    Some((t, j))
                },
            }
        } else if v.len() - i >= 6 && v[i + 1] == 'u' && v[i + 2] == '0' && v[i + 3] == '0' {
            proof {
                assert(s.len() >= 6);
                assert(s[2] == v@[i + 2]);
                assert(s[3] == v@[i + 3]);
                assert(s[4] == v@[i + 4]);
                assert(s[5] == v@[i + 5]);
            }
            let h1 = hex_val_exec(v[i + 4]);
            let h2 = hex_val_exec(v[i + 5]);
            match (h1, h2) {
                (Some(a), Some(b)) => {
                    let val: u32 = a * 16 + b;
                    let ch = char_from_code(val);
                    proof {
                        assert(s.skip(6) =~= v@.skip(i + 6));
                        assert(val == (hex_val(s[4])->Some_0 * 16 + hex_val(s[5])->Some_0)
                            as u32);
                    }
                    match parse_body_exec(v, i + 6) {
                        None => None,
                        Some((t, j)) => {
                            let ghost tv = t@;
                            let mut t = t;
                            t.insert(0, ch);
                            proof {
                                assert(t@ =~= seq![ch] + tv);
                            }
                            Some((t, j))
                        },
                    }
                },
                _ => None,
            }
        } else {
            None
        }
    } else {
        proof {
            assert(s.skip(1) =~= v@.skip(i + 1));
        }
        match parse_body_exec(v, i + 1) {
            None => None,
            Some((t, j)) => {
                let ghost tv = t@;
                let mut t = t;
                t.insert(0, c);
                proof {
                    assert(t@ =~= seq![s[0]] + tv);
                }
                Some((t, j))
            },
        }
    }
}

/// Reads a quoted string value starting at `i`.
fn parse_quoted_exec(v: &Vec<char>, i: usize) -> (r: Option<(Vec<char>, usize)>)
    requires
        i <= v@.len(),
    ensures
        match r {
            Some((content, j)) => i <= j <= v@.len() && parse_quoted(v@.skip(i as int)) == Some(
                (content@, v@.skip(j as int)),
            ),
            None => parse_quoted(v@.skip(i as int)) is None,
        },
{
    match expect_exec(v, i, '"') {
        None => None,
        Some(j) => parse_body_exec(v, j),
    }
}

/// Decodes a wire-format string back into a report, `None` when the
/// input is not the serialized form of any report.
pub fn deserialize_report(s: &str) -> (r: Option<Report>)
    ensures
        match r {
            Some(rep) => spec_deserialize(s@) == Some(rep@),
            None => spec_deserialize(s@) is None,
        },
{
    let v = string_to_chars(s);
    proof {
        assert(v@.skip(0) =~= s@);
    }
    let i = skip_ws_exec(&v, 0);
    let i = match expect_exec(&v, i, '{') {
        None => {
            return None;
        },
        Some(i) => i,
    };
    let i = skip_ws_exec(&v, i);
    let (k1, i) = match parse_quoted_exec(&v, i) {
        None => {
            return None;
        },
        Some(p) => p,
    };
    let key1 = string_to_chars("topic");
    if !chars_eq(&k1, &key1) {
        return None;
    }
    let i = skip_ws_exec(&v, i);
    let i = match expect_exec(&v, i, ':') {
        None => {
            return None;
        },
        Some(i) => i,
    };
    let i = skip_ws_exec(&v, i);
    let (topic, i) = match parse_quoted_exec(&v, i) {
        None => {
            return None;
        },
        Some(p) => p,
    };
    let i = skip_ws_exec(&v, i);
    let i = match expect_exec(&v, i, ',') {
        None => {
            return None;
        },
        Some(i) => i,
    };
    let i = skip_ws_exec(&v, i);
    let (k2, i) = match parse_quoted_exec(&v, i) {
        None => {
            return None;
        },
        Some(p) => p,
    };
    let key2 = string_to_chars("payload");
    if !chars_eq(&k2, &key2) {
        return None;
    }
    let i = skip_ws_exec(&v, i);
    let i = match expect_exec(&v, i, ':') {
        None => {
            return None;
        },
        Some(i) => i,
    };
    let i = skip_ws_exec(&v, i);
    let (payload, i) = match parse_quoted_exec(&v, i) {
        None => {
            return None;
        },
        Some(p) => p,
    };
    let i = skip_ws_exec(&v, i);
    let i = match expect_exec(&v, i, '}') {
        None => {
            return None;
        },
        Some(i) => i,
    };
    let i = skip_ws_exec(&v, i);
    if i != v.len() {
        proof {
            assert(v@.skip(i as int).len() > 0);
        }
        return None;
    }
    let rep = Report { topic: chars_to_string(&topic), payload: chars_to_string(&payload) };
    Some(rep)
}

} // verus!
