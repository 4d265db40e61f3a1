//! The wire shapes: the JSON texts the client sends to the server and
//! reads back from it, produced and parsed by verified code.

use vstd::prelude::*;
use vstd::string::*;
use crate::toxic::ConditionModel;
use crate::toxic::ToxicCondition;
use crate::toxic::ToxicModel;
use crate::toxic::ToxicPack;
use crate::toxic::ToxicValueType;
use crate::toxic::Toxicity;

verus! {

/// The hexadecimal digit for a value below sixteen.
pub open spec fn hex_char(d: nat) -> char {
    if d < 10 {
        digit_char(d)
    } else if d == 10 {
        'a'
    } else if d == 11 {
        'b'
    } else if d == 12 {
        'c'
    } else if d == 13 {
        'd'
    } else if d == 14 {
        'e'
    } else {
        'f'
    }
}

/// The value of a hexadecimal digit; sixteen for any other character.
pub open spec fn hex_val(c: char) -> nat {
    if is_digit(c) {
        digit_val(c)
    } else if c == 'a' {
        10
    } else if c == 'b' {
        11
    } else if c == 'c' {
        12
    } else if c == 'd' {
        13
    } else if c == 'e' {
        14
    } else if c == 'f' {
        15
    } else {
        16
    }
}

/// The escape sequence one character stands as between quotes: quotes and
/// backslashes are escaped, the common control characters by name, the
/// rest of the control characters in hexadecimal, and every other
/// character stands for itself.
pub open spec fn escape_char(c: char) -> Seq<char> {
    if c == '"' {
        seq!['\\', '"']
    } else if c == '\\' {
        seq!['\\', '\\']
    } else if c == '\n' {
        seq!['\\', 'n']
    } else if c == '\r' {
        seq!['\\', 'r']
    } else if c == '\t' {
        seq!['\\', 't']
    } else if (c as u32) < 32 {
        seq!['\\', 'u', '0', '0', hex_char((c as u32 / 16) as nat), hex_char((c as u32 % 16) as nat)]
    } else {
        seq![c]
    }
}

/// A string's characters, each escaped.
pub open spec fn escape_str(s: Seq<char>) -> Seq<char>
    decreases s.len(),
{
    if s.len() == 0 {
        Seq::empty()
    } else {
        escape_char(s[0]) + escape_str(s.drop_first())
    }
}

/// A string between quotes, escaped.
pub open spec fn quoted(s: Seq<char>) -> Seq<char> {
    seq!['"'] + escape_str(s) + seq!['"']
}

/// The decimal digit for a value below ten.
pub open spec fn digit_char(d: nat) -> char {
    if d == 0 {
        '0'
    } else if d == 1 {
        '1'
    } else if d == 2 {
        '2'
    } else if d == 3 {
        '3'
    } else if d == 4 {
        '4'
    } else if d == 5 {
        '5'
    } else if d == 6 {
        '6'
    } else if d == 7 {
        '7'
    } else if d == 8 {
        '8'
    } else {
        '9'
    }
}

/// The value of a decimal digit; ten for any other character.
pub open spec fn digit_val(c: char) -> nat {
    if c == '0' {
        0
    } else if c == '1' {
        1
    } else if c == '2' {
        2
    } else if c == '3' {
        3
    } else if c == '4' {
        4
    } else if c == '5' {
        5
    } else if c == '6' {
        6
    } else if c == '7' {
        7
    } else if c == '8' {
        8
    } else if c == '9' {
        9
    } else {
        10
    }
}

/// True for a decimal digit.
pub open spec fn is_digit(c: char) -> bool {
    digit_val(c) < 10
}

/// The decimal digits of a number, without leading zeros.
pub open spec fn dec_digits(n: nat) -> Seq<char>
    decreases n,
{
    if n < 10 {
        seq![digit_char(n)]
    } else {
        dec_digits(n / 10).push(digit_char(n % 10))
    }
}

/// A toxicity in thousandths as a decimal fraction: the whole part, a
/// point, and exactly three fractional digits.
pub open spec fn tox_digits(t: nat) -> Seq<char> {
    dec_digits(t / 1000) + seq![
        '.',
        digit_char((t % 1000) / 100),
        digit_char(((t % 1000) % 100) / 10),
        digit_char(((t % 1000) % 100) % 10),
    ]
}

/// The wire text of an optional condition: `null`, or the matcher object.
pub open spec fn condition_body(c: Option<ConditionModel>) -> Seq<char> {
    match c {
        None => "null"@,
        Some(cm) => "{\"matcherType\":"@ + quoted(cm.matcher_type) + ",\"matcherParameters\":{\"headerKey\":"@
            + quoted(cm.header_key) + ",\"headerValueRegex\":"@ + quoted(cm.header_value_regex)
            + "}}"@,
    }
}

/// One attribute: its quoted key, a colon, and its decimal value.
pub open spec fn attr_body(p: (Seq<char>, ToxicValueType)) -> Seq<char> {
    quoted(p.0) + seq![':'] + dec_digits(p.1 as nat)
}

/// The attributes from position `from` on, joined by commas.
pub open spec fn attr_items_body(attrs: Seq<(Seq<char>, ToxicValueType)>, from: int) -> Seq<char>
    decreases attrs.len() - from,
{
    if from < 0 || from >= attrs.len() {
        Seq::empty()
    } else if from == attrs.len() - 1 {
        attr_body(attrs[from])
    } else {
        attr_body(attrs[from]) + seq![','] + attr_items_body(attrs, from + 1)
    }
}

/// The wire text of an attribute mapping.
pub open spec fn attrs_body(attrs: Seq<(Seq<char>, ToxicValueType)>) -> Seq<char> {
    seq!['{'] + attr_items_body(attrs, 0) + seq!['}']
}

/// The wire text of a toxic.
pub open spec fn toxic_body(t: ToxicModel) -> Seq<char> {
    "{\"name\":"@ + quoted(t.name) + ",\"type\":"@ + quoted(t.kind) + ",\"stream\":"@ + quoted(
        t.stream,
    ) + ",\"toxicity\":"@ + tox_digits(t.toxicity.thousandths as nat) + ",\"attributes\":"@
        + attrs_body(t.attributes) + ",\"condition\":"@ + condition_body(t.condition) + seq!['}']
}

/// The body POSTed to a proxy's path to toggle it.
pub open spec fn enabled_body(enabled: bool) -> Seq<char> {
    if enabled {
        "{\"enabled\":true}"@
    } else {
        "{\"enabled\":false}"@
    }
}

/// The two toggle bodies differ, so a body names one flag value only.
pub proof fn lemma_enabled_bodies_differ()
    ensures
        enabled_body(true) != enabled_body(false),
{
    reveal_strlit("{\"enabled\":true}");
    reveal_strlit("{\"enabled\":false}");
    assert(enabled_body(true).len() == 16);
    assert(enabled_body(false).len() == 17);
}

/// Encode the body that toggles a proxy's enabled flag.
pub fn encode_enabled(enabled: bool) -> (r: String)
    ensures
        r@ == enabled_body(enabled),
{
    if enabled {
        "{\"enabled\":true}".to_owned()
    } else {
        "{\"enabled\":false}".to_owned()
    }
}

/// The decimal text of one digit.
fn digit_str(d: u32) -> (r: &'static str)
    requires
        d < 10,
    ensures
        r@ == seq![digit_char(d as nat)],
{
    match d {
        0 => {
            proof {
                reveal_strlit("0");
                assert("0"@ =~= seq![digit_char(0)]);
            }
            "0"
        },
        1 => {
            proof {
                reveal_strlit("1");
                assert("1"@ =~= seq![digit_char(1)]);
            }
            "1"
        },
        2 => {
            proof {
                reveal_strlit("2");
                assert("2"@ =~= seq![digit_char(2)]);
            }
            "2"
        },
        3 => {
            proof {
                reveal_strlit("3");
                assert("3"@ =~= seq![digit_char(3)]);
            }
            "3"
        },
        4 => {
            proof {
                reveal_strlit("4");
                assert("4"@ =~= seq![digit_char(4)]);
            }
            "4"
        },
        5 => {
            proof {
                reveal_strlit("5");
                assert("5"@ =~= seq![digit_char(5)]);
            }
            "5"
        },
        6 => {
            proof {
                reveal_strlit("6");
                assert("6"@ =~= seq![digit_char(6)]);
            }
            "6"
        },
        7 => {
            proof {
                reveal_strlit("7");
                assert("7"@ =~= seq![digit_char(7)]);
            }
            "7"
        },
        8 => {
            proof {
                reveal_strlit("8");
                assert("8"@ =~= seq![digit_char(8)]);
            }
            "8"
        },
        _ => {
            proof {
                reveal_strlit("9");
                assert("9"@ =~= seq![digit_char(9)]);
            }
            "9"
        },
    }
}

/// Append the decimal digits of a number.
fn push_dec(s: &mut String, n: u32)
    ensures
        final (s)@ == old(s)@ + dec_digits(n as nat),
    decreases n,
{
    let ghost entry = s@;
    if n >= 10 {
        push_dec(s, n / 10);
    }
    let ds = digit_str(n % 10);
    s.append(ds);
    proof {
        assert(s@ =~= entry + dec_digits(n as nat));
    }
}

/// The hexadecimal text of one digit.
fn hex_str(d: u32) -> (r: &'static str)
    requires
        d < 16,
    ensures
        r@ == seq![hex_char(d as nat)],
{
    if d < 10 {
        digit_str(d)
    } else if d == 10 {
        proof {
            reveal_strlit("a");
            assert("a"@ =~= seq![hex_char(10)]);
        }
        "a"
    } else if d == 11 {
        proof {
            reveal_strlit("b");
            assert("b"@ =~= seq![hex_char(11)]);
        }
        "b"
    } else if d == 12 {
        proof {
            reveal_strlit("c");
            assert("c"@ =~= seq![hex_char(12)]);
        }
        "c"
    } else if d == 13 {
        proof {
            reveal_strlit("d");
            assert("d"@ =~= seq![hex_char(13)]);
        }
        "d"
    } else if d == 14 {
        proof {
            reveal_strlit("e");
            assert("e"@ =~= seq![hex_char(14)]);
        }
        "e"
    } else {
        proof {
            reveal_strlit("f");
            assert("f"@ =~= seq![hex_char(15)]);
        }
        "f"
    }
}

/// Escaping a string one character at a time builds `escape_str`.
proof fn lemma_escape_str_snoc(a: Seq<char>, c: char)
    ensures
        escape_str(a.push(c)) == escape_str(a) + escape_char(c),
    decreases a.len(),
{
    if a.len() == 0 {
        assert(a.push(c)[0] == c);
        assert(escape_str(a.push(c)) == escape_char(c) + escape_str(a.push(c).drop_first()));
        assert(a.push(c).drop_first() =~= Seq::<char>::empty());
        assert(escape_str(Seq::<char>::empty()) == Seq::<char>::empty());
        assert(a =~= Seq::<char>::empty());
        assert(escape_str(a) == Seq::<char>::empty());
        assert(escape_str(a.push(c)) =~= escape_str(a) + escape_char(c));
    } else {
        assert(a.push(c)[0] == a[0]);
        assert(escape_str(a.push(c)) == escape_char(a[0]) + escape_str(a.push(c).drop_first()));
        assert(a.push(c).drop_first() =~= a.drop_first().push(c));
        assert(escape_str(a.push(c).drop_first()) == escape_str(a.drop_first().push(c)));
        lemma_escape_str_snoc(a.drop_first(), c);
        assert(escape_str(a) == escape_char(a[0]) + escape_str(a.drop_first()));
        assert(escape_str(a.push(c)) =~= escape_str(a) + escape_char(c));
    }
}

/// Append one character's escape sequence.
fn push_escaped_char(s: &mut String, v: &str, i: usize)
    requires
        i < v@.len(),
        v@.len() <= usize::MAX,
    ensures
        final (s)@ == old(s)@ + escape_char(v@[i as int]),
{
    let ghost entry = s@;
    let c = v.get_char(i);
    if c == '"' {
        s.append("\\\"");
        proof {
            reveal_strlit("\\\"");
            assert(s@ =~= entry + escape_char(c));
        }
    } else if c == '\\' {
        s.append("\\\\");
        proof {
            reveal_strlit("\\\\");
            assert(s@ =~= entry + escape_char(c));
        }
    } else if c == '\n' {
        s.append("\\n");
        proof {
            reveal_strlit("\\n");
            assert(s@ =~= entry + escape_char(c));
        }
    } else if c == '\r' {
        s.append("\\r");
        proof {
            reveal_strlit("\\r");
            assert(s@ =~= entry + escape_char(c));
        }
    } else if c == '\t' {
        s.append("\\t");
        proof {
            reveal_strlit("\\t");
            assert(s@ =~= entry + escape_char(c));
        }
    } else if (c as u32) < 32 {
        let code = c as u32;
        s.append("\\u00");
        let h1 = hex_str(code / 16);
        s.append(h1);
        let h2 = hex_str(code % 16);
        s.append(h2);
        proof {
            reveal_strlit("\\u00");
            assert("\\u00"@ =~= seq!['\\', 'u', '0', '0']);
            assert(s@ =~= entry + escape_char(c));
        }
    } else {
        let piece = v.substring_char(i, i + 1);
        s.append(piece);
        proof {
            assert(piece@ =~= seq![c]);
            assert(s@ =~= entry + escape_char(c));
        }
    }
}

/// Append a string between quotes, escaped.
fn push_quoted(s: &mut String, v: &str)
    ensures
        final (s)@ == old(s)@ + quoted(v@),
{
    let ghost entry = s@;
    s.append("\"");
    proof {
        reveal_strlit("\"");
        assert("\""@ =~= seq!['"']);
        assert(v@.take(0) =~= Seq::<char>::empty());
    }
    let n = v.unicode_len();
    let mut i: usize = 0;
    while i < n
        invariant
            n == v@.len(),
            i <= n,
            s@ == entry + seq!['"'] + escape_str(v@.take(i as int)),
        decreases n - i,
    {
        push_escaped_char(s, v, i);
        proof {
            lemma_escape_str_snoc(v@.take(i as int), v@[i as int]);
            assert(v@.take(i as int + 1) =~= v@.take(i as int).push(v@[i as int]));
            assert(s@ =~= entry + seq!['"'] + escape_str(v@.take(i as int + 1)));
        }
        i += 1;
    }
    s.append("\"");
    proof {
        reveal_strlit("\"");
        assert("\""@ =~= seq!['"']);
        assert(v@.take(n as int) =~= v@);
        assert(s@ =~= entry + quoted(v@));
    }
}

/// Append a toxicity as a decimal fraction.
fn push_toxicity(s: &mut String, t: Toxicity)
    ensures
        final (s)@ == old(s)@ + tox_digits(t.thousandths as nat),
{
    let ghost entry = s@;
    push_dec(s, t.thousandths / 1000);
    s.append(".");
    let m = t.thousandths % 1000;
    let d1 = digit_str(m / 100);
    s.append(d1);
    let d2 = digit_str((m % 100) / 10);
    s.append(d2);
    let d3 = digit_str((m % 100) % 10);
    s.append(d3);
    proof {
        reveal_strlit(".");
        assert("."@ =~= seq!['.']);
        assert(s@ =~= entry + tox_digits(t.thousandths as nat));
    }
}

/// Append the attributes from position `from` on, joined by commas.
fn push_attr_items(s: &mut String, attrs: &Vec<(String, ToxicValueType)>, from: usize)
    requires
        from < attrs@.len(),
    ensures
        final (s)@ == old(s)@ + attr_items_body(crate::toxic::attrs_view(attrs@), from as int),
    decreases attrs@.len() - from,
{
    let ghost entry = s@;
    let ghost model = crate::toxic::attrs_view(attrs@);
    push_quoted(s, attrs[from].0.as_str());
    s.append(":");
    push_dec(s, attrs[from].1);
    proof {
        reveal_strlit(":");
        assert(":"@ =~= seq![':']);
        assert(model[from as int] == (attrs@[from as int].0@, attrs@[from as int].1));
    }
    if from < attrs.len() - 1 {
        s.append(",");
        push_attr_items(s, attrs, from + 1);
        proof {
            reveal_strlit(",");
            assert(","@ =~= seq![',']);
            assert(s@ =~= entry + attr_items_body(model, from as int));
        }
    } else {
        proof {
            assert(s@ =~= entry + attr_items_body(model, from as int));
        }
    }
}

/// Append an attribute mapping.
fn push_attrs(s: &mut String, attrs: &Vec<(String, ToxicValueType)>)
    ensures
        final (s)@ == old(s)@ + attrs_body(crate::toxic::attrs_view(attrs@)),
{
    let ghost entry = s@;
    let ghost model = crate::toxic::attrs_view(attrs@);
    s.append("{");
    if attrs.len() > 0 {
        push_attr_items(s, attrs, 0);
    }
    s.append("}");
    proof {
        reveal_strlit("{");
        reveal_strlit("}");
        assert("{"@ =~= seq!['{']);
        assert("}"@ =~= seq!['}']);
        if model.len() == 0 {
            assert(attr_items_body(model, 0) =~= Seq::empty());
        }
        assert(s@ =~= entry + attrs_body(model));
    }
}

/// Append an optional condition: `null`, or the matcher object.
fn push_condition(s: &mut String, c: &Option<ToxicCondition>)
    ensures
        final (s)@ == old(s)@ + condition_body(crate::toxic::condition_view(*c)),
{
    let ghost entry = s@;
    match c {
        None => {
            s.append("null");
            proof {
                assert(s@ =~= entry + condition_body(None));
            }
        },
        Some(cm) => {
            s.append("{\"matcherType\":");
            push_quoted(s, cm.matcher_type.as_str());
            s.append(",\"matcherParameters\":{\"headerKey\":");
            push_quoted(s, cm.header_key.as_str());
            s.append(",\"headerValueRegex\":");
            push_quoted(s, cm.header_value_regex.as_str());
            s.append("}}");
            proof {
                assert(s@ =~= entry + condition_body(Some(cm@)));
            }
        },
    }
}

/// True when `p` stands in `s` at position `i`.
pub open spec fn has_prefix(s: Seq<char>, i: int, p: Seq<char>) -> bool {
    &&& 0 <= i
    &&& i + p.len() <= s.len()
    &&& s.subrange(i, i + p.len()) == p
}

/// The character a short escape stands for.
pub open spec fn unescape_short(e: char) -> char {
    if e == '"' {
        '"'
    } else if e == '\\' {
        '\\'
    } else if e == 'n' {
        '\n'
    } else if e == 'r' {
        '\r'
    } else {
        '\t'
    }
}

/// Parse the characters of a quoted string from position `i`, just after
/// the opening quote, up to the closing quote: the unescaped content and
/// the position after the closing quote. Escapes are decoded; a bare
/// control character or a malformed escape is refused.
pub open spec fn parse_string_chars(s: Seq<char>, i: int) -> Option<(Seq<char>, int)>
    decreases s.len() - i,
    when 0 <= i <= s.len()
{
    if i >= s.len() {
        None
    } else if s[i] == '"' {
        Some((Seq::empty(), i + 1))
    } else if s[i] == '\\' {
        if i + 1 >= s.len() {
            None
        } else {
            let e = s[i + 1];
            if e == '"' || e == '\\' || e == 'n' || e == 'r' || e == 't' {
                match parse_string_chars(s, i + 2) {
                    None => None,
                    Some((rest, j)) => Some((seq![unescape_short(e)] + rest, j)),
                }
            } else if e == 'u' {
                if i + 6 <= s.len() && s[i + 2] == '0' && s[i + 3] == '0' && hex_val(s[i + 4]) < 16
                    && hex_val(s[i + 5]) < 16 && hex_val(s[i + 4]) * 16 + hex_val(s[i + 5]) < 32 {
                    match parse_string_chars(s, i + 6) {
                        None => None,
                        Some(
                            (rest, j),
                        ) => Some(
                            ((seq![((hex_val(s[i + 4]) * 16 + hex_val(s[i + 5])) as u32) as char])
                                + rest, j),
                        ),
                    }
                } else {
                    None
                }
            } else {
                None
            }
        }
    } else if (s[i] as u32) < 32 {
        None
    } else {
        match parse_string_chars(s, i + 1) {
            None => None,
            Some((rest, j)) => Some((seq![s[i]] + rest, j)),
        }
    }
}

/// Parse a quoted string at position `i`: the unescaped content and the
/// position after the closing quote.
pub open spec fn parse_quoted(s: Seq<char>, i: int) -> Option<(Seq<char>, int)> {
    if 0 <= i < s.len() && s[i] == '"' {
        parse_string_chars(s, i + 1)
    } else {
        None
    }
}

/// The first position at or after `i` holding a non-digit; the length of
/// the text when none does.
pub open spec fn digits_end(s: Seq<char>, i: int) -> int
    decreases s.len() - i,
    when 0 <= i <= s.len()
{
    if i >= s.len() {
        i
    } else if is_digit(s[i]) {
        digits_end(s, i + 1)
    } else {
        i
    }
}

/// The value of the digits of `s` between `i` and `j`.
pub open spec fn digits_val(s: Seq<char>, i: int, j: int) -> nat
    decreases j - i,
{
    if j <= i {
        0
    } else {
        digits_val(s, i, j - 1) * 10 + digit_val(s[j - 1])
    }
}

/// Parse an unsigned number at position `i`: at least one digit, no
/// leading zero, and a value that fits.
pub open spec fn parse_u32_at(s: Seq<char>, i: int) -> Option<(u32, int)> {
    if 0 <= i <= s.len() {
        let j = digits_end(s, i);
        if j > i && (s[i] != '0' || j == i + 1) && digits_val(s, i, j) <= u32::MAX as nat {
            Some((digits_val(s, i, j) as u32, j))
        } else {
            None
        }
    } else {
        None
    }
}

/// Parse a toxicity at position `i`: a whole part, a point, and exactly
/// three fractional digits, read back into thousandths.
pub open spec fn parse_toxicity_at(s: Seq<char>, i: int) -> Option<(Toxicity, int)> {
    match parse_u32_at(s, i) {
        None => None,
        Some((whole, j)) => {
            if j + 4 <= s.len() && s[j] == '.' && is_digit(s[j + 1]) && is_digit(s[j + 2])
                && is_digit(s[j + 3]) {
                let v = (whole as nat) * 1000 + digit_val(s[j + 1]) * 100 + digit_val(s[j + 2]) * 10
                    + digit_val(s[j + 3]);
                if v <= u32::MAX as nat {
                    Some((Toxicity { thousandths: v as u32 }, j + 4))
                } else {
                    None
                }
            } else {
                None
            }
        },
    }
}

/// Parse one attribute at position `i`: a quoted key, a colon, a value.
pub open spec fn parse_attr_at(s: Seq<char>, i: int) -> Option<((Seq<char>, u32), int)> {
    match parse_quoted(s, i) {
        None => None,
        Some((k, j)) => {
            if j < s.len() && s[j] == ':' {
                match parse_u32_at(s, j + 1) {
                    None => None,
                    Some((v, m)) => Some(((k, v), m)),
                }
            } else {
                None
            }
        },
    }
}

/// Parse comma-joined attributes at position `i`. The fuel bounds the
/// number of items; each item takes characters, so the text's length is
/// always fuel enough.
pub open spec fn parse_attr_items_at(s: Seq<char>, i: int, fuel: nat) -> Option<
    (Seq<(Seq<char>, u32)>, int),
>
    decreases fuel,
{
    if fuel == 0 {
        None
    } else {
        match parse_attr_at(s, i) {
            None => None,
            Some((kv, j)) => {
                if j < s.len() && s[j] == ',' {
                    match parse_attr_items_at(s, j + 1, (fuel - 1) as nat) {
                        None => None,
                        Some((rest, m)) => Some((seq![kv] + rest, m)),
                    }
                } else {
                    Some((seq![kv], j))
                }
            },
        }
    }
}

/// Parse an attribute mapping at position `i`.
pub open spec fn parse_attrs_at(s: Seq<char>, i: int) -> Option<(Seq<(Seq<char>, u32)>, int)> {
    if 0 <= i < s.len() && s[i] == '{' {
        if i + 1 < s.len() && s[i + 1] == '}' {
            Some((Seq::empty(), i + 2))
        } else {
            match parse_attr_items_at(s, i + 1, s.len()) {
                None => None,
                Some((attrs, j)) => {
                    if j < s.len() && s[j] == '}' {
                        Some((attrs, j + 1))
                    } else {
                        None
                    }
                },
            }
        }
    } else {
        None
    }
}

/// Parse an optional condition at position `i`: `null`, or the matcher
/// object.
pub open spec fn parse_condition_at(s: Seq<char>, i: int) -> Option<(Option<ConditionModel>, int)> {
    if has_prefix(s, i, "null"@) {
        Some((None, i + "null"@.len()))
    } else if has_prefix(s, i, "{\"matcherType\":"@) {
        match parse_quoted(s, i + "{\"matcherType\":"@.len()) {
            None => None,
            Some((mt, j)) => {
                if has_prefix(s, j, ",\"matcherParameters\":{\"headerKey\":"@) {
                    match parse_quoted(s, j + ",\"matcherParameters\":{\"headerKey\":"@.len()) {
                        None => None,
                        Some((hk, k)) => {
                            if has_prefix(s, k, ",\"headerValueRegex\":"@) {
                                match parse_quoted(s, k + ",\"headerValueRegex\":"@.len()) {
                                    None => None,
                                    Some((rx, m)) => {
                                        if has_prefix(s, m, "}}"@) {
                                            Some(
                                                (
                                                    Some(
                                                        ConditionModel {
                                                            matcher_type: mt,
                                                            header_key: hk,
                                                            header_value_regex: rx,
                                                        },
                                                    ),
                                                    m + "}}"@.len(),
                                                ),
                                            )
                                        } else {
                                            None
                                        }
                                    },
                                }
                            } else {
                                None
                            }
                        },
                    }
                } else {
                    None
                }
            },
        }
    } else {
        None
    }
}

/// Parse the wire text of a toxic: a whole text in the shape `toxic_body`
/// lays out, with any valid spelling of the string escapes.
pub open spec fn parse_toxic_body(s: Seq<char>) -> Option<ToxicModel> {
    if !has_prefix(s, 0, "{\"name\":"@) {
        None
    } else {
        match parse_quoted(s, "{\"name\":"@.len() as int) {
            None => None,
            Some((name, i1)) => {
                if !has_prefix(s, i1, ",\"type\":"@) {
                    None
                } else {
                    match parse_quoted(s, i1 + ",\"type\":"@.len()) {
                        None => None,
                        Some((kind, i2)) => {
                            if !has_prefix(s, i2, ",\"stream\":"@) {
                                None
                            } else {
                                match parse_quoted(s, i2 + ",\"stream\":"@.len()) {
                                    None => None,
                                    Some((stream, i3)) => {
                                        if !has_prefix(s, i3, ",\"toxicity\":"@) {
                                            None
                                        } else {
                                            parse_toxic_tail(s, name, kind, stream, i3)
                                        }
                                    },
                                }
                            }
                        },
                    }
                }
            },
        }
    }
}

/// The tail of a toxic's wire text, from the toxicity value on.
pub open spec fn parse_toxic_tail(
    s: Seq<char>,
    name: Seq<char>,
    kind: Seq<char>,
    stream: Seq<char>,
    i3: int,
) -> Option<ToxicModel> {
    match parse_toxicity_at(s, i3 + ",\"toxicity\":"@.len()) {
        None => None,
        Some((tox, i4)) => {
            if !has_prefix(s, i4, ",\"attributes\":"@) {
                None
            } else {
                match parse_attrs_at(s, i4 + ",\"attributes\":"@.len()) {
                    None => None,
                    Some((attrs, i5)) => {
                        if !has_prefix(s, i5, ",\"condition\":"@) {
                            None
                        } else {
                            match parse_condition_at(s, i5 + ",\"condition\":"@.len()) {
                                None => None,
                                Some((cond, i6)) => {
                                    if i6 + 1 == s.len() && s[i6] == '}' {
                                        Some(
                                            ToxicModel {
                                                name,
                                                kind,
                                                stream,
                                                toxicity: tox,
                                                attributes: attrs,
                                                condition: cond,
                                            },
                                        )
                                    } else {
                                        None
                                    }
                                },
                            }
                        }
                    },
                }
            }
        },
    }
}

/// Pointwise character equality gives a prefix.
proof fn lemma_prefix_at(s: Seq<char>, i: int, p: Seq<char>)
    requires
        0 <= i,
        i + p.len() <= s.len(),
        forall|k: int| 0 <= k < p.len() ==> s[i + k] == p[k],
    ensures
        has_prefix(s, i, p),
{
    assert(s.subrange(i, i + p.len()) =~= p);
}

/// The hexadecimal digit characters read back as their values.
proof fn lemma_hex_char_val(d: nat)
    requires
        d < 16,
    ensures
        hex_val(hex_char(d)) == d,
{
    if d < 10 {
        lemma_digit_char_val(d);
    }
}

/// An escaped string standing at `i`, followed by a closing quote, is
/// unescaped back exactly.
proof fn lemma_parse_string_at(s: Seq<char>, i: int, v: Seq<char>)
    requires
        0 <= i,
        i + escape_str(v).len() + 1 <= s.len(),
        forall|k: int| 0 <= k < escape_str(v).len() ==> s[i + k] == escape_str(v)[k],
        s[i + escape_str(v).len()] == '"',
    ensures
        parse_string_chars(s, i) == Some((v, i + escape_str(v).len() + 1)),
    decreases v.len(),
{
    if v.len() == 0 {
        assert(s[i] == '"');
    } else {
        let c = v[0];
        let e0 = escape_char(c);
        let tail = escape_str(v.drop_first());
        assert(escape_str(v) == e0 + tail);
        assert forall|k: int| 0 <= k < e0.len() implies s[i + k] == e0[k] by {
            assert(escape_str(v)[k] == e0[k]);
        }
        assert forall|k: int| 0 <= k < tail.len() implies s[i + e0.len() + k] == tail[k] by {
            assert(escape_str(v)[e0.len() + k] == tail[k]);
        }
        lemma_parse_string_at(s, i + e0.len(), v.drop_first());
        assert(seq![c] + v.drop_first() =~= v);
        if c == '"' || c == '\\' || c == '\n' || c == '\r' || c == '\t' {
            assert(s[i] == '\\');
            assert(s[i + 1] == e0[1]);
            assert(unescape_short(e0[1]) == c);
        } else if (c as u32) < 32 {
            let code = c as u32;
            assert(s[i] == '\\');
            assert(s[i + 1] == 'u');
            assert(s[i + 2] == '0');
            assert(s[i + 3] == '0');
            assert(s[i + 4] == hex_char((code / 16) as nat));
            assert(s[i + 5] == hex_char((code % 16) as nat));
            lemma_hex_char_val((code / 16) as nat);
            lemma_hex_char_val((code % 16) as nat);
            assert(hex_val(s[i + 4]) * 16 + hex_val(s[i + 5]) == code);
            assert(((hex_val(s[i + 4]) * 16 + hex_val(s[i + 5])) as u32) == code);
            vstd::utf8::char_u32_cast(c, code);
        } else {
            assert(s[i] == c);
        }
    }
}

/// A quoted string standing at `i` is parsed back exactly.
proof fn lemma_parse_quoted_at(s: Seq<char>, i: int, v: Seq<char>)
    requires
        0 <= i,
        i + quoted(v).len() <= s.len(),
        forall|k: int| 0 <= k < quoted(v).len() ==> s[i + k] == quoted(v)[k],
    ensures
        parse_quoted(s, i) == Some((v, i + quoted(v).len())),
{
    let es = escape_str(v);
    assert(quoted(v).len() == es.len() + 2);
    assert(s[i] == quoted(v)[0]);
    assert(quoted(v)[0] == '"');
    assert forall|k: int| 0 <= k < es.len() implies s[i + 1 + k] == es[k] by {
        assert(s[i + (1 + k)] == quoted(v)[1 + k]);
        assert(quoted(v)[1 + k] == es[k]);
    }
    assert(s[i + 1 + es.len()] == quoted(v)[1 + es.len() as int]);
    assert(quoted(v)[1 + es.len() as int] == '"');
    lemma_parse_string_at(s, i + 1, v);
}

/// The digit characters read back as their values.
proof fn lemma_digit_char_val(d: nat)
    requires
        d < 10,
    ensures
        digit_val(digit_char(d)) == d,
        is_digit(digit_char(d)),
{
}

/// The decimal digits of a number: at least one, all digits, and no
/// leading zero unless the number is zero.
proof fn lemma_dec_digits_props(n: nat)
    ensures
        dec_digits(n).len() >= 1,
        forall|k: int| 0 <= k < dec_digits(n).len() ==> is_digit(#[trigger] dec_digits(n)[k]),
        n >= 1 ==> dec_digits(n)[0] != '0',
        n < 10 ==> dec_digits(n).len() == 1,
    decreases n,
{
    if n < 10 {
        lemma_digit_char_val(n);
    } else {
        lemma_dec_digits_props(n / 10);
        lemma_digit_char_val(n % 10);
        assert(dec_digits(n)[0] == dec_digits(n / 10)[0]);
    }
}

/// The digit scan stops exactly at the first non-digit, or at the end.
proof fn lemma_digits_end_stop(s: Seq<char>, k: int, end: int)
    requires
        0 <= k <= end <= s.len(),
        forall|t: int| k <= t < end ==> is_digit(s[t]),
        end == s.len() || !is_digit(s[end]),
    ensures
        digits_end(s, k) == end,
    decreases end - k,
{
    if k < end {
        lemma_digits_end_stop(s, k + 1, end);
    }
}

/// The decimal digits of a number standing at `i` read back as the number.
proof fn lemma_digits_val_at(s: Seq<char>, i: int, n: nat)
    requires
        0 <= i,
        i + dec_digits(n).len() <= s.len(),
        forall|k: int| 0 <= k < dec_digits(n).len() ==> s[i + k] == dec_digits(n)[k],
    ensures
        digits_val(s, i, i + dec_digits(n).len()) == n,
    decreases n,
{
    let ds = dec_digits(n);
    if n < 10 {
        lemma_digit_char_val(n);
        assert(digits_val(s, i, i + 1) == digits_val(s, i, i) * 10 + digit_val(s[i]));
        assert(s[i + 0] == dec_digits(n)[0]);
        assert(s[i] == digit_char(n));
    } else {
        let pre = dec_digits(n / 10);
        assert forall|k: int| 0 <= k < pre.len() implies s[i + k] == pre[k] by {
            assert(ds[k] == pre[k]);
        }
        lemma_digits_val_at(s, i, n / 10);
        lemma_digit_char_val(n % 10);
        assert(s[i + ds.len() - 1] == ds[ds.len() - 1]);
        assert(ds[ds.len() - 1] == digit_char(n % 10));
        assert(i + pre.len() == i + ds.len() - 1);
        assert(digits_val(s, i, i + ds.len()) == digits_val(s, i, i + ds.len() - 1) * 10
            + digit_val(s[i + ds.len() - 1]));
    }
}

/// A number's digits standing at `i`, followed by a non-digit, parse back
/// as the number.
proof fn lemma_parse_u32_at(s: Seq<char>, i: int, n: u32)
    requires
        0 <= i,
        i + dec_digits(n as nat).len() <= s.len(),
        forall|k: int| 0 <= k < dec_digits(n as nat).len() ==> s[i + k] == dec_digits(n as nat)[k],
        i + dec_digits(n as nat).len() == s.len() || !is_digit(s[i + dec_digits(n as nat).len()]),
    ensures
        parse_u32_at(s, i) == Some((n, i + dec_digits(n as nat).len())),
{
    let ds = dec_digits(n as nat);
    lemma_dec_digits_props(n as nat);
    assert forall|t: int| i <= t < i + ds.len() implies is_digit(s[t]) by {
        assert(s[t] == ds[t - i]);
    }
    lemma_digits_end_stop(s, i, i + ds.len());
    lemma_digits_val_at(s, i, n as nat);
    if n != 0 {
        assert(s[i] == ds[0]);
    }
}

/// A toxicity's digits standing at `i` parse back as the toxicity.
proof fn lemma_parse_toxicity_at(s: Seq<char>, i: int, t: Toxicity)
    requires
        0 <= i,
        i + tox_digits(t.thousandths as nat).len() <= s.len(),
        forall|k: int|
            0 <= k < tox_digits(t.thousandths as nat).len() ==> s[i + k] == tox_digits(
                t.thousandths as nat,
            )[k],
    ensures
        parse_toxicity_at(s, i) == Some((t, i + tox_digits(t.thousandths as nat).len())),
{
    let tt = t.thousandths as nat;
    let whole = tt / 1000;
    let ws = dec_digits(whole);
    let full = tox_digits(tt);
    let m = tt % 1000;
    assert(full.len() == ws.len() + 4);
    assert forall|k: int| 0 <= k < ws.len() implies s[i + k] == ws[k] by {
        assert(full[k] == ws[k]);
    }
    let j = i + ws.len();
    assert(s[j] == full[ws.len() as int]);
    assert(full[ws.len() as int] == '.');
    lemma_parse_u32_at(s, i, whole as u32);
    lemma_digit_char_val(m / 100);
    lemma_digit_char_val((m % 100) / 10);
    lemma_digit_char_val((m % 100) % 10);
    assert(s[j + 1] == full[ws.len() as int + 1]);
    assert(full[ws.len() as int + 1] == digit_char(m / 100));
    assert(s[j + 2] == full[ws.len() as int + 2]);
    assert(full[ws.len() as int + 2] == digit_char((m % 100) / 10));
    assert(s[j + 3] == full[ws.len() as int + 3]);
    assert(full[ws.len() as int + 3] == digit_char((m % 100) % 10));
    assert(whole * 1000 + (m / 100) * 100 + ((m % 100) / 10) * 10 + ((m % 100) % 10) == tt);
}

/// One attribute standing at `i`, followed by a non-digit, parses back
/// exactly.
proof fn lemma_parse_attr_at(s: Seq<char>, i: int, p: (Seq<char>, u32))
    requires
        0 <= i,
        i + attr_body(p).len() <= s.len(),
        forall|k: int| 0 <= k < attr_body(p).len() ==> s[i + k] == attr_body(p)[k],
        i + attr_body(p).len() == s.len() || !is_digit(s[i + attr_body(p).len()]),
    ensures
        parse_attr_at(s, i) == Some((p, i + attr_body(p).len())),
{
    let body = attr_body(p);
    let q = quoted(p.0);
    let ds = dec_digits(p.1 as nat);
    assert(body.len() == q.len() + 1 + ds.len());
    assert forall|k: int| 0 <= k < q.len() implies s[i + k] == q[k] by {
        assert(body[k] == q[k]);
    }
    lemma_parse_quoted_at(s, i, p.0);
    let j = i + q.len() as int;
    assert(s[j] == body[j - i]);
    assert(body[q.len() as int] == ':');
    assert forall|k: int| 0 <= k < ds.len() implies s[j + 1 + k] == ds[k] by {
        assert(body[q.len() + 1 + k] == ds[k]);
    }
    lemma_parse_u32_at(s, j + 1, p.1);
}

/// Each attribute item takes at least one character of text.
proof fn lemma_items_len_ge(attrs: Seq<(Seq<char>, u32)>, from: int)
    requires
        0 <= from < attrs.len(),
    ensures
        attr_items_body(attrs, from).len() >= attrs.len() - from,
    decreases attrs.len() - from,
{
    lemma_dec_digits_props(attrs[from].1 as nat);
    if from < attrs.len() - 1 {
        lemma_items_len_ge(attrs, from + 1);
    }
}

/// Attribute items standing at `i`, followed by a closing brace, parse
/// back exactly.
proof fn lemma_parse_attr_items_at(
    s: Seq<char>,
    i: int,
    attrs: Seq<(Seq<char>, u32)>,
    from: int,
    fuel: nat,
)
    requires
        0 <= from < attrs.len(),
        0 <= i,
        i + attr_items_body(attrs, from).len() < s.len(),
        forall|k: int|
            0 <= k < attr_items_body(attrs, from).len() ==> s[i + k] == attr_items_body(
                attrs,
                from,
            )[k],
        s[i + attr_items_body(attrs, from).len()] == '}',
        fuel >= attrs.len() - from,
    ensures
        parse_attr_items_at(s, i, fuel) == Some(
            (attrs.skip(from), i + attr_items_body(attrs, from).len()),
        ),
    decreases attrs.len() - from,
{
    let items = attr_items_body(attrs, from);
    let first = attr_body(attrs[from]);
    if from == attrs.len() - 1 {
        lemma_parse_attr_at(s, i, attrs[from]);
        assert(attrs.skip(from) =~= seq![attrs[from]]);
    } else {
        let rest = attr_items_body(attrs, from + 1);
        assert forall|k: int| 0 <= k < first.len() implies s[i + k] == first[k] by {
            assert(items[k] == first[k]);
        }
        assert(s[i + first.len()] == items[first.len() as int]);
        assert(items[first.len() as int] == ',');
        lemma_parse_attr_at(s, i, attrs[from]);
        let j = i + first.len();
        assert forall|k: int| 0 <= k < rest.len() implies s[j + 1 + k] == rest[k] by {
            assert(items[first.len() + 1 + k] == rest[k]);
        }
        lemma_parse_attr_items_at(s, j + 1, attrs, from + 1, (fuel - 1) as nat);
        assert(seq![attrs[from]] + attrs.skip(from + 1) =~= attrs.skip(from));
    }
}

/// An attribute mapping standing at `i` parses back exactly.
proof fn lemma_parse_attrs_at(s: Seq<char>, i: int, attrs: Seq<(Seq<char>, u32)>)
    requires
        0 <= i,
        i + attrs_body(attrs).len() <= s.len(),
        forall|k: int| 0 <= k < attrs_body(attrs).len() ==> s[i + k] == attrs_body(attrs)[k],
    ensures
        parse_attrs_at(s, i) == Some((attrs, i + attrs_body(attrs).len())),
{
    let body = attrs_body(attrs);
    let items = attr_items_body(attrs, 0);
    assert(body.len() == items.len() + 2);
    assert(s[i] == body[0]);
    assert(body[0] == '{');
    assert(s[i + 1 + items.len()] == body[1 + items.len() as int]);
    assert(body[1 + items.len() as int] == '}');
    if attrs.len() == 0 {
        assert(attrs =~= Seq::<(Seq<char>, u32)>::empty());
    } else {
        assert forall|k: int| 0 <= k < items.len() implies s[i + 1 + k] == items[k] by {
            assert(body[1 + k] == items[k]);
        }
        assert(items[0] == attr_body(attrs[0])[0]);
        assert(attr_body(attrs[0])[0] == quoted(attrs[0].0)[0]);
        assert(quoted(attrs[0].0)[0] == '"');
        assert(s[i + 1] == '"');
        lemma_items_len_ge(attrs, 0);
        lemma_parse_attr_items_at(s, i + 1, attrs, 0, s.len() as nat);
        assert(attrs.skip(0) =~= attrs);
    }
}

/// A condition standing at `i` parses back exactly.
proof fn lemma_parse_condition_at(s: Seq<char>, i: int, c: Option<ConditionModel>)
    requires
        0 <= i,
        i + condition_body(c).len() <= s.len(),
        forall|k: int| 0 <= k < condition_body(c).len() ==> s[i + k] == condition_body(c)[k],
    ensures
        parse_condition_at(s, i) == Some((c, i + condition_body(c).len())),
{
    reveal_strlit("null");
    reveal_strlit("{\"matcherType\":");
    reveal_strlit(",\"matcherParameters\":{\"headerKey\":");
    reveal_strlit(",\"headerValueRegex\":");
    reveal_strlit("}}");
    let body = condition_body(c);
    match c {
        None => {
            lemma_prefix_at(s, i, "null"@);
        },
        Some(cm) => {
            let l1 = "{\"matcherType\":"@;
            let l2 = ",\"matcherParameters\":{\"headerKey\":"@;
            let l3 = ",\"headerValueRegex\":"@;
            let l4 = "}}"@;
            let q1 = quoted(cm.matcher_type);
            let q2 = quoted(cm.header_key);
            let q3 = quoted(cm.header_value_regex);
            assert(body.len() == l1.len() + q1.len() + l2.len() + q2.len() + l3.len() + q3.len()
                + l4.len());
            assert(!has_prefix(s, i, "null"@)) by {
                if has_prefix(s, i, "null"@) {
                    assert(s.subrange(i, i + 4)[0] == s[i]);
                    assert(s[i] == body[0]);
                    assert(body[0] == '{');
                }
            }
            assert forall|k: int| 0 <= k < l1.len() implies s[i + k] == l1[k] by {
                assert(body[k] == l1[k]);
            }
            lemma_prefix_at(s, i, l1);
            let o1 = i + l1.len();
            assert forall|k: int| 0 <= k < q1.len() implies s[o1 + k] == q1[k] by {
                assert(body[l1.len() + k] == q1[k]);
            }
            lemma_parse_quoted_at(s, o1, cm.matcher_type);
            let o2 = o1 + q1.len();
            assert forall|k: int| 0 <= k < l2.len() implies s[o2 + k] == l2[k] by {
                assert(body[l1.len() + q1.len() + k] == l2[k]);
            }
            lemma_prefix_at(s, o2, l2);
            let o3 = o2 + l2.len();
            assert forall|k: int| 0 <= k < q2.len() implies s[o3 + k] == q2[k] by {
                assert(body[l1.len() + q1.len() + l2.len() + k] == q2[k]);
            }
            lemma_parse_quoted_at(s, o3, cm.header_key);
            let o4 = o3 + q2.len();
            assert forall|k: int| 0 <= k < l3.len() implies s[o4 + k] == l3[k] by {
                assert(body[l1.len() + q1.len() + l2.len() + q2.len() + k] == l3[k]);
            }
            lemma_prefix_at(s, o4, l3);
            let o5 = o4 + l3.len();
            assert forall|k: int| 0 <= k < q3.len() implies s[o5 + k] == q3[k] by {
                assert(body[l1.len() + q1.len() + l2.len() + q2.len() + l3.len() + k] == q3[k]);
            }
            lemma_parse_quoted_at(s, o5, cm.header_value_regex);
            let o6 = o5 + q3.len();
            assert forall|k: int| 0 <= k < l4.len() implies s[o6 + k] == l4[k] by {
                assert(body[l1.len() + q1.len() + l2.len() + q2.len() + l3.len() + q3.len() + k]
                    == l4[k]);
            }
            lemma_prefix_at(s, o6, l4);
        },
    }
}

/// Parsing the wire text of any toxic yields the toxic itself: the round
/// trip through the wire is the identity.
#[verifier::rlimit(100)]
#[verifier::spinoff_prover]
pub proof fn lemma_toxic_round_trip(t: ToxicModel)
    ensures
        parse_toxic_body(toxic_body(t)) == Some(t),
{
    reveal_strlit("{\"name\":");
    reveal_strlit(",\"type\":");
    reveal_strlit(",\"stream\":");
    reveal_strlit(",\"toxicity\":");
    reveal_strlit(",\"attributes\":");
    reveal_strlit(",\"condition\":");
    let s = toxic_body(t);
    let l0 = "{\"name\":"@;
    let l1 = ",\"type\":"@;
    let l2 = ",\"stream\":"@;
    let l3 = ",\"toxicity\":"@;
    let l4 = ",\"attributes\":"@;
    let l5 = ",\"condition\":"@;
    let q0 = quoted(t.name);
    let q1 = quoted(t.kind);
    let q2 = quoted(t.stream);
    let tx = tox_digits(t.toxicity.thousandths as nat);
    let ab = attrs_body(t.attributes);
    let cb = condition_body(t.condition);
    assert(s.len() == l0.len() + q0.len() + l1.len() + q1.len() + l2.len() + q2.len() + l3.len()
        + tx.len() + l4.len() + ab.len() + l5.len() + cb.len() + 1);
    assert forall|k: int| 0 <= k < l0.len() implies s[k] == l0[k] by {
        assert(s[k] == l0[k]);
    }
    lemma_prefix_at(s, 0, l0);
    let o0 = l0.len() as int;
    assert forall|k: int| 0 <= k < q0.len() implies s[o0 + k] == q0[k] by {
        assert(s[o0 + k] == q0[k]);
    }
    lemma_parse_quoted_at(s, o0, t.name);
    let o1 = o0 + q0.len();
    assert forall|k: int| 0 <= k < l1.len() implies s[o1 + k] == l1[k] by {
        assert(s[o1 + k] == l1[k]);
    }
    lemma_prefix_at(s, o1, l1);
    let o2 = o1 + l1.len();
    assert forall|k: int| 0 <= k < q1.len() implies s[o2 + k] == q1[k] by {
        assert(s[o2 + k] == q1[k]);
    }
    lemma_parse_quoted_at(s, o2, t.kind);
    let o3 = o2 + q1.len();
    assert forall|k: int| 0 <= k < l2.len() implies s[o3 + k] == l2[k] by {
        assert(s[o3 + k] == l2[k]);
    }
    lemma_prefix_at(s, o3, l2);
    let o4 = o3 + l2.len();
    assert forall|k: int| 0 <= k < q2.len() implies s[o4 + k] == q2[k] by {
        assert(s[o4 + k] == q2[k]);
    }
    lemma_parse_quoted_at(s, o4, t.stream);
    let o5 = o4 + q2.len();
    assert forall|k: int| 0 <= k < l3.len() implies s[o5 + k] == l3[k] by {
        assert(s[o5 + k] == l3[k]);
    }
    lemma_prefix_at(s, o5, l3);
    let o6 = o5 + l3.len();
    assert forall|k: int| 0 <= k < tx.len() implies s[o6 + k] == tx[k] by {
        assert(s[o6 + k] == tx[k]);
    }
    lemma_parse_toxicity_at(s, o6, t.toxicity);
    let o7 = o6 + tx.len();
    assert forall|k: int| 0 <= k < l4.len() implies s[o7 + k] == l4[k] by {
        assert(s[o7 + k] == l4[k]);
    }
    lemma_prefix_at(s, o7, l4);
    let o8 = o7 + l4.len();
    assert forall|k: int| 0 <= k < ab.len() implies s[o8 + k] == ab[k] by {
        assert(s[o8 + k] == ab[k]);
    }
    lemma_parse_attrs_at(s, o8, t.attributes);
    let o9 = o8 + ab.len();
    assert forall|k: int| 0 <= k < l5.len() implies s[o9 + k] == l5[k] by {
        assert(s[o9 + k] == l5[k]);
    }
    lemma_prefix_at(s, o9, l5);
    let o10 = o9 + l5.len();
    assert forall|k: int| 0 <= k < cb.len() implies s[o10 + k] == cb[k] by {
        assert(s[o10 + k] == cb[k]);
    }
    lemma_parse_condition_at(s, o10, t.condition);
    let o11 = o10 + cb.len();
    assert(s[o11] == '}');
    assert(o11 + 1 == s.len());
}

/// Append a toxic's wire text.
fn push_toxic(s: &mut String, t: &ToxicPack)
    ensures
        final (s)@ == old(s)@ + toxic_body(t@),
{
    let ghost entry = s@;
    s.append("{\"name\":");
    push_quoted(s, t.name.as_str());
    s.append(",\"type\":");
    push_quoted(s, t.kind.as_str());
    s.append(",\"stream\":");
    push_quoted(s, t.stream.as_str());
    s.append(",\"toxicity\":");
    push_toxicity(s, t.toxicity);
    s.append(",\"attributes\":");
    push_attrs(s, &t.attributes);
    s.append(",\"condition\":");
    push_condition(s, &t.condition);
    s.append("}");
    proof {
        reveal_strlit("}");
        assert("}"@ =~= seq!['}']);
        assert(s@ =~= entry + toxic_body(t@));
    }
}

/// Encode a toxic to its wire text.
pub fn encode_toxic(t: &ToxicPack) -> (r: String)
    ensures
        r@ == toxic_body(t@),
{
    let mut s = String::new();
    push_toxic(&mut s, t);
    proof {
        assert(s@ =~= toxic_body(t@));
    }
    s
}

/// A boolean on the wire.
pub open spec fn bool_body(b: bool) -> Seq<char> {
    if b {
        "true"@
    } else {
        "false"@
    }
}

/// The toxics of a list from position `from` on, joined by commas.
pub open spec fn toxic_items_body(toxics: Seq<ToxicModel>, from: int) -> Seq<char>
    decreases toxics.len() - from,
{
    if from < 0 || from >= toxics.len() {
        Seq::empty()
    } else if from == toxics.len() - 1 {
        toxic_body(toxics[from])
    } else {
        toxic_body(toxics[from]) + seq![','] + toxic_items_body(toxics, from + 1)
    }
}

/// The wire text of a toxic list.
pub open spec fn toxic_list_body(toxics: Seq<ToxicModel>) -> Seq<char> {
    seq!['['] + toxic_items_body(toxics, 0) + seq![']']
}

/// The wire text of a proxy.
pub open spec fn proxy_body(p: crate::proxy::ProxyModel) -> Seq<char> {
    "{\"name\":"@ + quoted(p.name) + ",\"listen\":"@ + quoted(p.listen) + ",\"upstream\":"@
        + quoted(p.upstream) + ",\"enabled\":"@ + bool_body(p.enabled) + ",\"toxics\":"@
        + toxic_list_body(p.toxics) + seq!['}']
}

/// The wire text of the bulk-create body: an array of proxies.
pub open spec fn proxies_body(ps: Seq<crate::proxy::ProxyModel>) -> Seq<char> {
    seq!['['] + proxy_items_body(ps, 0) + seq![']']
}

/// The proxies of a list from position `from` on, joined by commas.
pub open spec fn proxy_items_body(ps: Seq<crate::proxy::ProxyModel>, from: int) -> Seq<char>
    decreases ps.len() - from,
{
    if from < 0 || from >= ps.len() {
        Seq::empty()
    } else if from == ps.len() - 1 {
        proxy_body(ps[from])
    } else {
        proxy_body(ps[from]) + seq![','] + proxy_items_body(ps, from + 1)
    }
}

/// Append a boolean's wire text.
fn push_bool(s: &mut String, b: bool)
    ensures
        final (s)@ == old(s)@ + bool_body(b),
{
    if b {
        s.append("true");
    } else {
        s.append("false");
    }
}

/// Append the toxics of a list from position `from` on, joined by commas.
fn push_toxic_items(s: &mut String, toxics: &Vec<ToxicPack>, from: usize)
    requires
        from < toxics@.len(),
    ensures
        final (s)@ == old(s)@ + toxic_items_body(
            crate::proxy::toxics_view(toxics@),
            from as int,
        ),
    decreases toxics@.len() - from,
{
    let ghost entry = s@;
    let ghost model = crate::proxy::toxics_view(toxics@);
    push_toxic(s, &toxics[from]);
    proof {
        assert(model[from as int] == toxics@[from as int]@);
    }
    if from < toxics.len() - 1 {
        s.append(",");
        push_toxic_items(s, toxics, from + 1);
        proof {
            reveal_strlit(",");
            assert(","@ =~= seq![',']);
            assert(s@ =~= entry + toxic_items_body(model, from as int));
        }
    } else {
        proof {
            assert(s@ =~= entry + toxic_items_body(model, from as int));
        }
    }
}

/// Append a toxic list's wire text.
fn push_toxic_list(s: &mut String, toxics: &Vec<ToxicPack>)
    ensures
        final (s)@ == old(s)@ + toxic_list_body(crate::proxy::toxics_view(toxics@)),
{
    let ghost entry = s@;
    let ghost model = crate::proxy::toxics_view(toxics@);
    s.append("[");
    if toxics.len() > 0 {
        push_toxic_items(s, toxics, 0);
    }
    s.append("]");
    proof {
        reveal_strlit("[");
        reveal_strlit("]");
        assert("["@ =~= seq!['[']);
        assert("]"@ =~= seq![']']);
        if model.len() == 0 {
            assert(toxic_items_body(model, 0) =~= Seq::empty());
        }
        assert(s@ =~= entry + toxic_list_body(model));
    }
}

/// Append a proxy's wire text.
fn push_proxy(s: &mut String, p: &crate::proxy::ProxyPack)
    ensures
        final (s)@ == old(s)@ + proxy_body(p@),
{
    let ghost entry = s@;
    s.append("{\"name\":");
    push_quoted(s, p.name.as_str());
    s.append(",\"listen\":");
    push_quoted(s, p.listen.as_str());
    s.append(",\"upstream\":");
    push_quoted(s, p.upstream.as_str());
    s.append(",\"enabled\":");
    push_bool(s, p.enabled);
    s.append(",\"toxics\":");
    push_toxic_list(s, &p.toxics);
    s.append("}");
    proof {
        reveal_strlit("}");
        assert("}"@ =~= seq!['}']);
        assert(s@ =~= entry + proxy_body(p@));
    }
}

/// Encode a proxy to its wire text.
pub fn encode_proxy(p: &crate::proxy::ProxyPack) -> (r: String)
    ensures
        r@ == proxy_body(p@),
{
    let mut s = String::new();
    push_proxy(&mut s, p);
    proof {
        assert(s@ =~= proxy_body(p@));
    }
    s
}

/// Append the proxies of a list from position `from` on, joined by commas.
#[verifier::rlimit(50)]
fn push_proxy_items(s: &mut String, ps: &Vec<crate::proxy::ProxyPack>, from: usize)
    requires
        from < ps@.len(),
    ensures
        final (s)@ == old(s)@ + proxy_items_body(crate::proxy::packs_view(ps@), from as int),
    decreases ps@.len() - from,
{
    let ghost entry = s@;
    let ghost model = crate::proxy::packs_view(ps@);
    push_proxy(s, &ps[from]);
    proof {
        assert(model[from as int] == ps@[from as int]@);
    }
    if from < ps.len() - 1 {
        s.append(",");
        push_proxy_items(s, ps, from + 1);
        proof {
            reveal_strlit(",");
            assert(","@ =~= seq![',']);
            assert(s@ =~= entry + proxy_items_body(model, from as int));
        }
    } else {
        proof {
            assert(s@ =~= entry + proxy_items_body(model, from as int));
        }
    }
}

/// Encode the bulk-create body: the submitted proxies as an array.
pub fn encode_proxies(ps: &Vec<crate::proxy::ProxyPack>) -> (r: String)
    ensures
        r@ == proxies_body(crate::proxy::packs_view(ps@)),
{
    let ghost model = crate::proxy::packs_view(ps@);
    let mut s = String::new();
    s.append("[");
    if ps.len() > 0 {
        push_proxy_items(&mut s, ps, 0);
    }
    s.append("]");
    proof {
        reveal_strlit("[");
        reveal_strlit("]");
        assert("["@ =~= seq!['[']);
        assert("]"@ =~= seq![']']);
        if model.len() == 0 {
            assert(proxy_items_body(model, 0) =~= Seq::empty());
        }
        assert(s@ =~= proxies_body(model));
    }
    s
}

/// The value of a digit character; ten for any other character.
fn digit_value(c: char) -> (r: u32)
    ensures
        r == digit_val(c),
{
    if c == '0' {
        0
    } else if c == '1' {
        1
    } else if c == '2' {
        2
    } else if c == '3' {
        3
    } else if c == '4' {
        4
    } else if c == '5' {
        5
    } else if c == '6' {
        6
    } else if c == '7' {
        7
    } else if c == '8' {
        8
    } else if c == '9' {
        9
    } else {
        10
    }
}

/// True when the character at `j` is a digit.
fn digit_at(s: &str, j: usize) -> (r: bool)
    requires
        j < s@.len(),
    ensures
        r == is_digit(s@[j as int]),
{
    digit_value(s.get_char(j)) < 10
}

/// Check that `lit` stands in `s` at position `i`; the position after it.
fn expect_lit(s: &str, i: usize, lit: &str) -> (r: Option<usize>)
    ensures
        match r {
            Some(j) => has_prefix(s@, i as int, lit@) && j == i + lit@.len() && j <= s@.len(),
            None => !has_prefix(s@, i as int, lit@),
        },
{
    let n = lit.unicode_len();
    let sl = s.unicode_len();
    if i > sl || n > sl - i {
        return None;
    }
    let mut k: usize = 0;
    while k < n
        invariant
            i + n <= sl,
            sl == s@.len(),
            n == lit@.len(),
            k <= n,
            forall|t: int| 0 <= t < k ==> s@[i + t] == lit@[t],
        decreases n - k,
    {
        if s.get_char(i + k) != lit.get_char(k) {
            proof {
                if has_prefix(s@, i as int, lit@) {
                    assert(s@.subrange(i as int, i + lit@.len() as int)[k as int] == lit@[
                    k as int]);
                }
            }
            return None;
        }
        k += 1;
    }
    proof {
        lemma_prefix_at(s@, i as int, lit@);
    }
    Some(i + n)
}

/// The value of a hexadecimal digit character; sixteen for any other.
fn hex_value(c: char) -> (r: u32)
    ensures
        r == hex_val(c),
{
    let d = digit_value(c);
    if d < 10 {
        d
    } else if c == 'a' {
        10
    } else if c == 'b' {
        11
    } else if c == 'c' {
        12
    } else if c == 'd' {
        13
    } else if c == 'e' {
        14
    } else if c == 'f' {
        15
    } else {
        16
    }
}

/// The one-character text of a control character.
fn control_str(code: u32) -> (r: &'static str)
    requires
        code < 32,
    ensures
        r@ == seq![code as char],
{
    match code {
        0 => {
            proof {
                reveal_strlit("\x00");
                assert("\x00"@ =~= seq![0u32 as char]);
            }
            "\x00"
        },
        1 => {
            proof {
                reveal_strlit("\x01");
                assert("\x01"@ =~= seq![1u32 as char]);
            }
            "\x01"
        },
        2 => {
            proof {
                reveal_strlit("\x02");
                assert("\x02"@ =~= seq![2u32 as char]);
            }
            "\x02"
        },
        3 => {
            proof {
                reveal_strlit("\x03");
                assert("\x03"@ =~= seq![3u32 as char]);
            }
            "\x03"
        },
        4 => {
            proof {
                reveal_strlit("\x04");
                assert("\x04"@ =~= seq![4u32 as char]);
            }
            "\x04"
        },
        5 => {
            proof {
                reveal_strlit("\x05");
                assert("\x05"@ =~= seq![5u32 as char]);
            }
            "\x05"
        },
        6 => {
            proof {
                reveal_strlit("\x06");
                assert("\x06"@ =~= seq![6u32 as char]);
            }
            "\x06"
        },
        7 => {
            proof {
                reveal_strlit("\x07");
                assert("\x07"@ =~= seq![7u32 as char]);
            }
            "\x07"
        },
        8 => {
            proof {
                reveal_strlit("\x08");
                assert("\x08"@ =~= seq![8u32 as char]);
            }
            "\x08"
        },
        9 => {
            proof {
                reveal_strlit("\x09");
                assert("\x09"@ =~= seq![9u32 as char]);
            }
            "\x09"
        },
        10 => {
            proof {
                reveal_strlit("\x0a");
                assert("\x0a"@ =~= seq![10u32 as char]);
            }
            "\x0a"
        },
        11 => {
            proof {
                reveal_strlit("\x0b");
                assert("\x0b"@ =~= seq![11u32 as char]);
            }
            "\x0b"
        },
        12 => {
            proof {
                reveal_strlit("\x0c");
                assert("\x0c"@ =~= seq![12u32 as char]);
            }
            "\x0c"
        },
        13 => {
            proof {
                reveal_strlit("\x0d");
                assert("\x0d"@ =~= seq![13u32 as char]);
            }
            "\x0d"
        },
        14 => {
            proof {
                reveal_strlit("\x0e");
                assert("\x0e"@ =~= seq![14u32 as char]);
            }
            "\x0e"
        },
        15 => {
            proof {
                reveal_strlit("\x0f");
                assert("\x0f"@ =~= seq![15u32 as char]);
            }
            "\x0f"
        },
        16 => {
            proof {
                reveal_strlit("\x10");
                assert("\x10"@ =~= seq![16u32 as char]);
            }
            "\x10"
        },
        17 => {
            proof {
                reveal_strlit("\x11");
                assert("\x11"@ =~= seq![17u32 as char]);
            }
            "\x11"
        },
        18 => {
            proof {
                reveal_strlit("\x12");
                assert("\x12"@ =~= seq![18u32 as char]);
            }
            "\x12"
        },
        19 => {
            proof {
                reveal_strlit("\x13");
                assert("\x13"@ =~= seq![19u32 as char]);
            }
            "\x13"
        },
        20 => {
            proof {
                reveal_strlit("\x14");
                assert("\x14"@ =~= seq![20u32 as char]);
            }
            "\x14"
        },
        21 => {
            proof {
                reveal_strlit("\x15");
                assert("\x15"@ =~= seq![21u32 as char]);
            }
            "\x15"
        },
        22 => {
            proof {
                reveal_strlit("\x16");
                assert("\x16"@ =~= seq![22u32 as char]);
            }
            "\x16"
        },
        23 => {
            proof {
                reveal_strlit("\x17");
                assert("\x17"@ =~= seq![23u32 as char]);
            }
            "\x17"
        },
        24 => {
            proof {
                reveal_strlit("\x18");
                assert("\x18"@ =~= seq![24u32 as char]);
            }
            "\x18"
        },
        25 => {
            proof {
                reveal_strlit("\x19");
                assert("\x19"@ =~= seq![25u32 as char]);
            }
            "\x19"
        },
        26 => {
            proof {
                reveal_strlit("\x1a");
                assert("\x1a"@ =~= seq![26u32 as char]);
            }
            "\x1a"
        },
        27 => {
            proof {
                reveal_strlit("\x1b");
                assert("\x1b"@ =~= seq![27u32 as char]);
            }
            "\x1b"
        },
        28 => {
            proof {
                reveal_strlit("\x1c");
                assert("\x1c"@ =~= seq![28u32 as char]);
            }
            "\x1c"
        },
        29 => {
            proof {
                reveal_strlit("\x1d");
                assert("\x1d"@ =~= seq![29u32 as char]);
            }
            "\x1d"
        },
        30 => {
            proof {
                reveal_strlit("\x1e");
                assert("\x1e"@ =~= seq![30u32 as char]);
            }
            "\x1e"
        },
        _ => {
            proof {
                reveal_strlit("\x1f");
                assert("\x1f"@ =~= seq![31u32 as char]);
            }
            "\x1f"
        },
    }
}

/// Parse a quoted string at position `i` of `s`, decoding its escapes.
fn parse_quoted_exec(s: &str, i: usize) -> (r: Option<(String, usize)>)
    ensures
        match r {
            Some(v) => parse_quoted(s@, i as int) == Some((v.0@, v.1 as int)) && v.1 <= s@.len(),
            None => parse_quoted(s@, i as int) is None,
        },
{
    let sl = s.unicode_len();
    if i >= sl {
        return None;
    }
    if s.get_char(i) != '"' {
        return None;
    }
    let mut acc = String::new();
    let mut k: usize = i + 1;
    proof {
        if let Some(p) = parse_string_chars(s@, i as int + 1) {
            assert(acc@ + p.0 =~= p.0);
        }
    }
    while k < sl
        invariant
            i + 1 <= k <= sl,
            sl == s@.len(),
            i < sl,
            s@[i as int] == '"',
            ({
                let top = parse_string_chars(s@, i as int + 1);
                match parse_string_chars(s@, k as int) {
                    Some(p) => top == Some((acc@ + p.0, p.1)),
                    None => top is None,
                }
            }),
        decreases sl - k,
    {
        let ghost acc_entry = acc@;
        let c = s.get_char(k);
        if c == '"' {
            proof {
                assert(acc@ + Seq::<char>::empty() =~= acc@);
            }
            return Some((acc, k + 1));
        }
        if c == '\\' {
            if k + 1 >= sl {
                return None;
            }
            let e = s.get_char(k + 1);
            if e == '"' {
                acc.append("\"");
                proof {
                    reveal_strlit("\"");
                    assert("\""@ =~= seq!['"']);
                    if let Some(p) = parse_string_chars(s@, k as int + 2) {
                        assert(acc_entry + (seq![unescape_short('"')] + p.0) =~= acc@ + p.0);
                    }
                }
                k = k + 2;
            } else if e == '\\' {
                acc.append("\\");
                proof {
                    reveal_strlit("\\");
                    assert("\\"@ =~= seq!['\\']);
                    if let Some(p) = parse_string_chars(s@, k as int + 2) {
                        assert(acc_entry + (seq![unescape_short('\\')] + p.0) =~= acc@ + p.0);
                    }
                }
                k = k + 2;
            } else if e == 'n' {
                acc.append("\n");
                proof {
                    reveal_strlit("\n");
                    assert("\n"@ =~= seq!['\n']);
                    if let Some(p) = parse_string_chars(s@, k as int + 2) {
                        assert(acc_entry + (seq![unescape_short('n')] + p.0) =~= acc@ + p.0);
                    }
                }
                k = k + 2;
            } else if e == 'r' {
                acc.append("\r");
                proof {
                    reveal_strlit("\r");
                    assert("\r"@ =~= seq!['\r']);
                    if let Some(p) = parse_string_chars(s@, k as int + 2) {
                        assert(acc_entry + (seq![unescape_short('r')] + p.0) =~= acc@ + p.0);
                    }
                }
                k = k + 2;
            } else if e == 't' {
                acc.append("\t");
                proof {
                    reveal_strlit("\t");
                    assert("\t"@ =~= seq!['\t']);
                    if let Some(p) = parse_string_chars(s@, k as int + 2) {
                        assert(acc_entry + (seq![unescape_short('t')] + p.0) =~= acc@ + p.0);
                    }
                }
                k = k + 2;
            } else if e == 'u' {
                if sl - (k + 1) < 5 {
                    return None;
                }
                let c2 = s.get_char(k + 2);
                let c3 = s.get_char(k + 3);
                let h1 = hex_value(s.get_char(k + 4));
                let h2 = hex_value(s.get_char(k + 5));
                if c2 == '0' && c3 == '0' && h1 < 16 && h2 < 16 && h1 * 16 + h2 < 32 {
                    let code: u32 = h1 * 16 + h2;
                    let piece = control_str(code);
                    acc.append(piece);
                    proof {
                        assert(((hex_val(s@[k as int + 4]) * 16 + hex_val(s@[k as int + 5])) as u32)
                            == code);
                        if let Some(p) = parse_string_chars(s@, k as int + 6) {
                            assert(acc_entry + (seq![code as char] + p.0) =~= acc@ + p.0);
                        }
                    }
                    k = k + 6;
                } else {
                    return None;
                }
            } else {
                return None;
            }
        } else if (c as u32) < 32 {
            return None;
        } else {
            let piece = s.substring_char(k, k + 1);
            acc.append(piece);
            proof {
                assert(piece@ =~= seq![c]);
                if let Some(p) = parse_string_chars(s@, k as int + 1) {
                    assert(acc_entry + (seq![c] + p.0) =~= acc@ + p.0);
                }
            }
            k = k + 1;
        }
    }
    None
}

/// Parse an unsigned number at position `i` of `s`.
fn parse_u32_exec(s: &str, i: usize) -> (r: Option<(u32, usize)>)
    ensures
        match r {
            Some(v) => parse_u32_at(s@, i as int) == Some((v.0, v.1 as int)) && v.1 <= s@.len(),
            None => parse_u32_at(s@, i as int) is None,
        },
{
    let sl = s.unicode_len();
    if i > sl {
        return None;
    }
    let mut j: usize = i;
    while j < sl && digit_at(s, j)
        invariant
            i <= j <= sl,
            sl == s@.len(),
            forall|t: int| i <= t < j ==> is_digit(s@[t]),
        decreases sl - j,
    {
        j += 1;
    }
    proof {
        lemma_digits_end_stop(s@, i as int, j as int);
    }
    if j == i {
        return None;
    }
    if s.get_char(i) == '0' && j > i + 1 {
        return None;
    }
    let mut k: usize = i;
    let mut acc: u64 = 0;
    let mut over = false;
    while k < j
        invariant
            i <= k <= j <= sl,
            sl == s@.len(),
            forall|t: int| i <= t < j ==> is_digit(s@[t]),
            over ==> digits_val(s@, i as int, k as int) > u32::MAX as nat,
            !over ==> acc as nat == digits_val(s@, i as int, k as int) && acc <= u32::MAX as u64,
        decreases j - k,
    {
        let d = digit_value(s.get_char(k));
        proof {
            assert(digits_val(s@, i as int, k + 1) == digits_val(s@, i as int, k as int) * 10
                + digit_val(s@[k as int]));
        }
        if !over {
            let next: u64 = acc * 10 + d as u64;
            if next > u32::MAX as u64 {
                over = true;
            } else {
                acc = next;
            }
        }
        k += 1;
    }
    if over {
        return None;
    }
    Some((acc as u32, j))
}

/// Parse a toxicity at position `i` of `s`.
fn parse_toxicity_exec(s: &str, i: usize) -> (r: Option<(Toxicity, usize)>)
    ensures
        match r {
            Some(v) => parse_toxicity_at(s@, i as int) == Some((v.0, v.1 as int)) && v.1
                <= s@.len(),
            None => parse_toxicity_at(s@, i as int) is None,
        },
{
    match parse_u32_exec(s, i) {
        None => None,
        Some((whole, j)) => {
            let sl = s.unicode_len();
            if sl - j >= 4 && s.get_char(j) == '.' {
                let d1 = digit_value(s.get_char(j + 1));
                let d2 = digit_value(s.get_char(j + 2));
                let d3 = digit_value(s.get_char(j + 3));
                if d1 < 10 && d2 < 10 && d3 < 10 {
                    let v: u64 = (whole as u64) * 1000 + (d1 * 100 + d2 * 10 + d3) as u64;
                    if v <= u32::MAX as u64 {
                        Some((Toxicity { thousandths: v as u32 }, j + 4))
                    } else {
                        None
                    }
                } else {
                    None
                }
            } else {
                None
            }
        },
    }
}

/// Parse one attribute at position `i` of `s`.
fn parse_attr_exec(s: &str, i: usize) -> (r: Option<((String, u32), usize)>)
    ensures
        match r {
            Some(v) => parse_attr_at(s@, i as int) == Some(((v.0.0@, v.0.1), v.1 as int)) && v.1
                <= s@.len(),
            None => parse_attr_at(s@, i as int) is None,
        },
{
    match parse_quoted_exec(s, i) {
        None => None,
        Some((k, j)) => {
            let sl = s.unicode_len();
            if j < sl && s.get_char(j) == ':' {
                match parse_u32_exec(s, j + 1) {
                    None => None,
                    Some((v, m)) => Some(((k, v), m)),
                }
            } else {
                None
            }
        },
    }
}

/// Parse comma-joined attributes at position `i` of `s`.
fn parse_attr_items_exec(s: &str, i: usize, fuel: usize) -> (r: Option<(Vec<(String, u32)>, usize)>)
    ensures
        match r {
            Some(v) => parse_attr_items_at(s@, i as int, fuel as nat) == Some(
                (crate::toxic::attrs_view(v.0@), v.1 as int),
            ) && v.1 <= s@.len(),
            None => parse_attr_items_at(s@, i as int, fuel as nat) is None,
        },
    decreases fuel,
{
    if fuel == 0 {
        return None;
    }
    match parse_attr_exec(s, i) {
        None => None,
        Some((kv, j)) => {
            let ghost kvm = (kv.0@, kv.1);
            let sl = s.unicode_len();
            if j < sl && s.get_char(j) == ',' {
                match parse_attr_items_exec(s, j + 1, fuel - 1) {
                    None => None,
                    Some((mut rest, m)) => {
                        let ghost restm = crate::toxic::attrs_view(rest@);
                        rest.insert(0, kv);
                        proof {
                            assert(crate::toxic::attrs_view(rest@) =~= seq![kvm] + restm);
                        }
                        Some((rest, m))
                    },
                }
            } else {
                let mut one: Vec<(String, u32)> = Vec::new();
                one.push(kv);
                proof {
                    assert(crate::toxic::attrs_view(one@) =~= seq![kvm]);
                }
                Some((one, j))
            }
        },
    }
}

/// Parse an attribute mapping at position `i` of `s`.
fn parse_attrs_exec(s: &str, i: usize) -> (r: Option<(Vec<(String, u32)>, usize)>)
    ensures
        match r {
            Some(v) => parse_attrs_at(s@, i as int) == Some(
                (crate::toxic::attrs_view(v.0@), v.1 as int),
            ) && v.1 <= s@.len(),
            None => parse_attrs_at(s@, i as int) is None,
        },
{
    let sl = s.unicode_len();
    if i < sl && s.get_char(i) == '{' {
        if i + 1 < sl && s.get_char(i + 1) == '}' {
            let none: Vec<(String, u32)> = Vec::new();
            proof {
                assert(crate::toxic::attrs_view(none@) =~= Seq::<(Seq<char>, u32)>::empty());
            }
            Some((none, i + 2))
        } else {
            match parse_attr_items_exec(s, i + 1, sl) {
                None => None,
                Some((attrs, j)) => {
                    if j < sl && s.get_char(j) == '}' {
                        Some((attrs, j + 1))
                    } else {
                        None
                    }
                },
            }
        }
    } else {
        None
    }
}

/// Parse an optional condition at position `i` of `s`.
fn parse_condition_exec(s: &str, i: usize) -> (r: Option<(Option<ToxicCondition>, usize)>)
    ensures
        match r {
            Some(v) => parse_condition_at(s@, i as int) == Some(
                (crate::toxic::condition_view(v.0), v.1 as int),
            ) && v.1 <= s@.len(),
            None => parse_condition_at(s@, i as int) is None,
        },
{
    match expect_lit(s, i, "null") {
        Some(j) => Some((None, j)),
        None => {
            match expect_lit(s, i, "{\"matcherType\":") {
                None => None,
                Some(j0) => {
                    match parse_quoted_exec(s, j0) {
                        None => None,
                        Some((mt, j1)) => {
                            match expect_lit(s, j1, ",\"matcherParameters\":{\"headerKey\":") {
                                None => None,
                                Some(j2) => {
                                    match parse_quoted_exec(s, j2) {
                                        None => None,
                                        Some((hk, j3)) => {
                                            match expect_lit(s, j3, ",\"headerValueRegex\":") {
                                                None => None,
                                                Some(j4) => {
                                                    match parse_quoted_exec(s, j4) {
                                                        None => None,
                                                        Some((rx, j5)) => {
                                                            match expect_lit(s, j5, "}}") {
                                                                None => None,
                                                                Some(j6) => Some(
                                                                    (
                                                                        Some(
                                                                            ToxicCondition {
                                                                                matcher_type: mt,
                                                                                header_key: hk,
                                                                                header_value_regex:
                                                                                    rx,
                                                                            },
                                                                        ),
                                                                        j6,
                                                                    ),
                                                                ),
                                                            }
                                                        },
                                                    }
                                                },
                                            }
                                        },
                                    }
                                },
                            }
                        },
                    }
                },
            }
        },
    }
}

/// Parse the wire text of a toxic. Every text `toxic_body` produces
/// parses back to the toxic it encodes; see `lemma_toxic_round_trip`.
pub fn parse_toxic(s: &str) -> (r: Option<ToxicPack>)
    ensures
        match r {
            Some(t) => parse_toxic_body(s@) == Some(t@),
            None => parse_toxic_body(s@) is None,
        },
{
    let i0 = match expect_lit(s, 0, "{\"name\":") {
        None => {
            return None;
        },
        Some(j) => j,
    };
    let (name, i1) = match parse_quoted_exec(s, i0) {
        None => {
            return None;
        },
        Some(v) => v,
    };
    let i2 = match expect_lit(s, i1, ",\"type\":") {
        None => {
            return None;
        },
        Some(j) => j,
    };
    let (kind, i3) = match parse_quoted_exec(s, i2) {
        None => {
            return None;
        },
        Some(v) => v,
    };
    let i4 = match expect_lit(s, i3, ",\"stream\":") {
        None => {
            return None;
        },
        Some(j) => j,
    };
    let (stream, i5) = match parse_quoted_exec(s, i4) {
        None => {
            return None;
        },
        Some(v) => v,
    };
    let i6 = match expect_lit(s, i5, ",\"toxicity\":") {
        None => {
            return None;
        },
        Some(j) => j,
    };
    let (toxicity, i7) = match parse_toxicity_exec(s, i6) {
        None => {
            return None;
        },
        Some(v) => v,
    };
    let i8 = match expect_lit(s, i7, ",\"attributes\":") {
        None => {
            return None;
        },
        Some(j) => j,
    };
    let (attributes, i9) = match parse_attrs_exec(s, i8) {
        None => {
            return None;
        },
        Some(v) => v,
    };
    let i10 = match expect_lit(s, i9, ",\"condition\":") {
        None => {
            return None;
        },
        Some(j) => j,
    };
    let (condition, i11) = match parse_condition_exec(s, i10) {
        None => {
            return None;
        },
        Some(v) => v,
    };
    let sl = s.unicode_len();
    if i11 < sl && sl - i11 == 1 && s.get_char(i11) == '}' {
        Some(ToxicPack { name, kind, stream, toxicity, attributes, condition })
    } else {
        None
    }
}

} // verus!
