//! Text building blocks: decimal and hexadecimal numerals, joining, and escaping.

use vstd::prelude::*;
use vstd::string::*;

verus! {

/// `String::push` appends one character to the end of the string.
pub assume_specification[ String::push ](s: &mut String, c: char)
    ensures
        final(s)@ == old(s)@.push(c),
;

/// The character of a digit below 16.
pub open spec fn digit(d: int) -> char {
    if d < 10 {
        (48 + d) as char
    } else {
        (87 + d) as char
    }
}

/// The decimal numeral of a natural number.
pub open spec fn decimal(n: nat) -> Seq<char>
    decreases n,
{
    if n < 10 {
        seq![digit(n as int)]
    } else {
        decimal(n / 10).push(digit((n % 10) as int))
    }
}

/// The decimal numeral of an integer.
pub open spec fn signed_decimal(i: int) -> Seq<char> {
    if i < 0 {
        seq!['-'] + decimal((-i) as nat)
    } else {
        decimal(i as nat)
    }
}

/// The decimal numeral of an integer, with its sign.
pub open spec fn plus_decimal(i: int) -> Seq<char> {
    if i < 0 {
        seq!['-'] + decimal((-i) as nat)
    } else {
        seq!['+'] + decimal(i as nat)
    }
}

pub open spec fn spaces(n: int) -> Seq<char> {
    if n <= 0 {
        seq![]
    } else {
        Seq::new(n as nat, |i: int| ' ')
    }
}

/// A text set to the right of a column.
pub open spec fn right_set(s: Seq<char>, width: int) -> Seq<char> {
    spaces(width - s.len()) + s
}

/// A text set to the left of a column.
pub open spec fn left_set(s: Seq<char>, width: int) -> Seq<char> {
    s + spaces(width - s.len())
}

/// Four hexadecimal digits of a number below 65536.
pub open spec fn hex4(n: int) -> Seq<char> {
    seq![digit(n / 4096 % 16), digit(n / 256 % 16), digit(n / 16 % 16), digit(n % 16)]
}

/// Texts one after another, separated by a comma.
pub open spec fn comma_joined(parts: Seq<Seq<char>>) -> Seq<char>
    decreases parts.len(),
{
    if parts.len() == 0 {
        seq![]
    } else if parts.len() == 1 {
        parts[0]
    } else {
        comma_joined(parts.drop_last()) + seq![','] + parts.last()
    }
}

/// Each character replaced by its escape.
pub open spec fn escaped(s: Seq<char>, f: spec_fn(char) -> Seq<char>) -> Seq<char>
    decreases s.len(),
{
    if s.len() == 0 {
        seq![]
    } else {
        escaped(s.drop_last(), f) + f(s.last())
    }
}

/// The escape of a character within a JSON string.
pub open spec fn json_char(c: char) -> Seq<char> {
    if c == '"' {
        seq!['\\', '"']
    } else if c == '\\' {
        seq!['\\', '\\']
    } else if c == '\n' {
        seq!['\\', 'n']
    } else if (c as u32) < 0x20 {
        seq!['\\', 'u'] + hex4(c as int)
    } else {
        seq![c]
    }
}

/// A text as the inside of a JSON string.
pub open spec fn json_escaped(s: Seq<char>) -> Seq<char> {
    escaped(s, |c: char| json_char(c))
}

/// The escape of a character within HTML text.
pub open spec fn html_char(c: char) -> Seq<char> {
    if c == '&' {
        seq!['&', 'a', 'm', 'p', ';']
    } else if c == '<' {
        seq!['&', 'l', 't', ';']
    } else if c == '>' {
        seq!['&', 'g', 't', ';']
    } else {
        seq![c]
    }
}

/// A text as HTML text.
pub open spec fn html_escaped(s: Seq<char>) -> Seq<char> {
    escaped(s, |c: char| html_char(c))
}

/// Two numbers with one numeral are one number.
pub proof fn decimal_is_injective(a: nat, b: nat)
    requires
        decimal(a) == decimal(b),
    ensures
        a == b,
    decreases a,
{
    lemma_decimal_nonempty(a / 10);
    lemma_decimal_nonempty(b / 10);
    if a < 10 {
        assert(decimal(a).len() == 1);
        if b >= 10 {
            assert(decimal(b).len() == decimal(b / 10).len() + 1);
        } else {
            assert(decimal(a)[0] == digit(a as int));
            assert(decimal(b)[0] == digit(b as int));
        }
    } else if b < 10 {
        assert(decimal(b).len() == 1);
        assert(decimal(a).len() == decimal(a / 10).len() + 1);
    } else {
        assert(decimal(a).drop_last() =~= decimal(a / 10));
        assert(decimal(b).drop_last() =~= decimal(b / 10));
        assert(decimal(a).last() == digit((a % 10) as int));
        assert(decimal(b).last() == digit((b % 10) as int));
        decimal_is_injective(a / 10, b / 10);
    }
}

proof fn lemma_decimal_nonempty(n: nat)
    ensures
        decimal(n).len() >= 1,
    decreases n,
{
    if n >= 10 {
        lemma_decimal_nonempty(n / 10);
    }
}

/// Escaping one text after another is escaping them together.
pub proof fn escape_of_concatenation(a: Seq<char>, b: Seq<char>, f: spec_fn(char) -> Seq<char>)
    ensures
        escaped(a + b, f) == escaped(a, f) + escaped(b, f),
    decreases b.len(),
{
    if b.len() == 0 {
        assert(a + b =~= a);
    } else {
        escape_of_concatenation(a, b.drop_last(), f);
        assert((a + b).drop_last() =~= a + b.drop_last());
        assert((a + b).last() == b.last());
    }
}

/// The value of a hexadecimal digit.
pub open spec fn hex_value(c: char) -> Option<int> {
    let n = c as int;
    if 48 <= n <= 57 {
        Some(n - 48)
    } else if 97 <= n <= 102 {
        Some(n - 87)
    } else if 65 <= n <= 70 {
        Some(n - 55)
    } else {
        None
    }
}

/// The character that four hexadecimal digits name, if they name one by themselves.
pub open spec fn hex_char(t: Seq<char>) -> Option<char> {
    match (hex_value(t[0]), hex_value(t[1]), hex_value(t[2]), hex_value(t[3])) {
        (Some(a), Some(b), Some(c), Some(d)) => {
            let n = 4096 * a + 256 * b + 16 * c + d;
            if 0xD800 <= n <= 0xDFFF {
                None
            } else {
                Some(n as char)
            }
        },
        _ => None,
    }
}

/// The character that a letter behind a backslash stands for.
pub open spec fn short_escape(c: char) -> Option<char> {
    if c == '"' || c == '\\' || c == '/' {
        Some(c)
    } else if c == 'b' {
        Some(8 as char)
    } else if c == 'f' {
        Some(12 as char)
    } else if c == 'n' {
        Some('\n')
    } else if c == 'r' {
        Some('\r')
    } else if c == 't' {
        Some('\t')
    } else {
        None
    }
}

pub open spec fn prefixed(c: Option<char>, rest: Option<Seq<char>>) -> Option<Seq<char>> {
    match (c, rest) {
        (Some(c), Some(s)) => Some(seq![c] + s),
        _ => None,
    }
}

/// The text that the inside of a JSON string stands for; none where it is malformed or
/// holds half of a surrogate pair.
pub open spec fn json_read(t: Seq<char>) -> Option<Seq<char>>
    decreases t.len(),
{
    if t.len() == 0 {
        Some(seq![])
    } else if t[0] == '\\' {
        if t.len() < 2 {
            None
        } else if t[1] == 'u' {
            if t.len() < 6 {
                None
            } else {
                prefixed(hex_char(t.subrange(2, 6)), json_read(t.skip(6)))
            }
        } else {
            prefixed(short_escape(t[1]), json_read(t.skip(2)))
        }
    } else if t[0] == '"' || (t[0] as u32) < 0x20 {
        None
    } else {
        prefixed(Some(t[0]), json_read(t.skip(1)))
    }
}

/// Reading an escaped JSON text gives the text back.
pub proof fn json_escape_reads_back(s: Seq<char>)
    ensures
        json_read(json_escaped(s)) == Some(s),
    decreases s.len(),
{
    if s.len() == 0 {
        assert(s =~= seq![]);
    } else {
        let c = s[0];
        let rest = s.skip(1);
        let f = |c: char| json_char(c);
        json_escape_reads_back(rest);
        assert(s =~= seq![c] + rest);
        escape_of_concatenation(seq![c], rest, f);
        lemma_escape_one(c, f);
        let t = json_escaped(s);
        assert(t == json_char(c) + json_escaped(rest));
        lemma_reads_one(c, json_escaped(rest));
    }
}

proof fn lemma_escape_one(c: char, f: spec_fn(char) -> Seq<char>)
    ensures
        escaped(seq![c], f) == f(c),
{
    let s = seq![c];
    assert(s.drop_last() =~= seq![]);
    assert(escaped(s.drop_last(), f) =~= seq![]);
    assert(escaped(s, f) =~= f(c));
}

proof fn lemma_reads_one(c: char, rest: Seq<char>)
    ensures
        json_read(json_char(c) + rest) == prefixed(Some(c), json_read(rest)),
{
    let t = json_char(c) + rest;
    let n = json_char(c).len() as int;
    assert(t.skip(n) =~= rest);
    assert(t[0] == json_char(c)[0]);
    if c == '"' || c == '\\' || c == '\n' {
        assert(t[1] == json_char(c)[1]);
    } else if (c as u32) < 0x20 {
        assert(t[1] == json_char(c)[1]);
        assert(t.subrange(2, 6) =~= hex4(c as int));
        lemma_hex_char(c);
    }
}

proof fn lemma_hex_char(c: char)
    requires
        (c as u32) < 0x20,
    ensures
        hex_char(hex4(c as int)) == Some(c),
{
    let d = c as int;
    assert(d / 4096 % 16 == 0 && d / 256 % 16 == 0);
    assert(hex_value(digit(0)) == Some(0int));
    assert(hex_value(digit(d / 16 % 16)) == Some(d / 16 % 16));
    assert(hex_value(digit(d % 16)) == Some(d % 16));
    assert(16 * (d / 16 % 16) + d % 16 == d);
}

/// Two texts with one JSON escape are one text.
pub proof fn json_escape_is_injective(a: Seq<char>, b: Seq<char>)
    requires
        json_escaped(a) == json_escaped(b),
    ensures
        a == b,
{
    json_escape_reads_back(a);
    json_escape_reads_back(b);
}

/// An escaped JSON text holds no control character, so it stays on one line.
pub proof fn json_escape_is_printable(s: Seq<char>)
    ensures
        forall|i: int| 0 <= i < json_escaped(s).len() ==> 0x20 <= (#[trigger] json_escaped(s)[i]) as u32,
    decreases s.len(),
{
    if s.len() > 0 {
        json_escape_is_printable(s.drop_last());
        let head = json_escaped(s.drop_last());
        let tail = json_char(s.last());
        assert(json_escaped(s) =~= head + tail);
        assert forall|i: int| 0 <= i < json_escaped(s).len() implies 0x20 <= (
        #[trigger] json_escaped(s)[i]) as u32 by {
            if i < head.len() {
                assert(json_escaped(s)[i] == head[i]);
            } else {
                assert(json_escaped(s)[i] == tail[i - head.len()]);
            }
        }
    }
}

/// A JSON text's quotes are all escaped: each follows a backslash.
pub proof fn json_escape_guards_quotes(s: Seq<char>, i: int)
    requires
        0 <= i < json_escaped(s).len(),
        json_escaped(s)[i] == '"',
    ensures
        i > 0 && json_escaped(s)[i - 1] == '\\',
    decreases s.len(),
{
    if s.len() > 0 {
        let head = json_escaped(s.drop_last());
        let tail = json_char(s.last());
        assert(json_escaped(s) =~= head + tail);
        if i < head.len() {
            assert(json_escaped(s)[i] == head[i]);
            json_escape_guards_quotes(s.drop_last(), i);
            assert(json_escaped(s)[i - 1] == head[i - 1]);
        } else {
            assert(json_escaped(s)[i] == tail[i - head.len()]);
            assert(tail == seq!['\\', '"']);
            assert(json_escaped(s)[i - 1] == tail[i - 1 - head.len()]);
        }
    }
}

/// An escaped HTML text opens no tag.
pub proof fn html_escape_opens_no_tag(s: Seq<char>)
    ensures
        forall|i: int|
            0 <= i < html_escaped(s).len() ==> (#[trigger] html_escaped(s)[i]) != '<'
                && html_escaped(s)[i] != '>',
    decreases s.len(),
{
    if s.len() > 0 {
        html_escape_opens_no_tag(s.drop_last());
        let head = html_escaped(s.drop_last());
        let tail = html_char(s.last());
        assert(html_escaped(s) =~= head + tail);
        assert forall|i: int| 0 <= i < html_escaped(s).len() implies (#[trigger] html_escaped(s)[i])
            != '<' && html_escaped(s)[i] != '>' by {
            if i < head.len() {
                assert(html_escaped(s)[i] == head[i]);
            } else {
                assert(html_escaped(s)[i] == tail[i - head.len()]);
            }
        }
    }
}

fn digit_char(d: u8) -> (c: char)
    requires
        d < 16,
    ensures
        c == digit(d as int),
{
    if d < 10 {
        (48 + d) as char
    } else {
        (87 + d) as char
    }
}

/// Appends a number's decimal numeral.
pub fn push_decimal(out: &mut String, n: u64)
    ensures
        final(out)@ == old(out)@ + decimal(n as nat),
    decreases n,
{
    let ghost before = out@;
    if n >= 10 {
        push_decimal(out, n / 10);
    }
    out.push(digit_char((n % 10) as u8));
    assert(out@ =~= before + decimal(n as nat));
}

/// Appends an integer's decimal numeral.
pub fn push_signed(out: &mut String, i: i64)
    requires
        i64::MIN < i,
    ensures
        final(out)@ == old(out)@ + signed_decimal(i as int),
{
    let ghost before = out@;
    if i < 0 {
        out.push('-');
        push_decimal(out, (-i) as u64);
        assert(out@ =~= before + signed_decimal(i as int));
    } else {
        push_decimal(out, i as u64);
    }
}

/// Appends an integer's decimal numeral, with its sign.
pub fn push_plus(out: &mut String, i: i64)
    requires
        i64::MIN < i,
    ensures
        final(out)@ == old(out)@ + plus_decimal(i as int),
{
    let ghost before = out@;
    if i < 0 {
        out.push('-');
        push_decimal(out, (-i) as u64);
    } else {
        out.push('+');
        push_decimal(out, i as u64);
    }
    assert(out@ =~= before + plus_decimal(i as int));
}

fn push_spaces(out: &mut String, n: usize)
    ensures
        final(out)@ == old(out)@ + spaces(n as int),
{
    let ghost before = out@;
    let mut i: usize = 0;
    assert(out@ =~= before + spaces(0));
    while i < n
        invariant
            i <= n,
            out@ == before + spaces(i as int),
        decreases n - i,
    {
        out.push(' ');
        i = i + 1;
        assert(out@ =~= before + spaces(i as int));
    }
}

/// Appends a text set to the right of a column.
pub fn push_right(out: &mut String, s: &str, width: usize)
    ensures
        final(out)@ == old(out)@ + right_set(s@, width as int),
{
    let ghost before = out@;
    let n: usize = s.unicode_len();
    if n < width {
        push_spaces(out, width - n);
    }
    out.append(s);
    assert(out@ =~= before + right_set(s@, width as int));
}

/// Appends a text set to the left of a column.
pub fn push_left(out: &mut String, s: &str, width: usize)
    ensures
        final(out)@ == old(out)@ + left_set(s@, width as int),
{
    let ghost before = out@;
    let n: usize = s.unicode_len();
    out.append(s);
    if n < width {
        push_spaces(out, width - n);
    }
    assert(out@ =~= before + left_set(s@, width as int));
}

fn push_hex4(out: &mut String, n: u32)
    requires
        n < 65536,
    ensures
        final(out)@ == old(out)@ + hex4(n as int),
{
    let ghost before = out@;
    out.push(digit_char((n / 4096 % 16) as u8));
    out.push(digit_char((n / 256 % 16) as u8));
    out.push(digit_char((n / 16 % 16) as u8));
    out.push(digit_char((n % 16) as u8));
    assert(out@ =~= before + hex4(n as int));
}

fn push_json_char(out: &mut String, c: char)
    ensures
        final(out)@ == old(out)@ + json_char(c),
{
    let ghost before = out@;
    if c == '"' {
        out.push('\\');
        out.push('"');
    } else if c == '\\' {
        out.push('\\');
        out.push('\\');
    } else if c == '\n' {
        out.push('\\');
        out.push('n');
    } else if (c as u32) < 0x20 {
        out.push('\\');
        out.push('u');
        push_hex4(out, c as u32);
    } else {
        out.push(c);
    }
    assert(out@ =~= before + json_char(c));
}

fn push_html_char(out: &mut String, c: char)
    ensures
        final(out)@ == old(out)@ + html_char(c),
{
    let ghost before = out@;
    if c == '&' {
        out.push('&');
        out.push('a');
        out.push('m');
        out.push('p');
        out.push(';');
    } else if c == '<' {
        out.push('&');
        out.push('l');
        out.push('t');
        out.push(';');
    } else if c == '>' {
        out.push('&');
        out.push('g');
        out.push('t');
        out.push(';');
    } else {
        out.push(c);
    }
    assert(out@ =~= before + html_char(c));
}

/// Appends a text as the inside of a JSON string.
pub fn push_json(out: &mut String, s: &str)
    ensures
        final(out)@ == old(out)@ + json_escaped(s@),
{
    let ghost before = out@;
    let n: usize = s.unicode_len();
    let mut i: usize = 0;
    assert(s@.take(0) =~= Seq::<char>::empty());
    assert(out@ =~= before + json_escaped(s@.take(0)));
    while i < n
        invariant
            n == s@.len(),
            i <= n,
            out@ == before + json_escaped(s@.take(i as int)),
        decreases n - i,
    {
        assert(s@.take(i as int + 1).drop_last() =~= s@.take(i as int));
        push_json_char(out, s.get_char(i));
        i = i + 1;
        assert(out@ =~= before + json_escaped(s@.take(i as int)));
    }
    assert(s@.take(n as int) =~= s@);
}

/// Appends a text as HTML text.
pub fn push_html(out: &mut String, s: &str)
    ensures
        final(out)@ == old(out)@ + html_escaped(s@),
{
    let ghost before = out@;
    let n: usize = s.unicode_len();
    let mut i: usize = 0;
    assert(s@.take(0) =~= Seq::<char>::empty());
    assert(out@ =~= before + html_escaped(s@.take(0)));
    while i < n
        invariant
            n == s@.len(),
            i <= n,
            out@ == before + html_escaped(s@.take(i as int)),
        decreases n - i,
    {
        assert(s@.take(i as int + 1).drop_last() =~= s@.take(i as int));
        push_html_char(out, s.get_char(i));
        i = i + 1;
        assert(out@ =~= before + html_escaped(s@.take(i as int)));
    }
    assert(s@.take(n as int) =~= s@);
}

// ── What texts stand for ───────────────────────────────────────────────────

/// Digits follow each other: the ten from `0` on, then the letters from `a` on.
pub proof fn digits_follow_each_other(d: int)
    ensures
        0 <= d < 10 ==> digit(d) as int == '0' as int + d,
        10 <= d < 16 ==> digit(d) as int == 'a' as int + (d - 10),
        0 <= d < 16 ==> hex_value(digit(d)) == Some(d),
{
}

/// The number that a row of decimal digits stands for.
pub open spec fn number_of(s: Seq<char>) -> int
    decreases s.len(),
{
    if s.len() == 0 {
        0
    } else {
        10 * number_of(s.drop_last()) + (s.last() as int - '0' as int)
    }
}

/// A numeral is made of decimal digits, stands for its number, and has no zero in front.
pub proof fn a_numeral_stands_for_its_number(n: nat)
    ensures
        number_of(decimal(n)) == n,
        decimal(n).len() >= 1,
        n >= 1 ==> decimal(n)[0] != '0',
        n == 0 ==> decimal(n) == seq!['0'],
        forall|i: int| 0 <= i < decimal(n).len() ==> '0' <= (#[trigger] decimal(n)[i]) <= '9',
    decreases n,
{
    if n < 10 {
        assert(decimal(n).drop_last() =~= Seq::<char>::empty());
        assert(decimal(n).last() == digit(n as int));
        assert(number_of(Seq::<char>::empty()) == 0);
    } else {
        a_numeral_stands_for_its_number(n / 10);
        assert(decimal(n).drop_last() =~= decimal(n / 10));
        assert(decimal(n).last() == digit((n % 10) as int));
        assert(decimal(n)[0] == decimal(n / 10)[0]);
        assert forall|i: int| 0 <= i < decimal(n).len() implies '0' <= (#[trigger] decimal(n)[i])
            <= '9' by {
            if i < decimal(n).len() - 1 {
                assert(decimal(n)[i] == decimal(n / 10)[i]);
            }
        }
    }
}

/// A negative number has a minus in front of its size; one that is not has nothing there, or
/// a plus where the sign is shown.
pub proof fn signs_stand_in_front(i: int)
    ensures
        i < 0 ==> signed_decimal(i)[0] == '-' && signed_decimal(i).drop_first() == decimal(
            (-i) as nat,
        ),
        i >= 0 ==> signed_decimal(i) == decimal(i as nat),
        i < 0 ==> plus_decimal(i) == signed_decimal(i),
        i >= 0 ==> plus_decimal(i)[0] == '+' && plus_decimal(i).drop_first() == decimal(i as nat),
{
    if i < 0 {
        assert(signed_decimal(i).drop_first() =~= decimal((-i) as nat));
    } else {
        assert(plus_decimal(i).drop_first() =~= decimal(i as nat));
    }
}

/// A set text fills its column with blanks, in front or behind; one that is too long stays as
/// it is.
pub proof fn a_set_text_fills_its_column(s: Seq<char>, width: int, i: int)
    ensures
        s.len() >= width ==> right_set(s, width) == s && left_set(s, width) == s,
        s.len() < width ==> right_set(s, width).len() == width && left_set(s, width).len() == width,
        s.len() < width ==> right_set(s, width).skip(width - s.len()) == s && left_set(
            s,
            width,
        ).take(s.len() as int) == s,
        s.len() < width && 0 <= i < width - s.len() ==> right_set(s, width)[i] == ' ' && left_set(
            s,
            width,
        )[s.len() + i] == ' ',
{
    if s.len() >= width {
        assert(right_set(s, width) =~= s);
        assert(left_set(s, width) =~= s);
    } else {
        assert(right_set(s, width).skip(width - s.len()) =~= s);
        assert(left_set(s, width).take(s.len() as int) =~= s);
    }
}

/// Four hexadecimal digits stand for their number.
pub proof fn four_digits_stand_for_their_number(n: int)
    requires
        0 <= n < 65536,
    ensures
        hex4(n).len() == 4,
        4096 * hex_value(hex4(n)[0])->0 + 256 * hex_value(hex4(n)[1])->0 + 16 * hex_value(
            hex4(n)[2],
        )->0 + hex_value(hex4(n)[3])->0 == n,
{
    let (a, b, c, d) = (n / 4096 % 16, n / 256 % 16, n / 16 % 16, n % 16);
    digits_follow_each_other(a);
    digits_follow_each_other(b);
    digits_follow_each_other(c);
    digits_follow_each_other(d);
    let (p, q) = (n / 16, n / 256);
    assert(q == p / 16 && n / 4096 == q / 16);
    assert(p == 16 * (p / 16) + p % 16 && q == 16 * (q / 16) + q % 16);
}

/// Joined texts stand one after another with a comma between each two, and nothing before the
/// first or behind the last.
pub proof fn commas_stand_between(parts: Seq<Seq<char>>, p: Seq<char>)
    ensures
        comma_joined(seq![]).len() == 0,
        parts.len() == 0 ==> comma_joined(parts.push(p)) == p,
        parts.len() > 0 ==> comma_joined(parts.push(p)) == comma_joined(parts) + seq![','] + p,
{
    assert(parts.push(p).drop_last() =~= parts);
}

/// What HTML reads otherwise is spelled out, and any other character stays.
pub proof fn html_spells_out_its_marks(c: char)
    ensures
        html_escaped(seq!['&']) == "&amp;"@,
        html_escaped(seq!['<']) == "&lt;"@,
        html_escaped(seq!['>']) == "&gt;"@,
        c != '&' && c != '<' && c != '>' ==> html_escaped(seq![c]) == seq![c],
{
    reveal_strlit("&amp;");
    reveal_strlit("&lt;");
    reveal_strlit("&gt;");
    let f = |c: char| html_char(c);
    lemma_escape_one('&', f);
    lemma_escape_one('<', f);
    lemma_escape_one('>', f);
    lemma_escape_one(c, f);
    assert(html_escaped(seq!['&']) =~= "&amp;"@);
    assert(html_escaped(seq!['<']) =~= "&lt;"@);
    assert(html_escaped(seq!['>']) =~= "&gt;"@);
}

/// What JSON reads otherwise is escaped, and any other character stays.
pub proof fn json_escapes_its_marks(c: char)
    ensures
        json_escaped(seq!['"']) == seq!['\\', '"'],
        json_escaped(seq!['\\']) == seq!['\\', '\\'],
        json_escaped(seq!['\n']) == seq!['\\', 'n'],
        (c as u32) >= 0x20 && c != '"' && c != '\\' ==> json_escaped(seq![c]) == seq![c],
{
    let f = |c: char| json_char(c);
    lemma_escape_one('"', f);
    lemma_escape_one('\\', f);
    lemma_escape_one('\n', f);
    lemma_escape_one(c, f);
}

} // verus!
