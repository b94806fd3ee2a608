//! Text rendering of chain values: decimal and hexadecimal digits, and the
//! few string operations the rest of the crate builds its reports from.

use crate::primitives::{be_value, B256, U256};
use vstd::prelude::*;
use vstd::string::StringExecFns;

verus! {

/// The character of one decimal digit.
pub open spec fn digit_char(d: nat) -> char {
    seq!['0', '1', '2', '3', '4', '5', '6', '7', '8', '9'][d as int]
}

/// The decimal digits of `n`, most significant first, without leading
/// zeros; zero is `"0"`.
pub open spec fn decimal_text(n: nat) -> Seq<char>
    decreases n,
{
    if n < 10 {
        seq![digit_char(n)]
    } else {
        decimal_text(n / 10).push(digit_char(n % 10))
    }
}

/// The character of one hexadecimal digit, in lower case.
pub open spec fn hex_char(d: nat) -> char {
    seq!['0', '1', '2', '3', '4', '5', '6', '7', '8', '9', 'a', 'b', 'c', 'd', 'e', 'f'][d as int]
}

/// Two lower-case hexadecimal digits for each byte, high digit first.
pub open spec fn hex_text(bytes: Seq<u8>) -> Seq<char> {
    Seq::new(
        2 * bytes.len(),
        |i: int|
            if i % 2 == 0 {
                hex_char((bytes[i / 2] / 16) as nat)
            } else {
                hex_char((bytes[i / 2] % 16) as nat)
            },
    )
}

/// The escape character that begins a terminal control sequence.
pub open spec fn escape_char() -> char {
    '\u{1b}'
}

/// The control sequence that switches the foreground colour to red.
pub open spec fn red_on() -> Seq<char> {
    seq![escape_char(), '[', '3', '1', 'm']
}

/// The control sequence that switches to bold type.
pub open spec fn bold_on() -> Seq<char> {
    seq![escape_char(), '[', '1', 'm']
}

/// The control sequence that resets colour and type.
pub open spec fn style_off() -> Seq<char> {
    seq![escape_char(), '[', '0', 'm']
}

/// Calls `String::push`.
///
/// Trusted: the string afterwards is the string before with `c` at its end.
#[verifier::external_body]
pub(crate) fn push_char(s: &mut String, c: char)
    ensures
        final(s)@ == old(s)@.push(c),
{
    s.push(c);
}

/// Calls `hex::encode`.
///
/// Trusted: the result holds two lower-case hexadecimal digits for each
/// byte, in order, and nothing else.
#[verifier::external_body]
pub(crate) fn hex_encode(bytes: &[u8]) -> (s: String)
    ensures
        s@ == hex_text(bytes@),
{
    hex::encode(bytes)
}

/// Formats a 256-bit integer with `alloy`'s `Display` impl for `U256`.
///
/// Trusted: the result is the number in decimal, without sign, padding or
/// leading zeros.
#[verifier::external_body]
pub(crate) fn u256_decimal(n: &U256) -> (s: String)
    ensures
        s@ == decimal_text(be_value(n@)),
{
    alloy::primitives::U256::from_be_bytes(n.bytes).to_string()
}

/// Renders `text` in red with the `colored` crate.
///
/// Trusted: whether colour is applied depends on the terminal and the
/// environment. For text without an escape character the result is either
/// the text itself or the text between the sequences for red and for reset.
#[verifier::external_body]
pub(crate) fn paint_red(text: &str) -> (s: String)
    ensures
        !text@.contains(escape_char()) ==> s@ == text@ || s@ == red_on() + text@ + style_off(),
{
    colored::Colorize::red(text).to_string()
}

/// Renders `text` in bold with the `colored` crate.
///
/// Trusted: as for red; the result is the text itself or the text between
/// the sequences for bold and for reset.
#[verifier::external_body]
pub(crate) fn paint_bold(text: &str) -> (s: String)
    ensures
        !text@.contains(escape_char()) ==> s@ == text@ || s@ == bold_on() + text@ + style_off(),
{
    colored::Colorize::bold(text).to_string()
}

/// The control sequence that switches to bold type and a white foreground.
pub open spec fn bold_white_on() -> Seq<char> {
    seq![escape_char(), '[', '1', ';', '3', '7', 'm']
}

/// Renders `text` in bold white with the `colored` crate.
///
/// Trusted: as for red; the result is the text itself or the text between
/// the sequences for bold white and for reset.
#[verifier::external_body]
pub(crate) fn paint_bold_white(text: &str) -> (s: String)
    ensures
        !text@.contains(escape_char()) ==> s@ == text@ || s@ == bold_white_on() + text@
            + style_off(),
{
    colored::Colorize::white(colored::Colorize::bold(text)).to_string()
}

/// A string holding `n` copies of `c`.
pub fn repeat_char(c: char, n: usize) -> (s: String)
    ensures
        s@ == Seq::new(n as nat, |i: int| c),
{
    let mut s = String::new();
    let mut i: usize = 0;
    while i < n
        invariant
            i <= n,
            s@ == Seq::new(i as nat, |k: int| c),
        decreases n - i,
    {
        push_char(&mut s, c);
        assert(s@ =~= Seq::new((i + 1) as nat, |k: int| c));
        i += 1;
    }
    s
}

/// `"0x"` followed by the lower-case hexadecimal digits of `bytes`.
pub open spec fn prefixed_hex(bytes: Seq<u8>) -> Seq<char> {
    seq!['0', 'x'] + hex_text(bytes)
}

/// Writes `bytes` as `0x` and two lower-case hexadecimal digits per byte.
pub fn format_bytes(bytes: &[u8]) -> (s: String)
    ensures
        s@ == prefixed_hex(bytes@),
{
    let digits = hex_encode(bytes);
    let mut s = String::new();
    push_char(&mut s, '0');
    push_char(&mut s, 'x');
    s.append(digits.as_str());
    assert(s@ =~= prefixed_hex(bytes@));
    s
}

/// `text` centred in a field of `width` characters, padded with spaces; the
/// odd space goes to the right. Text that is already as wide is unchanged.
pub open spec fn centered(text: Seq<char>, width: nat) -> Seq<char> {
    if text.len() >= width {
        text
    } else {
        let pad = (width - text.len()) as nat;
        Seq::new(pad / 2, |i: int| ' ') + text + Seq::new((pad - pad / 2) as nat, |i: int| ' ')
    }
}

/// Centres `text` in a field of `width` characters.
pub fn center(text: &str, width: usize) -> (s: String)
    ensures
        s@ == centered(text@, width as nat),
{
    let len: usize = text.unicode_len();
    if len >= width {
        String::from_str(text)
    } else {
        let pad: usize = width - len;
        let mut s = repeat_char(' ', pad / 2);
        s.append(text);
        let right = repeat_char(' ', pad - pad / 2);
        s.append(right.as_str());
        assert(s@ =~= centered(text@, width as nat));
        s
    }
}

/// The decimal digits of `n`.
pub fn decimal_u64(n: u64) -> (s: String)
    ensures
        s@ == decimal_text(n as nat),
{
    let mut digits: Vec<char> = Vec::new();
    let mut rest: u64 = n;
    let ghost mut tail: Seq<char> = Seq::empty();
    loop
        invariant_except_break
            digits@.len() == tail.len(),
            forall|i: int| 0 <= i < tail.len() ==> tail[i] == digits@[tail.len() - 1 - i],
            tail.len() == 0 ==> rest == n,
            tail.len() > 0 ==> rest > 0 && decimal_text(n as nat) == decimal_text(rest as nat)
                + tail,
        ensures
            digits@.len() == tail.len(),
            tail.len() > 0,
            forall|i: int| 0 <= i < tail.len() ==> tail[i] == digits@[tail.len() - 1 - i],
            decimal_text(n as nat) == tail,
        decreases rest,
    {
        let d: u8 = (rest % 10) as u8;
        let c = digit_of(d);
        let ghost before = tail;
        proof {
            tail = seq![c] + before;
        }
        digits.push(c);
        if rest < 10 {
            proof {
                assert(decimal_text(rest as nat) =~= seq![c]);
                assert(decimal_text(n as nat) =~= tail);
            }
            break ;
        }
        proof {
            assert(decimal_text(rest as nat) =~= decimal_text((rest / 10) as nat).push(c));
            assert(decimal_text((rest / 10) as nat).push(c) + before =~= decimal_text(
                (rest / 10) as nat,
            ) + tail);
            assert(decimal_text(n as nat) =~= decimal_text((rest / 10) as nat) + tail);
        }
        rest = rest / 10;
    }
    let mut s = String::new();
    let mut k: usize = digits.len();
    while k > 0
        invariant
            k <= digits@.len(),
            digits@.len() == tail.len(),
            forall|i: int| 0 <= i < tail.len() ==> tail[i] == digits@[tail.len() - 1 - i],
            s@ == tail.take(digits@.len() - k),
        decreases k,
    {
        k -= 1;
        push_char(&mut s, digits[k]);
        assert(s@ =~= tail.take(digits@.len() - k));
    }
    assert(tail.take(tail.len() as int) =~= tail);
    s
}

/// The character of the decimal digit `d`.
fn digit_of(d: u8) -> (c: char)
    requires
        d < 10,
    ensures
        c == digit_char(d as nat),
{
    if d == 0 {
        '0'
    } else if d == 1 {
        '1'
    } else if d == 2 {
        '2'
    } else if d == 3 {
        '3'
    } else if d == 4 {
        '4'
    } else if d == 5 {
        '5'
    } else if d == 6 {
        '6'
    } else if d == 7 {
        '7'
    } else if d == 8 {
        '8'
    } else {
        '9'
    }
}

/// One line of a report: the padding, a label, a value and a line feed.
pub open spec fn line(pad: Seq<char>, label: Seq<char>, value: Seq<char>) -> Seq<char> {
    (pad + label + value).push('\n')
}

/// Appends one line to a report.
pub fn push_line(out: &mut String, pad: &str, label: &str, value: &str)
    ensures
        final(out)@ == old(out)@ + line(pad@, label@, value@),
{
    out.append(pad);
    out.append(label);
    out.append(value);
    push_char(out, '\n');
    assert(out@ =~= old(out)@ + line(pad@, label@, value@));
}

/// `n` spaces.
pub open spec fn spaces(n: nat) -> Seq<char> {
    Seq::new(n, |i: int| ' ')
}

/// Whether `out` is `text` as `mark_red_if_not_empty` may render it when
/// `empty` is the value that needs no mark.
pub open spec fn is_marked(out: Seq<char>, text: Seq<char>, empty: Seq<char>) -> bool {
    &&& text == empty ==> out == text
    &&& text != empty && !text.contains(escape_char()) ==> out == text || out == red_on() + text
        + style_off()
}

/// Whether `out` is `text` as `paint_bold` may render it.
pub open spec fn is_bold(out: Seq<char>, text: Seq<char>) -> bool {
    !text.contains(escape_char()) ==> out == text || out == bold_on() + text + style_off()
}

/// Whether `out` is `text` as `paint_bold_white` may render it.
pub open spec fn is_bold_white(out: Seq<char>, text: Seq<char>) -> bool {
    !text.contains(escape_char()) ==> out == text || out == bold_white_on() + text + style_off()
}

/// A 32-byte word in lower-case hexadecimal with a `0x` prefix.
pub fn format_b256(value: &B256) -> (s: String)
    ensures
        s@ == prefixed_hex(value@),
{
    format_bytes(value.bytes.as_slice())
}

/// Whether two strings hold the same characters.
pub fn same_text(a: &str, b: &str) -> (r: bool)
    ensures
        r == (a@ == b@),
{
    let n: usize = a.unicode_len();
    if n != b.unicode_len() {
        return false;
    }
    let mut i: usize = 0;
    while i < n
        invariant
            i <= n,
            n == a@.len(),
            n == b@.len(),
            forall|k: int| 0 <= k < i ==> a@[k] == b@[k],
        decreases n - i,
    {
        if a.get_char(i) != b.get_char(i) {
            return false;
        }
        i += 1;
    }
    assert(a@ =~= b@);
    true
}

/// The texts in `parts`, one after the other.
pub open spec fn joined(parts: Seq<Seq<char>>) -> Seq<char>
    decreases parts.len(),
{
    if parts.len() == 0 {
        Seq::empty()
    } else {
        joined(parts.drop_last()) + parts.last()
    }
}

} // verus!
