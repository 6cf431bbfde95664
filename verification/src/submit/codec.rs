//! The text form of the stack data block: fields that end in a comma, with
//! an escape for the characters that must not stand in a field.
//!
//! A field is written with each backslash as `\\`, each comma as `\c` and
//! each `>` as `\g`, and a comma after it. So a comma in the text always
//! ends a field, and the text holds no `>`: it can stand inside an HTML
//! comment.

use vstd::prelude::*;
use crate::text::decimal;
use crate::text::digit_char;

verus! {

/// How one character of a field is written.
pub open spec fn escape_char(c: char) -> Seq<char> {
    if c == '\\' {
        seq!['\\', '\\']
    } else if c == ',' {
        seq!['\\', 'c']
    } else if c == '>' {
        seq!['\\', 'g']
    } else {
        seq![c]
    }
}

/// The character that stands for the one behind a backslash, if any.
pub open spec fn unescape_char(c: char) -> Option<char> {
    if c == '\\' {
        Some('\\')
    } else if c == 'c' {
        Some(',')
    } else if c == 'g' {
        Some('>')
    } else {
        None
    }
}

/// How the content of a field is written.
pub open spec fn escape(s: Seq<char>) -> Seq<char>
    decreases s.len(),
{
    if s.len() == 0 {
        Seq::empty()
    } else {
        escape_char(s[0]) + escape(s.drop_first())
    }
}

/// A field as it stands in the text: its content, escaped, and a comma.
pub open spec fn field(s: Seq<char>) -> Seq<char> {
    escape(s).push(',')
}

/// Reads the field at the start of `text`: its content and what follows its
/// comma. There is none where the text ends before a comma, where a `>`
/// stands in the field, or where a backslash is followed by anything but
/// `\`, `c` or `g`.
pub open spec fn take_field(text: Seq<char>) -> Option<(Seq<char>, Seq<char>)>
    decreases text.len(),
{
    if text.len() == 0 {
        None
    } else if text[0] == ',' {
        Some((Seq::empty(), text.drop_first()))
    } else if text[0] == '>' {
        None
    } else if text[0] == '\\' {
        if text.len() < 2 {
            None
        } else {
            match (unescape_char(text[1]), take_field(text.skip(2))) {
                (Some(c), Some((content, rest))) => Some((seq![c] + content, rest)),
                _ => None,
            }
        }
    } else {
        match take_field(text.drop_first()) {
            Some((content, rest)) => Some((seq![text[0]] + content, rest)),
            None => None,
        }
    }
}

/// Reading a field takes at least its comma off the text.
pub proof fn lemma_take_field_shrinks(text: Seq<char>)
    ensures
        take_field(text) matches Some((_, rest)) ==> rest.len() < text.len(),
    decreases text.len(),
{
    if text.len() == 0 {
    } else if text[0] == ',' {
    } else if text[0] == '>' {
    } else if text[0] == '\\' {
        if text.len() >= 2 {
            lemma_take_field_shrinks(text.skip(2));
        }
    } else {
        lemma_take_field_shrinks(text.drop_first());
    }
}

/// A field that was written is read back as it was, and what stood after it
/// is what follows.
pub proof fn lemma_take_field(s: Seq<char>, rest: Seq<char>)
    ensures
        take_field(field(s) + rest) == Some((s, rest)),
    decreases s.len(),
{
    let text = field(s) + rest;
    if s.len() == 0 {
        assert(text.drop_first() =~= rest);
    } else {
        let c = s[0];
        let tail = s.drop_first();
        lemma_take_field(tail, rest);
        assert(escape(s) == escape_char(c) + escape(tail));
        if c == '\\' || c == ',' || c == '>' {
            assert(text.skip(2) =~= field(tail) + rest);
            assert(text[0] == '\\');
            assert(unescape_char(text[1]) == Some(c));
        } else {
            assert(text.drop_first() =~= field(tail) + rest);
            assert(text[0] == c);
        }
        assert(seq![c] + tail =~= s);
    }
}

/// The value of a decimal digit, if the character is one.
pub open spec fn digit_value(c: char) -> Option<nat> {
    if c == '0' {
        Some(0)
    } else if c == '1' {
        Some(1)
    } else if c == '2' {
        Some(2)
    } else if c == '3' {
        Some(3)
    } else if c == '4' {
        Some(4)
    } else if c == '5' {
        Some(5)
    } else if c == '6' {
        Some(6)
    } else if c == '7' {
        Some(7)
    } else if c == '8' {
        Some(8)
    } else if c == '9' {
        Some(9)
    } else {
        None
    }
}

/// The number that `s` is the decimal form of: digits only, at least one,
/// and no leading zero but for zero itself.
pub open spec fn parse_number(s: Seq<char>) -> Option<nat>
    decreases s.len(),
{
    if s.len() == 0 {
        None
    } else if s.len() == 1 {
        digit_value(s[0])
    } else if s[0] == '0' {
        None
    } else {
        match (parse_number(s.drop_last()), digit_value(s.last())) {
            (Some(n), Some(d)) => Some(n * 10 + d),
            _ => None,
        }
    }
}

/// The decimal form of a number has at least one digit, and begins with a
/// zero only where the number is zero.
pub proof fn lemma_decimal_first(n: nat)
    ensures
        decimal(n).len() >= 1,
        n >= 10 ==> decimal(n).len() >= 2,
        n >= 1 ==> decimal(n)[0] != '0',
    decreases n,
{
    if n >= 10 {
        lemma_decimal_first(n / 10);
        assert(decimal(n)[0] == decimal(n / 10)[0]);
    }
}

/// The decimal form of a number is read back as that number.
pub proof fn lemma_parse_decimal(n: nat)
    ensures
        parse_number(decimal(n)) == Some(n),
    decreases n,
{
    if n >= 10 {
        lemma_parse_decimal(n / 10);
        lemma_decimal_first(n);
        let s = decimal(n);
        assert(s.drop_last() =~= decimal(n / 10));
        assert(s.last() == digit_char(n % 10));
        assert(digit_value(digit_char(n % 10)) == Some(n % 10));
    }
}

/// Appends `s` as a field to `out`.
pub fn push_field(out: &mut Vec<char>, s: &Vec<char>)
    ensures
        final(out)@ == old(out)@ + field(s@),
{
    let mut i: usize = 0;
    proof {
        assert(s@.skip(0) =~= s@);
        assert(out@ + escape(s@) =~= old(out)@ + escape(s@));
    }
    while i < s.len()
        invariant
            i <= s@.len(),
            out@ + escape(s@.skip(i as int)) == old(out)@ + escape(s@),
        decreases s@.len() - i,
    {
        let c = s[i];
        let ghost before = out@;
        proof {
            assert(s@.skip(i as int)[0] == c);
            assert(s@.skip(i as int).drop_first() =~= s@.skip(i + 1));
        }
        if c == '\\' {
            out.push('\\');
            out.push('\\');
        } else if c == ',' {
            out.push('\\');
            out.push('c');
        } else if c == '>' {
            out.push('\\');
            out.push('g');
        } else {
            out.push(c);
        }
        proof {
            assert(out@ =~= before + escape_char(c));
            assert(out@ + escape(s@.skip(i + 1)) =~= before + escape(s@.skip(i as int)));
        }
        i += 1;
    }
    proof {
        assert(s@.skip(i as int) =~= Seq::<char>::empty());
        assert(out@ =~= old(out)@ + escape(s@));
    }
    out.push(',');
}

/// The character of a decimal digit.
fn digit_of(d: u64) -> (r: char)
    requires
        d < 10,
    ensures
        r == digit_char(d as nat),
{
    if d == 0 {
        '0'
    } else if d == 1 {
        '1'
    } else if d == 2 {
        '2'
    } else if d == 3 {
        '3'
    } else if d == 4 {
        '4'
    } else if d == 5 {
        '5'
    } else if d == 6 {
        '6'
    } else if d == 7 {
        '7'
    } else if d == 8 {
        '8'
    } else {
        '9'
    }
}

/// Appends the decimal form of `n` to `out`.
pub fn push_decimal(out: &mut Vec<char>, n: u64)
    ensures
        final(out)@ == old(out)@ + decimal(n as nat),
    decreases n,
{
    if n >= 10 {
        push_decimal(out, n / 10);
    }
    out.push(digit_of(n % 10));
    proof {
        assert(final(out)@ =~= old(out)@ + decimal(n as nat));
    }
}

/// Appends the decimal form of `n` as a field to `out`.
pub fn push_number_field(out: &mut Vec<char>, n: u64)
    ensures
        final(out)@ == old(out)@ + field(decimal(n as nat)),
{
    let mut digits: Vec<char> = Vec::new();
    push_decimal(&mut digits, n);
    proof {
        assert(digits@ =~= decimal(n as nat));
    }
    push_field(out, &digits);
}

/// Reads the field of `text` that starts at `start`: its content and the
/// position behind its comma.
pub fn read_field(text: &Vec<char>, start: usize) -> (r: Option<(Vec<char>, usize)>)
    requires
        start <= text@.len(),
    ensures
        match r {
            Some((content, next)) => start < next <= text@.len() && take_field(
                text@.skip(start as int),
            ) == Some((content@, text@.skip(next as int))),
            None => take_field(text@.skip(start as int)) is None,
        },
{
    let ghost all = take_field(text@.skip(start as int));
    let mut content: Vec<char> = Vec::new();
    let mut i: usize = start;
    let n = text.len();
    proof {
        match all {
            Some((c, rest)) => {
                assert(content@ + c =~= c);
            },
            None => {},
        }
    }
    while i < n
        invariant
            n == text@.len(),
            start <= i <= n,
            all == take_field(text@.skip(start as int)),
            all == (match take_field(text@.skip(i as int)) {
                Some((c, rest)) => Some((content@ + c, rest)),
                None => None,
            }),
        decreases n - i,
    {
        let c = text[i];
        let ghost here = text@.skip(i as int);
        let ghost before = content@;
        proof {
            assert(here[0] == c);
            assert(here.drop_first() =~= text@.skip(i + 1));
        }
        if c == ',' {
            proof {
                assert(before + Seq::<char>::empty() =~= before);
            }
            return Some((content, i + 1));
        } else if c == '>' {
            return None;
        } else if c == '\\' {
            if i + 1 >= n {
                return None;
            }
            let d = text[i + 1];
            proof {
                assert(here[1] == d);
                assert(here.skip(2) =~= text@.skip(i + 2));
            }
            let plain = if d == '\\' {
                '\\'
            } else if d == 'c' {
                ','
            } else if d == 'g' {
                '>'
            } else {
                return None;
            };
            content.push(plain);
            proof {
                match take_field(text@.skip(i + 2)) {
                    Some((rest_content, rest)) => {
                        assert(content@ + rest_content =~= before + (seq![plain] + rest_content));
                    },
                    None => {},
                }
            }
            i += 2;
        } else {
            content.push(c);
            proof {
                match take_field(text@.skip(i + 1)) {
                    Some((rest_content, rest)) => {
                        assert(content@ + rest_content =~= before + (seq![c] + rest_content));
                    },
                    None => {},
                }
            }
            i += 1;
        }
    }
    proof {
        assert(text@.skip(n as int).len() == 0);
    }
    None
}

/// The number that `s` is the decimal form of, where it fits in 64 bits.
pub open spec fn parse_u64(s: Seq<char>) -> Option<u64> {
    match parse_number(s) {
        Some(n) => if n <= u64::MAX {
            Some(n as u64)
        } else {
            None
        },
        None => None,
    }
}

/// A longer decimal form stands for no smaller number.
proof fn lemma_parse_number_grows(s: Seq<char>, k: int)
    requires
        0 < k <= s.len(),
        parse_number(s) is Some,
    ensures
        parse_number(s.take(k)) is Some,
        parse_number(s.take(k)).unwrap() <= parse_number(s).unwrap(),
    decreases s.len(),
{
    if k == s.len() {
        assert(s.take(k) =~= s);
    } else {
        assert(s.len() >= 2);
        assert(s.drop_last().take(k) =~= s.take(k));
        lemma_parse_number_grows(s.drop_last(), k);
    }
}

/// The value of a decimal digit, if the character is one.
fn digit_value_of(c: char) -> (r: Option<u64>)
    ensures
        match r {
            Some(d) => d < 10 && digit_value(c) == Some(d as nat),
            None => digit_value(c) is None,
        },
{
    if c == '0' {
        Some(0)
    } else if c == '1' {
        Some(1)
    } else if c == '2' {
        Some(2)
    } else if c == '3' {
        Some(3)
    } else if c == '4' {
        Some(4)
    } else if c == '5' {
        Some(5)
    } else if c == '6' {
        Some(6)
    } else if c == '7' {
        Some(7)
    } else if c == '8' {
        Some(8)
    } else if c == '9' {
        Some(9)
    } else {
        None
    }
}

/// Reads a number in decimal form.
pub fn read_number(s: &Vec<char>) -> (r: Option<u64>)
    ensures
        r == parse_u64(s@),
{
    let n = s.len();
    if n == 0 {
        return None;
    }
    if n >= 2 && s[0] == '0' {
        return None;
    }
    let mut value: u64 = 0;
    let mut i: usize = 0;
    while i < n
        invariant
            n == s@.len(),
            n >= 1,
            n >= 2 ==> s@[0] != '0',
            i <= n,
            i == 0 ==> value == 0,
            i > 0 ==> parse_number(s@.take(i as int)) == Some(value as nat),
        decreases n - i,
    {
        let ghost prefix = s@.take(i + 1);
        proof {
            assert(prefix.drop_last() =~= s@.take(i as int));
            assert(prefix.last() == s@[i as int]);
            assert(prefix[0] == s@[0]);
        }
        let d = match digit_value_of(s[i]) {
            Some(d) => d,
            None => {
                proof {
                    assert(parse_number(prefix) is None);
                    if parse_number(s@) is Some {
                        lemma_parse_number_grows(s@, i + 1);
                    }
                }
                return None;
            },
        };
        if value > (u64::MAX - d) / 10 {
            proof {
                assert(parse_number(prefix) == Some((value * 10 + d) as nat));
                assert(value * 10 + d > u64::MAX);
                if parse_number(s@) is Some {
                    lemma_parse_number_grows(s@, i + 1);
                }
            }
            return None;
        }
        value = value * 10 + d;
        i += 1;
    }
    proof {
        assert(s@.take(n as int) =~= s@);
    }
    Some(value)
}

} // verus!
