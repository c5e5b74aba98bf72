//! Verified text building: decimal number formatting and JSON string
//! escaping, the pieces the snapshot serializer and the chat messages
//! are assembled from.
use vstd::prelude::*;
use vstd::string::StrSliceExecFns;
use vstd::string::StringExecFns;

verus! {

/// The decimal digit character for `d` in `0..10`.
pub open spec fn digit_char(d: int) -> char {
    if d == 0 {
        '0'
    } else if d == 1 {
        '1'
    } else if d == 2 {
        '2'
    } else if d == 3 {
        '3'
    } else if d == 4 {
        '4'
    } else if d == 5 {
        '5'
    } else if d == 6 {
        '6'
    } else if d == 7 {
        '7'
    } else if d == 8 {
        '8'
    } else {
        '9'
    }
}

/// The lower-case hexadecimal digit character for `d` in `0..16`.
pub open spec fn hex_char(d: int) -> char {
    if d < 10 {
        digit_char(d)
    } else if d == 10 {
        'a'
    } else if d == 11 {
        'b'
    } else if d == 12 {
        'c'
    } else if d == 13 {
        'd'
    } else if d == 14 {
        'e'
    } else {
        'f'
    }
}

/// The decimal digits of `n`, most significant first.
pub open spec fn spec_dec(n: nat) -> Seq<char>
    decreases n,
{
    if n < 10 {
        seq![digit_char(n as int)]
    } else {
        spec_dec(n / 10) + seq![digit_char((n % 10) as int)]
    }
}

/// The decimal form of a signed value, with a leading minus sign when it
/// is negative.
pub open spec fn spec_dec_int(n: int) -> Seq<char> {
    if n < 0 {
        seq!['-'] + spec_dec((-n) as nat)
    } else {
        spec_dec(n as nat)
    }
}

/// The JSON escape of one character: quote, backslash and the named
/// control characters get a backslash form, other control characters a
/// `\u00..` form, everything else stands for itself.
pub open spec fn esc_char(c: char) -> Seq<char> {
    if c == '"' {
        seq!['\\', '"']
    } else if c == '\\' {
        seq!['\\', '\\']
    } else if c == '\n' {
        seq!['\\', 'n']
    } else if c == '\r' {
        seq!['\\', 'r']
    } else if c == '\t' {
        seq!['\\', 't']
    } else if (c as u32) < 32 {
        seq!['\\', 'u', '0', '0', hex_char((c as u32 / 16) as int), hex_char((c as u32 % 16) as int)]
    } else {
        seq![c]
    }
}

/// The JSON escape of a whole string.
pub open spec fn spec_escaped(s: Seq<char>) -> Seq<char>
    decreases s.len(),
{
    if s.len() == 0 {
        Seq::empty()
    } else {
        spec_escaped(s.drop_last()) + esc_char(s.last())
    }
}

/// Relies on `String::push`: appends exactly one character.
#[verifier::external_body]
fn push_char(s: &mut String, c: char)
    ensures
        final(s)@ == old(s)@ + seq![c],
{
    s.push(c);
}

fn digit_of(d: u64) -> (r: char)
    requires
        d < 10,
    ensures
        r == digit_char(d as int),
{
    match d {
        0 => '0',
        1 => '1',
        2 => '2',
        3 => '3',
        4 => '4',
        5 => '5',
        6 => '6',
        7 => '7',
        8 => '8',
        _ => '9',
    }
}

fn hex_of(d: u32) -> (r: char)
    requires
        d < 16,
    ensures
        r == hex_char(d as int),
{
    match d {
        0 => '0',
        1 => '1',
        2 => '2',
        3 => '3',
        4 => '4',
        5 => '5',
        6 => '6',
        7 => '7',
        8 => '8',
        9 => '9',
        10 => 'a',
        11 => 'b',
        12 => 'c',
        13 => 'd',
        14 => 'e',
        _ => 'f',
    }
}

/// The decimal form of an unsigned value.
pub fn u64_to_dec(n: u64) -> (s: String)
    ensures
        s@ == spec_dec(n as nat),
    decreases n,
{
    if n < 10 {
        let mut s = String::new();
        push_char(&mut s, digit_of(n));
        proof {
            assert(s@ =~= spec_dec(n as nat));
        }
        s
    } else {
        let mut s = u64_to_dec(n / 10);
        push_char(&mut s, digit_of(n % 10));
        s
    }
}

/// The decimal form of a signed value.
pub fn i64_to_dec(n: i64) -> (s: String)
    ensures
        s@ == spec_dec_int(n as int),
{
    if n < 0 {
        let mag: u64 = if n == i64::MIN {
            9223372036854775808u64
        } else {
            (-n) as u64
        };
        let mut s = String::new();
        push_char(&mut s, '-');
        proof {
            assert(s@ =~= seq!['-']);
        }
        let digits = u64_to_dec(mag);
        s.append(digits.as_str());
        s
    } else {
        u64_to_dec(n as u64)
    }
}

/// JSON-escape a string.
pub fn escape_json(s: &str) -> (r: String)
    ensures
        r@ == spec_escaped(s@),
{
    let n = s.unicode_len();
    let mut out = String::new();
    let mut i: usize = 0;
    proof {
        assert(s@.take(0) =~= Seq::<char>::empty());
    }
    while i < n
        invariant
            n == s@.len(),
            i <= n,
            out@ == spec_escaped(s@.take(i as int)),
        decreases n - i,
    {
        let c = s.get_char(i);
        proof {
            assert(s@.take(i as int + 1).drop_last() =~= s@.take(i as int));
            assert(s@.take(i as int + 1).last() == s@[i as int]);
        }
        if c == '"' {
            push_char(&mut out, '\\');
            push_char(&mut out, '"');
            proof {
                assert(out@ =~= spec_escaped(s@.take(i as int + 1)));
            }
        } else if c == '\\' {
            push_char(&mut out, '\\');
            push_char(&mut out, '\\');
            proof {
                assert(out@ =~= spec_escaped(s@.take(i as int + 1)));
            }
        } else if c == '\n' {
            push_char(&mut out, '\\');
            push_char(&mut out, 'n');
            proof {
                assert(out@ =~= spec_escaped(s@.take(i as int + 1)));
            }
        } else if c == '\r' {
            push_char(&mut out, '\\');
            push_char(&mut out, 'r');
            proof {
                assert(out@ =~= spec_escaped(s@.take(i as int + 1)));
            }
        } else if c == '\t' {
            push_char(&mut out, '\\');
            push_char(&mut out, 't');
            proof {
                assert(out@ =~= spec_escaped(s@.take(i as int + 1)));
            }
        } else if (c as u32) < 32 {
            let d = c as u32;
            push_char(&mut out, '\\');
            push_char(&mut out, 'u');
            push_char(&mut out, '0');
            push_char(&mut out, '0');
            push_char(&mut out, hex_of(d / 16));
            push_char(&mut out, hex_of(d % 16));
            proof {
                assert(out@ =~= spec_escaped(s@.take(i as int + 1)));
            }
        } else {
            push_char(&mut out, c);
            proof {
                assert(out@ =~= spec_escaped(s@.take(i as int + 1)));
            }
        }
        i += 1;
    }
    proof {
        assert(s@.take(n as int) =~= s@);
    }
    out
}

} // verus!
