//! Character-level helpers shared by the display forms and the parser:
//! hex digits and the escaping of strings and byte literals.

use vstd::prelude::*;

verus! {

/// Whether `c` is an ASCII hexadecimal digit.
pub open spec fn is_hex_digit(c: char) -> bool {
    ('0' as u32 <= c as u32 && c as u32 <= '9' as u32) || ('a' as u32 <= c as u32 && c as u32
        <= 'f' as u32) || ('A' as u32 <= c as u32 && c as u32 <= 'F' as u32)
}

/// The numeric value of a hexadecimal digit character.
pub open spec fn hex_digit_val(c: char) -> u8
    recommends
        is_hex_digit(c),
{
    if '0' as u32 <= c as u32 && c as u32 <= '9' as u32 {
        (c as u32 - '0' as u32) as u8
    } else if 'a' as u32 <= c as u32 && c as u32 <= 'f' as u32 {
        (c as u32 - 'a' as u32 + 10) as u8
    } else {
        (c as u32 - 'A' as u32 + 10) as u8
    }
}

/// The lower-case hexadecimal digit character for a value below 16.
pub open spec fn hex_char(n: u8) -> char
    recommends
        n < 16,
{
    if n < 10 {
        ('0' as u32 + n as u32) as char
    } else {
        ('a' as u32 + (n - 10) as u32) as char
    }
}

/// Converts a string containing a single hex digit to that digit.
pub fn convert_hex_digit(s: &str) -> (r: u8)
    requires
        s@.len() == 1,
        is_hex_digit(s@[0]),
    ensures
        r == hex_digit_val(s@[0]),
        r < 16,
{
    let c = s.get_char(0);
    let n = c as u32;
    if 48 <= n && n <= 57 {
        (n - 48) as u8
    } else if 97 <= n && n <= 102 {
        (n - 97 + 10) as u8
    } else {
        (n - 65 + 10) as u8
    }
}

/// The lower-case hexadecimal digit character for a value below 16, as an
/// executable function.
pub fn hex_char_of(n: u8) -> (c: char)
    requires
        n < 16,
    ensures
        c == hex_char(n),
{
    if n < 10 {
        (48 + n) as char
    } else {
        (87 + n) as char
    }
}

/// The big-endian, fixed-width, lower-case hexadecimal digits of `n`.
pub open spec fn hex_digits(n: u32, width: nat) -> Seq<char>
    decreases width,
{
    if width == 0 {
        Seq::empty()
    } else {
        hex_digits(n / 16, (width - 1) as nat).push(hex_char((n % 16) as u8))
    }
}

/// Appends the fixed-width hexadecimal form of `n` to `out`.
pub fn push_hex_digits(out: &mut Vec<char>, n: u32, width: u32)
    ensures
        final(out)@ == old(out)@ + hex_digits(n as u32, width as nat),
    decreases width,
{
    if width == 0 {
        assert(out@ =~= out@ + hex_digits(n as u32, 0));
    } else {
        push_hex_digits(out, n / 16, width - 1);
        let c = hex_char_of((n % 16) as u8);
        out.push(c);
    }
}

/// The escaped display form of a byte inside a bytes literal: `\xHH`.
pub open spec fn escaped_byte(b: u8) -> Seq<char> {
    seq!['\\', 'x'] + hex_digits(b as u32, 2)
}

/// The escaped display forms of a sequence of bytes, concatenated.
pub open spec fn escaped_bytes(bs: Seq<u8>) -> Seq<char>
    decreases bs.len(),
{
    if bs.len() == 0 {
        Seq::empty()
    } else {
        escaped_bytes(bs.drop_last()) + escaped_byte(bs.last())
    }
}

/// The display form of a bytes literal: `b"..."` with every byte escaped.
pub open spec fn bytes_display(bs: Seq<u8>) -> Seq<char> {
    seq!['b', '"'] + escaped_bytes(bs) + seq!['"']
}

/// The escaped display form of a single character inside a string literal.
pub open spec fn escaped_char(c: char) -> Seq<char> {
    if c == '\n' {
        seq!['\\', 'n']
    } else if c == '\r' {
        seq!['\\', 'r']
    } else if c == '\t' {
        seq!['\\', 't']
    } else if c == '\\' {
        seq!['\\', '\\']
    } else if c == '"' {
        seq!['\\', '"']
    } else if 0x20 <= c as u32 && (c as u32) < 0x7f {
        seq![c]
    } else if c as u32 <= 0xff {
        seq!['\\', 'x'] + hex_digits(c as u32, 2)
    } else if c as u32 <= 0xffff {
        seq!['\\', 'u'] + hex_digits(c as u32, 4)
    } else {
        seq!['\\', 'U'] + hex_digits(c as u32, 8)
    }
}

/// The escaped display forms of a sequence of characters, concatenated.
pub open spec fn escaped_chars(s: Seq<char>) -> Seq<char>
    decreases s.len(),
{
    if s.len() == 0 {
        Seq::empty()
    } else {
        escaped_chars(s.drop_last()) + escaped_char(s.last())
    }
}

/// The display form of a string literal: `"..."` with escapes applied.
pub open spec fn str_display(s: Seq<char>) -> Seq<char> {
    seq!['"'] + escaped_chars(s) + seq!['"']
}

/// The decimal digit character for a value below 10.
pub open spec fn dec_char(d: int) -> char
    recommends
        0 <= d < 10,
{
    ('0' as u32 + d as u32) as char
}

/// The decimal digits of a natural number, most significant first.
pub open spec fn dec_digits(n: nat) -> Seq<char>
    decreases n,
{
    if n < 10 {
        seq![dec_char(n as int)]
    } else {
        dec_digits(n / 10).push(dec_char((n % 10) as int))
    }
}

/// The decimal display form of an integer, with a leading `-` when negative.
pub open spec fn int_display(n: int) -> Seq<char> {
    if n >= 0 {
        dec_digits(n as nat)
    } else {
        seq!['-'] + dec_digits((-n) as nat)
    }
}

/// Appends the decimal form of `n` to `out`.
pub fn push_u64_dec(out: &mut Vec<char>, n: u64)
    ensures
        final(out)@ == old(out)@ + dec_digits(n as nat),
    decreases n,
{
    if n < 10 {
        let c = (48 + (n as u8)) as char;
        assert(c == dec_char(n as int));
        out.push(c);
        assert(out@ =~= old(out)@ + dec_digits(n as nat));
    } else {
        push_u64_dec(out, n / 10);
        let c = (48 + ((n % 10) as u8)) as char;
        assert(c == dec_char((n as nat % 10) as int));
        out.push(c);
        assert(out@ =~= old(out)@ + dec_digits(n as nat));
    }
}

/// Appends the decimal form of a signed integer to `out`.
pub fn push_i64_dec(out: &mut Vec<char>, n: i64)
    ensures
        final(out)@ == old(out)@ + int_display(n as int),
{
    if n >= 0 {
        push_u64_dec(out, n as u64);
    } else {
        out.push('-');
        let m: u64 = ((-(n + 1)) as u64) + 1;
        assert(m as nat == (-(n as int)) as nat);
        push_u64_dec(out, m);
        assert(out@ =~= old(out)@ + int_display(n as int));
    }
}

/// The characters of the fresh-name prefix.
pub proof fn lemma_gensym_prefix()
    ensures
        "gensym@"@ =~= seq!['g', 'e', 'n', 's', 'y', 'm', '@'],
{
    reveal_strlit("gensym@");
}

/// Relies on `String::from_iter` over chars: the resulting string holds
/// exactly the characters of the vector, in order.
#[verifier::external_body]
pub fn chars_to_string(v: Vec<char>) -> (r: String)
    ensures
        r@ == v@,
{
    v.into_iter().collect()
}

proof fn lemma_escaped_bytes_snoc(bs: Seq<u8>, b: u8)
    ensures
        escaped_bytes(bs.push(b)) == escaped_bytes(bs) + escaped_byte(b),
{
    assert(bs.push(b).drop_last() =~= bs);
}

/// Appends the escaped form of each byte of `bs` to `out`.
pub fn push_escaped_bytes(out: &mut Vec<char>, bs: &[u8])
    ensures
        final(out)@ == old(out)@ + escaped_bytes(bs@),
{
    let mut i: usize = 0;
    assert(out@ =~= old(out)@ + escaped_bytes(bs@.take(0)));
    while i < bs.len()
        invariant
            i <= bs@.len(),
            out@ == old(out)@ + escaped_bytes(bs@.take(i as int)),
        decreases bs@.len() - i,
    {
        out.push('\\');
        out.push('x');
        push_hex_digits(out, bs[i] as u32, 2);
        proof {
            lemma_escaped_bytes_snoc(bs@.take(i as int), bs@[i as int]);
            assert(bs@.take(i + 1) =~= bs@.take(i as int).push(bs@[i as int]));
            assert(out@ =~= old(out)@ + escaped_bytes(bs@.take(i + 1)));
        }
        i = i + 1;
    }
    assert(bs@.take(bs@.len() as int) =~= bs@);
}

/// Writes an escaped bytes literal, as a string.
pub fn escape_bytes(bs: &[u8]) -> (r: String)
    ensures
        r@ == bytes_display(bs@),
{
    let mut out: Vec<char> = Vec::new();
    out.push('b');
    out.push('"');
    push_escaped_bytes(&mut out, bs);
    out.push('"');
    proof {
        assert(out@ =~= bytes_display(bs@));
    }
    chars_to_string(out)
}

proof fn lemma_escaped_chars_snoc(s: Seq<char>, c: char)
    ensures
        escaped_chars(s.push(c)) == escaped_chars(s) + escaped_char(c),
{
    assert(s.push(c).drop_last() =~= s);
}

/// Appends the escaped form of a single character to `out`.
pub fn push_escaped_char(out: &mut Vec<char>, c: char)
    ensures
        final(out)@ == old(out)@ + escaped_char(c),
{
    let n = c as u32;
    if c == '\n' {
        out.push('\\');
        out.push('n');
    } else if c == '\r' {
        out.push('\\');
        out.push('r');
    } else if c == '\t' {
        out.push('\\');
        out.push('t');
    } else if c == '\\' {
        out.push('\\');
        out.push('\\');
    } else if c == '"' {
        out.push('\\');
        out.push('"');
    } else if 0x20 <= n && n < 0x7f {
        out.push(c);
    } else if n <= 0xff {
        out.push('\\');
        out.push('x');
        push_hex_digits(out, n, 2);
    } else if n <= 0xffff {
        out.push('\\');
        out.push('u');
        push_hex_digits(out, n, 4);
    } else {
        out.push('\\');
        out.push('U');
        push_hex_digits(out, n, 8);
    }
    assert(out@ =~= old(out)@ + escaped_char(c));
}

/// Appends the escaped form of each character of `s` to `out`.
pub fn push_escaped_chars(out: &mut Vec<char>, s: &str)
    ensures
        final(out)@ == old(out)@ + escaped_chars(s@),
{
    let len = s.unicode_len();
    let mut i: usize = 0;
    assert(out@ =~= old(out)@ + escaped_chars(s@.take(0)));
    while i < len
        invariant
            len == s@.len(),
            i <= len,
            out@ == old(out)@ + escaped_chars(s@.take(i as int)),
        decreases len - i,
    {
        let c = s.get_char(i);
        push_escaped_char(out, c);
        proof {
            lemma_escaped_chars_snoc(s@.take(i as int), s@[i as int]);
            assert(s@.take(i + 1) =~= s@.take(i as int).push(s@[i as int]));
            assert(out@ =~= old(out)@ + escaped_chars(s@.take(i + 1)));
        }
        i = i + 1;
    }
    assert(s@.take(s@.len() as int) =~= s@);
}

/// Writes an escaped string literal, as a string.
pub fn escape_str(s: &str) -> (r: String)
    ensures
        r@ == str_display(s@),
{
    let mut out: Vec<char> = Vec::new();
    out.push('"');
    push_escaped_chars(&mut out, s);
    out.push('"');
    proof {
        assert(out@ =~= str_display(s@));
    }
    chars_to_string(out)
}

} // verus!
