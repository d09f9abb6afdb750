//! Text helpers: decimal formatting and character-level string operations.

use vstd::prelude::*;

verus! {

/// `String::push` appends one character at the end of the string.
pub assume_specification[ String::push ](s: &mut String, ch: char)
    ensures
        final(s)@ == old(s)@.push(ch),
;

/// The ASCII character of a decimal digit.
pub open spec fn digit_char(d: nat) -> char
    recommends
        d < 10,
{
    (48 + d) as char
}

/// The decimal representation of a natural number, without leading zeros.
pub open spec fn decimal(n: nat) -> Seq<char>
    decreases n,
{
    if n < 10 {
        seq![digit_char(n)]
    } else {
        decimal(n / 10).push(digit_char(n % 10))
    }
}

/// The decimal representation of an integer, with a leading `-` when negative.
pub open spec fn signed_decimal(n: int) -> Seq<char> {
    if n < 0 {
        seq!['-'] + decimal((-n) as nat)
    } else {
        decimal(n as nat)
    }
}

/// Appends the decimal representation of `n` to `s`.
pub fn push_decimal(s: &mut String, n: u64)
    ensures
        final(s)@ == old(s)@ + decimal(n as nat),
    decreases n,
{
    if n >= 10 {
        push_decimal(s, n / 10);
    }
    let d: u8 = (n % 10) as u8;
    let c: char = (48u8 + d) as char;
    s.push(c);
    proof {
        assert(c == digit_char((n % 10) as nat));
    }
}


/// Appends the decimal representation of a signed integer to `s`.
pub fn push_signed_decimal(s: &mut String, n: i64)
    ensures
        final(s)@ == old(s)@ + signed_decimal(n as int),
{
    if n < 0 {
        s.push('-');
        let m: u64 = (0i128 - (n as i128)) as u64;
        push_decimal(s, m);
        assert(s@ =~= old(s)@ + (seq!['-'] + decimal((-n) as nat)));
    } else {
        push_decimal(s, n as u64);
    }
}

/// A new string holding the characters of `s`.
pub fn owned(s: &str) -> (r: String)
    ensures
        r@ == s@,
{
    s.to_owned()
}

/// Appends the characters of `t` to `s`.
pub fn push_str(s: &mut String, t: &str)
    ensures
        final(s)@ == old(s)@ + t@,
{
    s.append(t);
}

/// Whether `prefix` is a prefix of `s`, character by character.
pub fn str_starts_with(s: &str, prefix: &str) -> (r: bool)
    ensures
        r == prefix@.is_prefix_of(s@),
{
    let n = prefix.unicode_len();
    let m = s.unicode_len();
    if n > m {
        return false;
    }
    let mut i: usize = 0;
    while i < n
        invariant
            n == prefix@.len(),
            m == s@.len(),
            n <= m,
            i <= n,
            forall|j: int| 0 <= j < i ==> prefix@[j] == s@[j],
        decreases n - i,
    {
        if prefix.get_char(i) != s.get_char(i) {
            return false;
        }
        i = i + 1;
    }
    true
}

/// Whether two strings hold the same characters.
pub fn str_equal(a: &str, b: &str) -> (r: bool)
    ensures
        r == (a@ == b@),
{
    let n = a.unicode_len();
    if n != b.unicode_len() {
        return false;
    }
    let r = str_starts_with(a, b);
    proof {
        if r {
            assert(a@ =~= b@);
        }
    }
    r
}

/// The characters of `s` from position `from` on.
pub fn str_suffix(s: &str, from: usize) -> (r: &str)
    requires
        from <= s@.len(),
    ensures
        r@ == s@.skip(from as int),
{
    let n = s.unicode_len();
    s.substring_char(from, n)
}

/// The strings of `parts` joined with `sep` between consecutive parts.
pub open spec fn join(parts: Seq<Seq<char>>, sep: Seq<char>) -> Seq<char>
    decreases parts.len(),
{
    if parts.len() == 0 {
        Seq::empty()
    } else if parts.len() == 1 {
        parts[0]
    } else {
        join(parts.drop_last(), sep) + sep + parts.last()
    }
}

/// The views of a sequence of strings.
pub open spec fn string_views(v: Seq<String>) -> Seq<Seq<char>> {
    v.map_values(|s: String| s@)
}

/// Joins the strings of `parts` with `sep` between consecutive parts.
pub fn join_strings(parts: &Vec<String>, sep: &str) -> (r: String)
    ensures
        r@ == join(string_views(parts@), sep@),
{
    let mut r = String::new();
    let mut i: usize = 0;
    while i < parts.len()
        invariant
            i <= parts@.len(),
            r@ == join(string_views(parts@).take(i as int), sep@),
        decreases parts@.len() - i,
    {
        proof {
            assert(string_views(parts@).take(i + 1).drop_last() =~= string_views(parts@).take(i as int));
        }
        if i > 0 {
            push_str(&mut r, sep);
        }
        push_str(&mut r, parts[i].as_str());
        proof {
            if i == 0 {
                assert(r@ =~= join(string_views(parts@).take(1), sep@));
            }
        }
        i = i + 1;
    }
    proof {
        assert(string_views(parts@).take(parts@.len() as int) =~= string_views(parts@));
    }
    r
}


/// Rust's `Debug` rendering of a byte sequence: `[1, 2, 3]`.
pub open spec fn debug_bytes(b: Seq<u8>) -> Seq<char> {
    "["@ + join(b.map_values(|x: u8| decimal(x as nat)), ", "@) + "]"@
}

/// Appends the `Debug` rendering of the bytes `b` to `s`.
pub fn push_debug_bytes(s: &mut String, b: &[u8])
    ensures
        final(s)@ == old(s)@ + debug_bytes(b@),
{
    let ghost start = s@;
    let ghost items = b@.map_values(|x: u8| decimal(x as nat));
    push_str(s, "[");
    let mut i: usize = 0;
    while i < b.len()
        invariant
            i <= b@.len(),
            items == b@.map_values(|x: u8| decimal(x as nat)),
            s@ == start + "["@ + join(items.take(i as int), ", "@),
        decreases b@.len() - i,
    {
        proof {
            assert(items.take(i + 1).drop_last() =~= items.take(i as int));
        }
        if i > 0 {
            push_str(s, ", ");
        }
        push_decimal(s, b[i] as u64);
        proof {
            if i == 0 {
                assert(join(items.take(1), ", "@) =~= items[0]);
            }
            assert(s@ =~= start + "["@ + join(items.take(i + 1), ", "@));
        }
        i = i + 1;
    }
    proof {
        assert(items.take(b@.len() as int) =~= items);
    }
    push_str(s, "]");
    assert(s@ =~= start + debug_bytes(b@));
}

/// The lower-case hexadecimal digit of `d`.
pub open spec fn hex_lower(d: nat) -> char {
    if d < 10 {
        (48 + d) as char
    } else {
        (87 + d) as char
    }
}

/// The upper-case hexadecimal digit of `d`.
pub open spec fn hex_upper(d: nat) -> char {
    if d < 10 {
        (48 + d) as char
    } else {
        (55 + d) as char
    }
}

/// Two lower-case hexadecimal digits of a byte, as `{:02x}` prints it.
pub open spec fn hex2(x: u8) -> Seq<char> {
    seq![hex_lower((x / 16) as nat), hex_lower((x % 16) as nat)]
}

/// Rust's `{:02x?}` rendering of a byte sequence: `[0a, ff]`.
pub open spec fn debug_hex_bytes(b: Seq<u8>) -> Seq<char> {
    "["@ + join(b.map_values(|x: u8| hex2(x)), ", "@) + "]"@
}

fn hex_digit_lower(d: u8) -> (c: char)
    requires
        d < 16,
    ensures
        c == hex_lower(d as nat),
{
    if d < 10 {
        (48u8 + d) as char
    } else {
        (87u8 + d) as char
    }
}

/// The upper-case hexadecimal digit of `d`.
pub fn hex_digit_upper(d: u8) -> (c: char)
    requires
        d < 16,
    ensures
        c == hex_upper(d as nat),
{
    if d < 10 {
        (48u8 + d) as char
    } else {
        (55u8 + d) as char
    }
}

/// Appends the `{:02x?}` rendering of the bytes `b` to `s`.
pub fn push_debug_hex_bytes(s: &mut String, b: &[u8])
    ensures
        final(s)@ == old(s)@ + debug_hex_bytes(b@),
{
    let ghost start = s@;
    let ghost items = b@.map_values(|x: u8| hex2(x));
    push_str(s, "[");
    let mut i: usize = 0;
    while i < b.len()
        invariant
            i <= b@.len(),
            items == b@.map_values(|x: u8| hex2(x)),
            s@ == start + "["@ + join(items.take(i as int), ", "@),
        decreases b@.len() - i,
    {
        proof {
            assert(items.take(i + 1).drop_last() =~= items.take(i as int));
        }
        if i > 0 {
            push_str(s, ", ");
        }
        let x = b[i];
        s.push(hex_digit_lower(x / 16));
        s.push(hex_digit_lower(x % 16));
        proof {
            assert(items[i as int] =~= hex2(x));
            if i == 0 {
                assert(join(items.take(1), ", "@) =~= items[0]);
            }
            assert(s@ =~= start + "["@ + join(items.take(i + 1), ", "@));
        }
        i = i + 1;
    }
    proof {
        assert(items.take(b@.len() as int) =~= items);
    }
    push_str(s, "]");
    assert(s@ =~= start + debug_hex_bytes(b@));
}

} // verus!
