//! Text helpers: comparison, hexadecimal and decimal rendering, trimming.

use vstd::prelude::*;
use vstd::string::*;
use vstd::utf8::*;

verus! {

/// `String::push` appends one character.
pub assume_specification[ String::push ](s: &mut String, c: char)
    ensures
        final(s)@ == old(s)@.push(c),
;

/// `String::push_str` appends a text.
pub assume_specification[ String::push_str ](s: &mut String, t: &str)
    ensures
        final(s)@ == old(s)@ + t@,
;

/// One text behind another.
pub fn joined(a: &str, b: &str) -> (r: String)
    ensures
        r@ == a@ + b@,
{
    let mut out: String = a.to_owned();
    out.push_str(b);
    out
}

/// Whether two strings hold the same text.
pub fn same_text(a: &str, b: &str) -> (r: bool)
    ensures
        r == (a@ == b@),
{
    let x = a.as_bytes();
    let y = b.as_bytes();
    proof {
        encode_utf8_decode_utf8(a@);
        encode_utf8_decode_utf8(b@);
    }
    if x.len() != y.len() {
        return false;
    }
    let mut i: usize = 0;
    while i < x.len()
        invariant
            i <= x.len(),
            x.len() == y.len(),
            x@ == a.spec_bytes(),
            y@ == b.spec_bytes(),
            forall|k: int| 0 <= k < i ==> x@[k] == y@[k],
        decreases x.len() - i,
    {
        if x[i] != y[i] {
            return false;
        }
        i = i + 1;
    }
    assert(x@ =~= y@);
    true
}

/// Whether two byte strings are the same.
pub fn same_bytes(a: &[u8], b: &[u8]) -> (r: bool)
    ensures
        r == (a@ == b@),
{
    if a.len() != b.len() {
        return false;
    }
    let mut i: usize = 0;
    while i < a.len()
        invariant
            i <= a.len(),
            a.len() == b.len(),
            forall|k: int| 0 <= k < i ==> a@[k] == b@[k],
        decreases a.len() - i,
    {
        if a[i] != b[i] {
            return false;
        }
        i = i + 1;
    }
    assert(a@ =~= b@);
    true
}

/// The characters of a string, in order.
pub fn chars_of(s: &str) -> (r: Vec<char>)
    ensures
        r@ == s@,
{
    let mut out: Vec<char> = Vec::new();
    for c in it: s.chars()
        invariant
            it.seq() == s@,
            out@ == s@.take(it.index()),
    {
        proof {
            assert(s@.take(it.index() + 1) =~= s@.take(it.index()).push(s@[it.index()]));
        }
        out.push(c);
    }
    assert(s@.take(s@.len() as int) =~= s@);
    out
}

/// The string made of the given characters.
pub fn text_of(chars: &[char]) -> (r: String)
    ensures
        r@ == chars@,
{
    let mut out: String = String::new();
    let mut i: usize = 0;
    while i < chars.len()
        invariant
            i <= chars.len(),
            out@ == chars@.take(i as int),
        decreases chars.len() - i,
    {
        proof {
            assert(chars@.take(i + 1) =~= chars@.take(i as int).push(chars@[i as int]));
        }
        out.push(chars[i]);
        i = i + 1;
    }
    assert(chars@.take(chars@.len() as int) =~= chars@);
    out
}

// ---------------------------------------------------------------- hexadecimal

/// The lowercase hexadecimal digit for a nibble.
pub open spec fn hex_digit(n: int) -> char {
    if n < 10 {
        (('0' as int) + n) as char
    } else {
        (('a' as int) + n - 10) as char
    }
}

/// Two lowercase hexadecimal digits per byte, high nibble first.
pub open spec fn hex_of(bytes: Seq<u8>) -> Seq<char>
    decreases bytes.len(),
{
    if bytes.len() == 0 {
        Seq::empty()
    } else {
        hex_of(bytes.drop_last()).push(hex_digit(bytes.last() as int / 16)).push(
            hex_digit(bytes.last() as int % 16),
        )
    }
}

fn hex_char(n: u8) -> (c: char)
    requires
        n < 16,
    ensures
        c == hex_digit(n as int),
{
    if n < 10 {
        (48 + n) as char
    } else {
        (87 + n) as char
    }
}

/// Lowercase hexadecimal, two digits per byte.
pub fn hex_encode(bytes: &[u8]) -> (r: String)
    ensures
        r@ == hex_of(bytes@),
{
    let mut out: String = String::new();
    let mut i: usize = 0;
    while i < bytes.len()
        invariant
            i <= bytes.len(),
            out@ == hex_of(bytes@.take(i as int)),
        decreases bytes.len() - i,
    {
        proof {
            assert(bytes@.take(i + 1).drop_last() =~= bytes@.take(i as int));
        }
        let b: u8 = bytes[i];
        out.push(hex_char(b / 16));
        out.push(hex_char(b % 16));
        i = i + 1;
    }
    assert(bytes@.take(bytes@.len() as int) =~= bytes@);
    out
}

/// Two digits come out for every byte that goes in.
pub proof fn hex_doubles_the_length(bytes: Seq<u8>)
    ensures
        hex_of(bytes).len() == 2 * bytes.len(),
    decreases bytes.len(),
{
    if bytes.len() > 0 {
        hex_doubles_the_length(bytes.drop_last());
    }
}

/// Different bytes give different digits: nothing is lost in hexadecimal.
pub proof fn hex_is_injective(a: Seq<u8>, b: Seq<u8>)
    requires
        hex_of(a) == hex_of(b),
    ensures
        a == b,
    decreases a.len(),
{
    hex_doubles_the_length(a);
    hex_doubles_the_length(b);
    if a.len() == 0 {
        assert(a =~= b);
    } else {
        let n = hex_of(a).len() as int;
        let pa = hex_of(a.drop_last());
        let pb = hex_of(b.drop_last());
        hex_doubles_the_length(a.drop_last());
        hex_doubles_the_length(b.drop_last());
        assert(hex_of(a).take(n - 2) =~= pa);
        assert(hex_of(b).take(n - 2) =~= pb);
        hex_is_injective(a.drop_last(), b.drop_last());
        assert(hex_of(a)[n - 1] == hex_digit(a.last() as int % 16));
        assert(hex_of(a)[n - 2] == hex_digit(a.last() as int / 16));
        assert(hex_of(b)[n - 1] == hex_digit(b.last() as int % 16));
        assert(hex_of(b)[n - 2] == hex_digit(b.last() as int / 16));
        assert(a.last() == b.last());
        assert(a =~= a.drop_last().push(a.last()));
        assert(b =~= b.drop_last().push(b.last()));
    }
}

// -------------------------------------------------------------------- decimal

/// The decimal digit for a number below ten.
pub open spec fn digit(n: int) -> char {
    (('0' as int) + n) as char
}

/// A number in decimal, without leading zeros.
pub open spec fn decimal_of(n: nat) -> Seq<char>
    decreases n,
{
    if n < 10 {
        seq![digit(n as int)]
    } else {
        decimal_of(n / 10).push(digit(n as int % 10))
    }
}

/// A number in decimal with a comma between groups of three digits.
pub open spec fn thousands_of(n: nat) -> Seq<char>
    decreases n,
{
    if n < 1000 {
        decimal_of(n)
    } else {
        thousands_of(n / 1000) + seq![
            ',',
            digit(n as int / 100 % 10),
            digit(n as int / 10 % 10),
            digit(n as int % 10),
        ]
    }
}

fn digit_char(n: u64) -> (c: char)
    requires
        n < 10,
    ensures
        c == digit(n as int),
{
    (48 + n as u8) as char
}

/// The decimal form of `n`, as `n.to_string()` writes it.
pub fn decimal(n: u64) -> (r: String)
    ensures
        r@ == decimal_of(n as nat),
    decreases n,
{
    if n < 10 {
        let mut out: String = String::new();
        out.push(digit_char(n));
        assert(out@ =~= seq![digit(n as int)]);
        out
    } else {
        let mut out: String = decimal(n / 10);
        out.push(digit_char(n % 10));
        out
    }
}

/// A number in decimal, with its sign where negative.
pub open spec fn signed_of(n: int) -> Seq<char> {
    if n < 0 {
        "-"@ + decimal_of((-n) as nat)
    } else {
        decimal_of(n as nat)
    }
}

/// A number in decimal, with its sign where negative.
pub fn signed(n: i64) -> (r: String)
    ensures
        r@ == signed_of(n as int),
{
    if n < 0 {
        joined("-", decimal((-(n as i128)) as u64).as_str())
    } else {
        decimal(n as u64)
    }
}

/// The decimal form of `n` with comma thousands separators, for example
/// 6000000 as "6,000,000".
pub fn format_with_thousands(n: u64) -> (r: String)
    ensures
        r@ == thousands_of(n as nat),
    decreases n,
{
    if n < 1000 {
        decimal(n)
    } else {
        let mut out: String = format_with_thousands(n / 1000);
        let ghost head = out@;
        out.push(',');
        out.push(digit_char(n / 100 % 10));
        out.push(digit_char(n / 10 % 10));
        out.push(digit_char(n % 10));
        assert(out@ =~= head + seq![
            ',',
            digit(n as int / 100 % 10),
            digit(n as int / 10 % 10),
            digit(n as int % 10),
        ]);
        out
    }
}

/// The text without its commas.
pub open spec fn without_commas(s: Seq<char>) -> Seq<char>
    decreases s.len(),
{
    if s.len() == 0 {
        Seq::empty()
    } else if s.last() == ',' {
        without_commas(s.drop_last())
    } else {
        without_commas(s.drop_last()).push(s.last())
    }
}

proof fn decimal_has_no_comma(n: nat)
    ensures
        without_commas(decimal_of(n)) == decimal_of(n),
    decreases n,
{
    if n < 10 {
        let s = decimal_of(n);
        assert(s.drop_last() =~= Seq::empty());
        assert(s.last() != ',');
        assert(without_commas(s.drop_last()) =~= Seq::empty());
        assert(without_commas(s) =~= s);
    } else {
        decimal_has_no_comma(n / 10);
        let s = decimal_of(n);
        assert(s.drop_last() =~= decimal_of(n / 10));
        assert(s.last() != ',');
    }
}

/// The separators only punctuate: take the commas away and the plain decimal
/// form is left.
pub proof fn thousands_only_add_commas(n: nat)
    ensures
        without_commas(thousands_of(n)) == decimal_of(n),
    decreases n,
{
    if n < 1000 {
        decimal_has_no_comma(n);
    } else {
        thousands_only_add_commas(n / 1000);
        let head = thousands_of(n / 1000);
        let a = digit(n as int / 100 % 10);
        let b = digit(n as int / 10 % 10);
        let c = digit(n as int % 10);
        let s1 = head.push(',');
        let s2 = s1.push(a);
        let s3 = s2.push(b);
        let s4 = s3.push(c);
        assert(thousands_of(n) =~= s4);
        assert(s4.drop_last() =~= s3 && s3.drop_last() =~= s2 && s2.drop_last() =~= s1
            && s1.drop_last() =~= head);
        assert(a != ',' && b != ',' && c != ',');
        assert(without_commas(s1) == decimal_of(n / 1000));
        assert(without_commas(s2) == decimal_of(n / 1000).push(a));
        assert(without_commas(s3) == decimal_of(n / 1000).push(a).push(b));
        assert(without_commas(s4) == decimal_of(n / 1000).push(a).push(b).push(c));
        assert((n / 10) / 10 == n / 100 && (n / 100) / 10 == n / 1000);
        assert(decimal_of(n / 100) == decimal_of(n / 1000).push(a));
        assert(decimal_of(n / 10) == decimal_of(n / 100).push(b));
    }
}

// ----------------------------------------------------------- case and trimming

/// One character with ASCII capitals brought to lower case.
pub open spec fn ascii_lower(c: char) -> char {
    if 'A' <= c <= 'Z' {
        ((c as int) + 32) as char
    } else {
        c
    }
}

/// The text with its ASCII capitals brought to lower case.
pub fn to_ascii_lower(s: &str) -> (r: String)
    ensures
        r@ == s@.map_values(|c: char| ascii_lower(c)),
{
    let chars = chars_of(s);
    let mut out: String = String::new();
    let mut i: usize = 0;
    while i < chars.len()
        invariant
            i <= chars.len(),
            chars@ == s@,
            out@ == s@.take(i as int).map_values(|c: char| ascii_lower(c)),
        decreases chars.len() - i,
    {
        let c: char = chars[i];
        let lowered: char = if 'A' <= c && c <= 'Z' {
            ((c as u8) + 32) as char
        } else {
            c
        };
        out.push(lowered);
        proof {
            assert(s@.take(i + 1).map_values(|c: char| ascii_lower(c)) =~= s@.take(
                i as int,
            ).map_values(|c: char| ascii_lower(c)).push(ascii_lower(c)));
        }
        i = i + 1;
    }
    assert(s@.take(s@.len() as int) =~= s@);
    out
}

/// The characters with the Unicode property White_Space.
pub open spec fn is_white_space(c: char) -> bool {
    let n = c as u32;
    ||| 0x9 <= n <= 0xD
    ||| n == 0x20
    ||| n == 0x85
    ||| n == 0xA0
    ||| n == 0x1680
    ||| 0x2000 <= n <= 0x200A
    ||| n == 0x2028
    ||| n == 0x2029
    ||| n == 0x202F
    ||| n == 0x205F
    ||| n == 0x3000
}

/// The text without white space at its end.
pub open spec fn trimmed_end(s: Seq<char>) -> Seq<char>
    decreases s.len(),
{
    if s.len() > 0 && is_white_space(s.last()) {
        trimmed_end(s.drop_last())
    } else {
        s
    }
}

/// The text without white space at its start.
pub open spec fn trimmed_start(s: Seq<char>) -> Seq<char>
    decreases s.len(),
{
    if s.len() > 0 && is_white_space(s[0]) {
        trimmed_start(s.drop_first())
    } else {
        s
    }
}

/// The text without white space at either end.
pub open spec fn trimmed(s: Seq<char>) -> Seq<char> {
    trimmed_end(trimmed_start(s))
}

fn white_space(c: char) -> (r: bool)
    ensures
        r == is_white_space(c),
{
    let n: u32 = c as u32;
    (0x9 <= n && n <= 0xD) || n == 0x20 || n == 0x85 || n == 0xA0 || n == 0x1680 || (0x2000 <= n
        && n <= 0x200A) || n == 0x2028 || n == 0x2029 || n == 0x202F || n == 0x205F || n == 0x3000
}

/// The text without leading and trailing white space, as `str::trim` gives it.
pub fn trim(s: &str) -> (r: String)
    ensures
        r@ == trimmed(s@),
{
    let chars = chars_of(s);
    let mut from: usize = 0;
    assert(s@.skip(0) =~= s@);
    while from < chars.len() && white_space(chars[from])
        invariant
            from <= chars.len(),
            chars@ == s@,
            trimmed_start(s@.skip(from as int)) == trimmed_start(s@),
        decreases chars.len() - from,
    {
        proof {
            assert(s@.skip(from as int).drop_first() =~= s@.skip(from + 1));
        }
        from = from + 1;
    }
    let ghost rest = s@.skip(from as int);
    assert(trimmed_start(s@) == rest);
    let mut to: usize = chars.len();
    assert(rest.take(to - from) =~= rest);
    while to > from && white_space(chars[to - 1])
        invariant
            from <= to <= chars.len(),
            chars@ == s@,
            rest == s@.skip(from as int),
            trimmed_end(rest.take(to - from)) == trimmed_end(rest),
        decreases to,
    {
        proof {
            assert(rest.take(to - from).drop_last() =~= rest.take(to - 1 - from));
            assert(rest.take(to - from).last() == chars@[to - 1]);
        }
        to = to - 1;
    }
    assert(trimmed(s@) == rest.take(to - from)) by {
        if to > from {
            assert(rest.take(to - from).last() == chars@[to - 1]);
        }
    }
    let out = text_of(vstd::slice::slice_subrange(chars.as_slice(), from, to));
    assert(out@ =~= rest.take(to - from));
    out
}

/// Copies a list of texts.
pub fn copy_texts(texts: &Vec<String>) -> (r: Vec<String>)
    ensures
        r.deep_view() == texts.deep_view(),
{
    let mut out: Vec<String> = Vec::new();
    let mut i: usize = 0;
    while i < texts.len()
        invariant
            i <= texts.len(),
            out@.len() == i,
            forall|k: int| 0 <= k < i ==> (#[trigger] out@[k])@ == texts@[k]@,
        decreases texts.len() - i,
    {
        out.push(texts[i].clone());
        i = i + 1;
    }
    proof {
        assert(out.deep_view() =~= texts.deep_view());
    }
    out
}

} // verus!
