//! Text helpers: comparison, decimal and hexadecimal rendering, parsing of
//! unsigned numbers and splitting.

use vstd::prelude::*;
use vstd::string::*;
use vstd::utf8::*;

verus! {

/// The hexadecimal digit for `d`, lower case.
pub open spec fn hex_char(d: int) -> char {
    if d == 0 {
        '0'
    } else if d == 1 {
        '1'
    } else if d == 2 {
        '2'
    } else if d == 3 {
        '3'
    } else if d == 4 {
        '4'
    } else if d == 5 {
        '5'
    } else if d == 6 {
        '6'
    } else if d == 7 {
        '7'
    } else if d == 8 {
        '8'
    } else if d == 9 {
        '9'
    } else if d == 10 {
        'a'
    } else if d == 11 {
        'b'
    } else if d == 12 {
        'c'
    } else if d == 13 {
        'd'
    } else if d == 14 {
        'e'
    } else {
        'f'
    }
}

/// Decimal rendering of `n`, without leading zeros.
pub open spec fn decimal(n: nat) -> Seq<char>
    decreases n,
{
    if n < 10 {
        seq![hex_char(n as int)]
    } else {
        decimal(n / 10).push(hex_char((n % 10) as int))
    }
}

/// Lower-case hexadecimal rendering of `bytes`, two digits per byte.
pub open spec fn hex_of(bytes: Seq<u8>) -> Seq<char>
    decreases bytes.len(),
{
    if bytes.len() == 0 {
        Seq::empty()
    } else {
        hex_of(bytes.drop_last()).push(hex_char((bytes.last() / 16) as int)).push(
            hex_char((bytes.last() % 16) as int),
        )
    }
}

/// Joins two pieces of text.
pub fn concat(a: &str, b: &str) -> (r: String)
    ensures
        r@ == a@ + b@,
{
    let mut s = a.to_owned();
    s.append(b);
    s
}

/// Whether two pieces of text hold the same characters.
pub fn str_eq(a: &str, b: &str) -> (r: bool)
    ensures
        r == (a@ == b@),
{
    let x = a.as_bytes();
    let y = b.as_bytes();
    proof {
        encode_utf8_decode_utf8(a@);
        encode_utf8_decode_utf8(b@);
    }
    if x.len() != y.len() {
        return false;
    }
    let n: usize = x.len();
    let mut i: usize = 0;
    while i < n
        invariant
            i <= n,
            n == x@.len(),
            n == y@.len(),
            forall|j: int| 0 <= j < i ==> x@[j] == y@[j],
            x@ == encode_utf8(a@),
            y@ == encode_utf8(b@),
        decreases n - i,
    {
        if x[i] != y[i] {
            return false;
        }
        i = i + 1;
    }
    assert(x@ =~= y@);
    true
}

/// Whether a piece of text begins with another.
pub fn starts_with(s: &str, head: &str) -> (r: bool)
    ensures
        r == head@.is_prefix_of(s@),
{
    let x = chars_of(s);
    let y = chars_of(head);
    if x.len() < y.len() {
        return false;
    }
    let mut i: usize = 0;
    while i < y.len()
        invariant
            i <= y@.len() <= x@.len(),
            x@ == s@,
            y@ == head@,
            forall|j: int| 0 <= j < i ==> x@[j] == y@[j],
        decreases y@.len() - i,
    {
        if x[i] != y[i] {
            assert(s@.subrange(0, head@.len() as int)[i as int] != head@[i as int]);
            return false;
        }
        i = i + 1;
    }
    assert(head@ =~= s@.subrange(0, head@.len() as int));
    true
}

/// Length of a piece of text in bytes.
pub fn byte_len(s: &str) -> (r: usize)
    ensures
        r == encode_utf8(s@).len(),
{
    s.as_bytes().len()
}

/// The characters of a piece of text.
pub fn chars_of(s: &str) -> (r: Vec<char>)
    ensures
        r@ == s@,
{
    let mut out: Vec<char> = Vec::new();
    for c in it: s.chars()
        invariant
            out@ == s@.take(it.index()),
            it.seq() == s@,
    {
        out.push(c);
        assert(out@ =~= s@.take(it.index() + 1));
    }
    assert(out@ =~= s@);
    out
}

/// The hexadecimal digit for `d` as text.
pub fn hex_digit(d: u8) -> (r: &'static str)
    requires
        d < 16,
    ensures
        r@ == seq![hex_char(d as int)],
{
    proof {
        reveal_strlit("0");
        reveal_strlit("1");
        reveal_strlit("2");
        reveal_strlit("3");
        reveal_strlit("4");
        reveal_strlit("5");
        reveal_strlit("6");
        reveal_strlit("7");
        reveal_strlit("8");
        reveal_strlit("9");
        reveal_strlit("a");
        reveal_strlit("b");
        reveal_strlit("c");
        reveal_strlit("d");
        reveal_strlit("e");
        reveal_strlit("f");
    }
    if d == 0 {
        "0"
    } else if d == 1 {
        "1"
    } else if d == 2 {
        "2"
    } else if d == 3 {
        "3"
    } else if d == 4 {
        "4"
    } else if d == 5 {
        "5"
    } else if d == 6 {
        "6"
    } else if d == 7 {
        "7"
    } else if d == 8 {
        "8"
    } else if d == 9 {
        "9"
    } else if d == 10 {
        "a"
    } else if d == 11 {
        "b"
    } else if d == 12 {
        "c"
    } else if d == 13 {
        "d"
    } else if d == 14 {
        "e"
    } else {
        "f"
    }
}

/// Appends the decimal rendering of `n`.
pub fn push_decimal(s: &mut String, n: u64)
    ensures
        final(s)@ == old(s)@ + decimal(n as nat),
    decreases n,
{
    if n >= 10 {
        push_decimal(s, n / 10);
    }
    let d: u8 = (n % 10) as u8;
    s.append(hex_digit(d));
    assert(s@ =~= old(s)@ + decimal(n as nat));
}

/// Decimal rendering of `n`.
pub fn decimal_string(n: u64) -> (r: String)
    ensures
        r@ == decimal(n as nat),
{
    let mut s = String::new();
    push_decimal(&mut s, n);
    assert(s@ =~= decimal(n as nat));
    s
}

/// Lower-case hexadecimal rendering of `bytes`.
pub fn hex_encode(bytes: &[u8]) -> (r: String)
    ensures
        r@ == hex_of(bytes@),
{
    let mut out = String::new();
    let mut i: usize = 0;
    while i < bytes.len()
        invariant
            i <= bytes@.len(),
            out@ == hex_of(bytes@.take(i as int)),
        decreases bytes@.len() - i,
    {
        let b: u8 = bytes[i];
        out.append(hex_digit(b / 16));
        out.append(hex_digit(b % 16));
        proof {
            let t = bytes@.take(i + 1);
            assert(t.drop_last() =~= bytes@.take(i as int));
            assert(out@ =~= hex_of(t));
        }
        i = i + 1;
    }
    assert(bytes@.take(i as int) =~= bytes@);
    out
}

/// Every byte renders as two hexadecimal digits.
pub proof fn lemma_hex_len(bytes: Seq<u8>)
    ensures
        hex_of(bytes).len() == 2 * bytes.len(),
    decreases bytes.len(),
{
    if bytes.len() > 0 {
        lemma_hex_len(bytes.drop_last());
    }
}

/// Characters that [`trim_range`] strips: the Unicode White_Space property.
pub open spec fn is_white(c: char) -> bool {
    let v = c as u32;
    ||| 0x9 <= v <= 0xd
    ||| v == 0x20
    ||| v == 0x85
    ||| v == 0xa0
    ||| v == 0x1680
    ||| 0x2000 <= v <= 0x200a
    ||| v == 0x2028
    ||| v == 0x2029
    ||| v == 0x202f
    ||| v == 0x205f
    ||| v == 0x3000
}

/// See [`is_white`].
pub fn white(c: char) -> (r: bool)
    ensures
        r == is_white(c),
{
    let v: u32 = c as u32;
    (0x9 <= v && v <= 0xd) || v == 0x20 || v == 0x85 || v == 0xa0 || v == 0x1680 || (0x2000 <= v
        && v <= 0x200a) || v == 0x2028 || v == 0x2029 || v == 0x202f || v == 0x205f || v == 0x3000
}

/// `s` without its leading white space.
pub open spec fn trim_start(s: Seq<char>) -> Seq<char>
    decreases s.len(),
{
    if s.len() > 0 && is_white(s[0]) {
        trim_start(s.skip(1))
    } else {
        s
    }
}

/// `s` without its trailing white space.
pub open spec fn trim_end(s: Seq<char>) -> Seq<char>
    decreases s.len(),
{
    if s.len() > 0 && is_white(s.last()) {
        trim_end(s.drop_last())
    } else {
        s
    }
}

/// `s` without white space at either end.
pub open spec fn trimmed(s: Seq<char>) -> Seq<char> {
    trim_end(trim_start(s))
}

/// The range of `s`, between `from` and `to`, that is left once white space at
/// either end is stripped.
pub fn trim_range(s: &[char], from: usize, to: usize) -> (r: (usize, usize))
    requires
        from <= to <= s@.len(),
    ensures
        from <= r.0 <= r.1 <= to,
        s@.subrange(r.0 as int, r.1 as int) == trimmed(s@.subrange(from as int, to as int)),
{
    let mut a: usize = from;
    while a < to && white(s[a])
        invariant
            from <= a <= to <= s@.len(),
            trim_start(s@.subrange(a as int, to as int)) == trim_start(
                s@.subrange(from as int, to as int),
            ),
        decreases to - a,
    {
        proof {
            let p = s@.subrange(a as int, to as int);
            assert(p[0] == s@[a as int]);
            assert(p.skip(1) =~= s@.subrange(a + 1, to as int));
        }
        a = a + 1;
    }
    proof {
        let p = s@.subrange(a as int, to as int);
        if a < to {
            assert(p[0] == s@[a as int]);
        }
        assert(trim_start(p) == p);
    }
    let mut b: usize = to;
    while b > a && white(s[b - 1])
        invariant
            a <= b <= to <= s@.len(),
            trim_end(s@.subrange(a as int, b as int)) == trim_end(
                s@.subrange(a as int, to as int),
            ),
        decreases b,
    {
        proof {
            let p = s@.subrange(a as int, b as int);
            assert(p.last() == s@[b - 1]);
            assert(p.drop_last() =~= s@.subrange(a as int, b - 1));
        }
        b = b - 1;
    }
    proof {
        let p = s@.subrange(a as int, b as int);
        if a < b {
            assert(p.last() == s@[b - 1]);
        }
        assert(trim_end(p) == p);
    }
    (a, b)
}

/// The pieces of `s` between occurrences of `sep`; never empty.
pub open spec fn split_on(s: Seq<char>, sep: char) -> Seq<Seq<char>>
    decreases s.len(),
{
    if s.len() == 0 {
        seq![Seq::empty()]
    } else {
        let rest = split_on(s.drop_last(), sep);
        if s.last() == sep {
            rest.push(Seq::empty())
        } else {
            rest.drop_last().push(rest.last().push(s.last()))
        }
    }
}

/// The pieces of `parts`, with `sep` between neighbours.
pub open spec fn join(parts: Seq<Seq<char>>, sep: char) -> Seq<char>
    decreases parts.len(),
{
    if parts.len() == 0 {
        Seq::empty()
    } else if parts.len() == 1 {
        parts[0]
    } else {
        join(parts.drop_last(), sep).push(sep) + parts.last()
    }
}

/// Splitting never yields nothing.
pub proof fn lemma_split_nonempty(s: Seq<char>, sep: char)
    ensures
        split_on(s, sep).len() > 0,
    decreases s.len(),
{
    if s.len() > 0 {
        lemma_split_nonempty(s.drop_last(), sep);
    }
}

/// Appending text without a separator lengthens the last piece.
pub proof fn lemma_split_append(a: Seq<char>, b: Seq<char>, sep: char)
    requires
        !b.contains(sep),
    ensures
        split_on(a + b, sep) == split_on(a, sep).drop_last().push(split_on(a, sep).last() + b),
    decreases b.len(),
{
    lemma_split_nonempty(a, sep);
    let pa = split_on(a, sep);
    if b.len() == 0 {
        assert(a + b =~= a);
        assert(pa.last() + b =~= pa.last());
        assert(pa.drop_last().push(pa.last()) =~= pa);
    } else {
        let c = b.drop_last();
        assert forall|i: int| 0 <= i < c.len() implies c[i] != sep by {
            assert(b.contains(b[i]));
        }
        lemma_split_append(a, c, sep);
        assert(b.contains(b.last()));
        assert((a + b).drop_last() =~= a + c);
        assert((a + b).last() == b.last());
        let p = split_on(a + c, sep);
        assert(p.drop_last() =~= pa.drop_last());
        assert((pa.last() + c).push(b.last()) =~= pa.last() + b);
        assert(split_on(a + b, sep) =~= pa.drop_last().push(pa.last() + b));
    }
}

/// Splitting undoes joining, for pieces that do not hold the separator.
pub proof fn law_split_join(parts: Seq<Seq<char>>, sep: char)
    requires
        parts.len() > 0,
        forall|i: int| 0 <= i < parts.len() ==> !(#[trigger] parts[i]).contains(sep),
    ensures
        split_on(join(parts, sep), sep) == parts,
    decreases parts.len(),
{
    let e = Seq::<char>::empty();
    if parts.len() == 1 {
        assert(split_on(e, sep) == seq![e]);
        lemma_split_append(e, parts[0], sep);
        assert(e + parts[0] =~= parts[0]);
        assert(split_on(parts[0], sep) =~= parts);
    } else {
        let front = parts.drop_last();
        assert forall|i: int| 0 <= i < front.len() implies !(#[trigger] front[i]).contains(sep) by {
            assert(front[i] == parts[i]);
        }
        law_split_join(front, sep);
        let a = join(front, sep).push(sep);
        assert(a.drop_last() =~= join(front, sep));
        assert(split_on(a, sep) == front.push(e));
        assert(!parts[parts.len() - 1].contains(sep));
        lemma_split_append(a, parts.last(), sep);
        assert(split_on(a, sep).drop_last() =~= front);
        assert(e + parts.last() =~= parts.last());
        assert(split_on(join(parts, sep), sep) =~= parts);
    }
}

/// Whether a character is a decimal digit.
pub open spec fn is_digit(c: char) -> bool {
    '0' <= c <= '9'
}

/// Whether text is made of decimal digits alone.
pub open spec fn all_digits(s: Seq<char>) -> bool {
    forall|i: int| 0 <= i < s.len() ==> is_digit(#[trigger] s[i])
}

/// The number that decimal digits stand for.
pub open spec fn digits_value(s: Seq<char>) -> nat
    decreases s.len(),
{
    if s.len() == 0 {
        0
    } else {
        (10 * digits_value(s.drop_last()) + (s.last() as int - '0' as int)) as nat
    }
}

/// The digits of an unsigned number, without the optional plus sign.
pub open spec fn unsigned_digits(s: Seq<char>) -> Seq<char> {
    if s.len() > 1 && s[0] == '+' {
        s.skip(1)
    } else {
        s
    }
}

/// The 32-bit number that text stands for: an optional plus sign and at least
/// one digit.
pub open spec fn parsed_u32(s: Seq<char>) -> Option<u32> {
    let d = unsigned_digits(s);
    if d.len() > 0 && all_digits(d) && digits_value(d) <= u32::MAX {
        Some(digits_value(d) as u32)
    } else {
        None
    }
}

/// More digits never make a number smaller.
pub proof fn lemma_digits_grow(s: Seq<char>, n: int)
    requires
        all_digits(s),
        0 <= n <= s.len(),
    ensures
        digits_value(s.take(n)) <= digits_value(s),
    decreases s.len() - n,
{
    if n == s.len() {
        assert(s.take(n) =~= s);
    } else {
        lemma_digits_grow(s, n + 1);
        let t = s.take(n + 1);
        assert(t.drop_last() =~= s.take(n));
        assert(t.last() == s[n]);
        assert(is_digit(s[n]));
    }
}

/// Parses an unsigned 32-bit number, from position `from` of `s` to its end.
pub fn parse_u32(s: &[char], from: usize) -> (r: Option<u32>)
    requires
        from <= s@.len(),
    ensures
        r == parsed_u32(s@.skip(from as int)),
{
    let ghost whole = s@.skip(from as int);
    let n: usize = s.len();
    let mut start: usize = from;
    if n - from > 1 && s[from] == '+' {
        start = from + 1;
        assert(whole[0] == '+');
        assert(whole.skip(1) =~= s@.skip(start as int));
    } else if from < n {
        assert(whole[0] == s@[from as int]);
    }
    let ghost d = unsigned_digits(whole);
    assert(d =~= s@.skip(start as int));
    if start == n {
        return None;
    }
    let mut value: u32 = 0;
    let mut i: usize = start;
    assert(d.take(0) =~= Seq::empty());
    while i < n
        invariant
            start <= i <= n,
            n == s@.len(),
            start < n,
            d == s@.skip(start as int),
            d == unsigned_digits(s@.skip(from as int)),
            forall|j: int| 0 <= j < i - start ==> is_digit(#[trigger] d[j]),
            value == digits_value(d.take(i - start)),
        decreases n - i,
    {
        let c: char = s[i];
        assert(d[i - start] == c);
        if !('0' <= c && c <= '9') {
            assert(!is_digit(d[i - start]));
            return None;
        }
        let v: u32 = c as u32 - '0' as u32;
        proof {
            let t = d.take(i - start + 1);
            assert(t.drop_last() =~= d.take(i - start));
            assert(t.last() == c);
            if all_digits(d) {
                lemma_digits_grow(d, i - start + 1);
            }
        }
        match value.checked_mul(10) {
            None => {
                return None;
            },
            Some(w) => match w.checked_add(v) {
                None => {
                    return None;
                },
                Some(x) => {
                    value = x;
                },
            },
        }
        i = i + 1;
    }
    assert(d.take(i - start) =~= d);
    Some(value)
}

/// Rendering a number in decimal and reading it back gives the number.
pub proof fn law_decimal_round_trip(n: nat)
    ensures
        all_digits(decimal(n)),
        decimal(n).len() > 0,
        decimal(n)[0] != '+',
        digits_value(decimal(n)) == n,
    decreases n,
{
    if n < 10 {
        let s = decimal(n);
        assert(s.drop_last() =~= Seq::empty());
        assert(digits_value(s.drop_last()) == 0);
    } else {
        law_decimal_round_trip(n / 10);
        let s = decimal(n);
        assert(s.drop_last() =~= decimal(n / 10));
        assert forall|i: int| 0 <= i < s.len() implies is_digit(#[trigger] s[i]) by {
            if i < s.len() - 1 {
                assert(s[i] == decimal(n / 10)[i]);
            }
        }
        assert(s[0] == decimal(n / 10)[0]);
    }
}

/// A 32-bit number survives being written and parsed.
pub proof fn law_parse_decimal(n: u32)
    ensures
        parsed_u32(decimal(n as nat)) == Some(n),
{
    law_decimal_round_trip(n as nat);
}

/// The ranges of the pieces of `s` between occurrences of `sep`.
pub fn split_ranges(s: &Vec<char>, sep: char) -> (r: Vec<(usize, usize)>)
    ensures
        r@.len() == split_on(s@, sep).len(),
        forall|k: int|
            0 <= k < r@.len() ==> (#[trigger] r@[k]).0 <= r@[k].1 <= s@.len() && s@.subrange(
                r@[k].0 as int,
                r@[k].1 as int,
            ) == split_on(s@, sep)[k],
{
    let n: usize = s.len();
    let mut out: Vec<(usize, usize)> = Vec::new();
    let mut start: usize = 0;
    let mut i: usize = 0;
    let ghost mut done: Seq<Seq<char>> = Seq::empty();
    proof {
        assert(s@.take(0) =~= Seq::empty());
        assert(s@.subrange(0, 0) =~= Seq::empty());
        assert(split_on(s@.take(0), sep) =~= done.push(s@.subrange(0, 0)));
    }
    while i < n
        invariant
            start <= i <= n,
            n == s@.len(),
            out@.len() == done.len(),
            forall|k: int|
                0 <= k < out@.len() ==> (#[trigger] out@[k]).0 <= out@[k].1 <= s@.len()
                    && s@.subrange(out@[k].0 as int, out@[k].1 as int) == done[k],
            split_on(s@.take(i as int), sep) == done.push(s@.subrange(start as int, i as int)),
        decreases n - i,
    {
        let ghost t = s@.take(i + 1);
        let ghost p = done.push(s@.subrange(start as int, i as int));
        proof {
            assert(t.drop_last() =~= s@.take(i as int));
            assert(t.last() == s@[i as int]);
            assert(p.drop_last() =~= done);
        }
        if s[i] == sep {
            out.push((start, i));
            proof {
                done = p;
                assert(s@.subrange(i + 1, i + 1) =~= Seq::empty());
            }
            start = i + 1;
        } else {
            proof {
                assert(s@.subrange(start as int, i as int).push(s@[i as int]) =~= s@.subrange(
                    start as int,
                    i + 1,
                ));
            }
        }
        i = i + 1;
    }
    assert(s@.take(i as int) =~= s@);
    out.push((start, n));
    out
}

/// Text with a separator in the middle has the pieces of what is before it and
/// the pieces of what is behind it.
pub proof fn law_split_at(a: Seq<char>, b: Seq<char>, sep: char)
    ensures
        split_on(a.push(sep) + b, sep) == split_on(a, sep) + split_on(b, sep),
    decreases b.len(),
{
    let s = a.push(sep) + b;
    if b.len() == 0 {
        assert(s =~= a.push(sep));
        assert(s.drop_last() =~= a);
        assert(split_on(s, sep) =~= split_on(a, sep) + split_on(b, sep));
    } else {
        law_split_at(a, b.drop_last(), sep);
        lemma_split_nonempty(b.drop_last(), sep);
        assert(s.drop_last() =~= a.push(sep) + b.drop_last());
        assert(s.last() == b.last());
        let x = split_on(a, sep);
        let y = split_on(b.drop_last(), sep);
        assert((x + y).drop_last() =~= x + y.drop_last());
        assert(split_on(s, sep) =~= x + split_on(b, sep));
    }
}

/// No piece holds the separator, and text without it is one piece.
pub proof fn law_pieces(s: Seq<char>, sep: char, i: int)
    requires
        0 <= i < split_on(s, sep).len(),
    ensures
        !split_on(s, sep)[i].contains(sep),
        !s.contains(sep) ==> split_on(s, sep) == seq![s],
    decreases s.len(),
{
    if s.len() > 0 {
        lemma_split_nonempty(s.drop_last(), sep);
        let rest = split_on(s.drop_last(), sep);
        if i < rest.len() {
            law_pieces(s.drop_last(), sep, i);
        }
        if !s.contains(sep) {
            let e = Seq::<char>::empty();
            lemma_split_append(e, s, sep);
            assert(e + s =~= s);
            assert(split_on(e, sep) == seq![e]);
            assert(split_on(s, sep) =~= seq![s]);
        }
        if s.last() != sep && i == rest.len() - 1 {
            let p = rest.last().push(s.last());
            assert forall|k: int| 0 <= k < p.len() implies p[k] != sep by {
                if k < rest.last().len() {
                    assert(rest.last().contains(rest.last()[k]));
                }
            }
        }
    } else {
        assert(s =~= Seq::<char>::empty());
        assert(split_on(s, sep) =~= seq![s]);
    }
}

/// A digit of a number, decimal or hexadecimal, is the one that is written for
/// it: `0` to `9`, and from ten on `a` to `f`.
pub proof fn law_digits(d: int)
    ensures
        0 <= d < 10 ==> hex_char(d) as int == 48 + d,
        10 <= d < 16 ==> hex_char(d) as int == 97 + (d - 10),
{
}

/// Decimal writing puts the tens before the ones.
pub proof fn law_decimal_places(n: nat, d: nat)
    requires
        d < 10,
    ensures
        decimal(d).len() == 1,
        decimal(d)[0] as int == 48 + d,
        n > 0 ==> decimal(10 * n + d) == decimal(n) + decimal(d),
{
    if n > 0 {
        let x: nat = 10 * n + d;
        assert(x / 10 == n && x % 10 == d);
        assert(decimal(x) =~= decimal(n) + decimal(d));
    }
}

/// Hexadecimal writing has two digits for a byte, the higher one first.
pub proof fn law_hex_places(bytes: Seq<u8>, b: u8)
    ensures
        hex_of(bytes.push(b)).len() == hex_of(bytes).len() + 2,
        hex_of(bytes.push(b)).take(hex_of(bytes).len() as int) == hex_of(bytes),
        ({
            let t = hex_of(bytes.push(b));
            let v = |c: char|
                if c as int >= 97 {
                    c as int - 87
                } else {
                    c as int - 48
                };
            v(t[t.len() - 2]) * 16 + v(t[t.len() - 1]) == b
        }),
        hex_of(Seq::<u8>::empty()).len() == 0,
{
    assert(bytes.push(b).drop_last() =~= bytes);
    let t = hex_of(bytes.push(b));
    assert(t.take(hex_of(bytes).len() as int) =~= hex_of(bytes));
}

proof fn lemma_trim_start(s: Seq<char>)
    ensures
        exists|k: int|
            0 <= k <= s.len() && trim_start(s) == #[trigger] s.skip(k) && (k < s.len() ==> !is_white(
                s[k],
            )) && forall|j: int| 0 <= j < k ==> is_white(#[trigger] s[j]),
    decreases s.len(),
{
    if s.len() > 0 && is_white(s[0]) {
        let r = s.skip(1);
        lemma_trim_start(r);
        let k = choose|k: int|
            0 <= k <= r.len() && trim_start(r) == #[trigger] r.skip(k) && (k < r.len() ==> !is_white(
                r[k],
            )) && forall|j: int| 0 <= j < k ==> is_white(#[trigger] r[j]);
        assert(s.skip(k + 1) =~= r.skip(k));
        assert forall|j: int| 0 <= j < k + 1 implies is_white(#[trigger] s[j]) by {
            if j > 0 {
                assert(r[j - 1] == s[j]);
            }
        }
    } else {
        assert(s.skip(0) =~= s);
    }
}

proof fn lemma_trim_end(s: Seq<char>)
    ensures
        exists|k: int|
            0 <= k <= s.len() && trim_end(s) == #[trigger] s.take(k) && (k > 0 ==> !is_white(
                s[k - 1],
            )) && forall|j: int| k <= j < s.len() ==> is_white(#[trigger] s[j]),
    decreases s.len(),
{
    if s.len() > 0 && is_white(s.last()) {
        let r = s.drop_last();
        lemma_trim_end(r);
        let k = choose|k: int|
            0 <= k <= r.len() && trim_end(r) == #[trigger] r.take(k) && (k > 0 ==> !is_white(
                r[k - 1],
            )) && forall|j: int| k <= j < r.len() ==> is_white(#[trigger] r[j]);
        assert(s.take(k) =~= r.take(k));
        assert forall|j: int| k <= j < s.len() implies is_white(#[trigger] s[j]) by {
            if j < r.len() {
                assert(r[j] == s[j]);
            }
        }
    } else {
        assert(s.take(s.len() as int) =~= s);
    }
}

/// Stripping takes white space off both ends, all of it and nothing else.
pub proof fn law_stripping(s: Seq<char>)
    ensures
        exists|i: int, j: int|
            0 <= i <= j <= s.len() && trimmed(s) == #[trigger] s.subrange(i, j) && (i < j
                ==> !is_white(s[i]) && !is_white(s[j - 1])) && (forall|k: int|
                0 <= k < s.len() && !(i <= k < j) ==> is_white(#[trigger] s[k])),
{
    lemma_trim_start(s);
    let i = choose|k: int|
        0 <= k <= s.len() && trim_start(s) == #[trigger] s.skip(k) && (k < s.len() ==> !is_white(
            s[k],
        )) && forall|j: int| 0 <= j < k ==> is_white(#[trigger] s[j]);
    let r = s.skip(i);
    lemma_trim_end(r);
    let n = choose|k: int|
        0 <= k <= r.len() && trim_end(r) == #[trigger] r.take(k) && (k > 0 ==> !is_white(r[k - 1]))
            && forall|j: int| k <= j < r.len() ==> is_white(#[trigger] r[j]);
    let j = i + n;
    assert(r.take(n) =~= s.subrange(i, j));
    assert forall|k: int| 0 <= k < s.len() && !(i <= k < j) implies is_white(#[trigger] s[k]) by {
        if k >= i {
            assert(r[k - i] == s[k]);
        }
    }
}

/// Blank, tab and the line ends are white space; letters, digits and marks of
/// ASCII are not.
pub proof fn law_white_space(c: char)
    ensures
        c as int == 9 || c as int == 10 || c as int == 13 || c as int == 32 ==> is_white(c),
        33 <= c as int <= 126 ==> !is_white(c),
{
}

/// One plus sign may stand before the digits of a number and changes nothing. Two
/// do not make a number, nor does any other mark, nor nothing at all.
pub proof fn law_plus_sign(s: Seq<char>)
    ensures
        s.len() > 0 && s[0] != '+' ==> parsed_u32(seq!['+'] + s) == parsed_u32(s),
        parsed_u32(seq!['+'] + (seq!['+'] + s)) is None,
        s.len() > 0 && s[0] != '+' && !('0' <= s[0] <= '9') ==> parsed_u32(s) is None,
        parsed_u32(seq!['+']) is None,
        parsed_u32(Seq::empty()) is None,
{
    let one = seq!['+'] + s;
    let two = seq!['+'] + one;
    assert(one.skip(1) =~= s);
    assert(two.skip(1) =~= one);
    assert(one[0] == '+');
    assert(seq!['+'][0] == '+');
}

} // verus!
